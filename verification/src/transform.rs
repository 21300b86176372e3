//! Pure transforms over decoded data: normalization, one-hot encoding of
//! labels, and filtering of image/label pairs by a set of wanted labels.

use vstd::prelude::*;
use crate::DecodeError;
use crate::matrix::{NormMatrix, PixelMatrix};

verus! {

/// Scales every entry of a raw pixel matrix into the unit interval by an
/// exact division by 255: the result stores each raw value as the numerator
/// of the fraction `value / 255`. The input matrix is left untouched; the
/// result has the same shape and, numerator for numerator, the same values.
pub fn normalize(m: &PixelMatrix) -> (r: NormMatrix)
    requires
        m.wf(),
    ensures
        r.wf(),
        r@ == m@,
        r.spec_cols() == m.spec_cols(),
{
    NormMatrix::from_numerators(m.duplicate())
}

/// The one-hot row for label `l`: ten entries, a single 1 in column `l`,
/// 0 everywhere else.
pub open spec fn one_hot_row(l: u8) -> Seq<u8> {
    Seq::new(10, |j: int| if j == l as int { 1u8 } else { 0u8 })
}

/// A one-hot row is one exactly at its label's column: it has ten entries,
/// entry `l` is 1, and every other entry is 0.
pub proof fn lemma_one_hot_row(l: u8)
    requires
        l < 10,
    ensures
        one_hot_row(l).len() == 10,
        one_hot_row(l)[l as int] == 1,
        forall|j: int| 0 <= j < 10 && j != l ==> one_hot_row(l)[j] == 0,
{
}

/// Encodes labels as the response matrix a classifier trains against: one
/// row per label, ten columns, row `i` holding `one_hot_row(labels[i])` —
/// a single 1 in column `labels[i]`, 0 elsewhere.
///
/// Succeeds exactly when every label is at most 9; a label of 10 or more
/// has no column of its own and fails the whole encoding with
/// `LabelOutOfRange`.
pub fn to_one_hot(labels: &Vec<u8>) -> (r: Result<PixelMatrix, DecodeError>)
    ensures
        match r {
            Ok(m) => {
                &&& forall|i: int| 0 <= i < labels@.len() ==> labels@[i] < 10
                &&& m.wf()
                &&& m.spec_cols() == 10
                &&& m@.len() == labels@.len()
                &&& forall|i: int|
                    0 <= i < labels@.len() ==> #[trigger] m@[i] == one_hot_row(labels@[i])
            },
            Err(e) => {
                &&& e == DecodeError::LabelOutOfRange
                &&& exists|i: int| 0 <= i < labels@.len() && labels@[i] >= 10
            },
        },
{
    let n = labels.len();
    let mut data: Vec<u8> = Vec::new();
    for i in 0..n
        invariant
            n == labels@.len(),
            data@.len() == i * 10,
            forall|k: int| 0 <= k < i ==> labels@[k] < 10,
            forall|k: int|
                0 <= k < i ==> #[trigger] data@.subrange(k * 10, k * 10 + 10)
                    == one_hot_row(labels@[k]),
    {
        let l = labels[i];
        if l >= 10 {
            return Err(DecodeError::LabelOutOfRange);
        }
        let ghost before = data@;
        for j in 0..10u8
            invariant
                data@ == before + one_hot_row(l).take(j as int),
                l < 10,
        {
            proof {
                assert(one_hot_row(l).take(j as int).push(if j as int == l as int {
                    1u8
                } else {
                    0u8
                }) =~= one_hot_row(l).take(j as int + 1));
            }
            if j == l {
                data.push(1);
            } else {
                data.push(0);
            }
        }
        proof {
            assert(one_hot_row(l).take(10) =~= one_hot_row(l));
            assert forall|k: int|
                0 <= k < i + 1 implies #[trigger] data@.subrange(k * 10, k * 10 + 10)
                == one_hot_row(labels@[k]) by {
                if k < i {
                    assert(data@.subrange(k * 10, k * 10 + 10) =~= before.subrange(
                        k * 10,
                        k * 10 + 10,
                    ));
                } else {
                    assert(data@.subrange(k * 10, k * 10 + 10) =~= one_hot_row(l));
                }
            }
        }
    }
    let m = PixelMatrix::from_flat(n, 10, data);
    proof {
        assert forall|i: int| 0 <= i < labels@.len() implies #[trigger] m@[i] == one_hot_row(
            labels@[i],
        ) by {
            assert(m@[i] == data@.subrange(i * 10, (i + 1) * 10));
            assert(data@.subrange(i * 10, i * 10 + 10) == one_hot_row(labels@[i]));
        }
    }
    Ok(m)
}

/// The positions of `labels` whose value occurs in `wanted`, in increasing
/// order. These are the rows that filtering keeps.
pub open spec fn kept_indices(labels: Seq<u8>, wanted: Seq<u8>) -> Seq<int>
    decreases labels.len(),
{
    if labels.len() == 0 {
        Seq::empty()
    } else {
        let prefix = kept_indices(labels.drop_last(), wanted);
        if wanted.contains(labels.last()) {
            prefix.push(labels.len() - 1)
        } else {
            prefix
        }
    }
}

/// The labels that filtering by `wanted` keeps, in their original order.
pub open spec fn selected_labels(labels: Seq<u8>, wanted: Seq<u8>) -> Seq<u8> {
    kept_indices(labels, wanted).map(|_k: int, i: int| labels[i])
}

/// The rows of `rows` that filtering by `wanted` keeps, in their original
/// order, when row `i` carries label `labels[i]`.
pub open spec fn selected_rows(rows: Seq<Seq<u8>>, labels: Seq<u8>, wanted: Seq<u8>) -> Seq<
    Seq<u8>,
> {
    kept_indices(labels, wanted).map(|_k: int, i: int| rows[i])
}

/// How often the value `v` occurs in `labels`.
pub open spec fn count_of(labels: Seq<u8>, v: u8) -> nat
    decreases labels.len(),
{
    if labels.len() == 0 {
        0
    } else {
        count_of(labels.drop_last(), v) + if labels.last() == v {
            1nat
        } else {
            0nat
        }
    }
}

/// Filtering is a stable selection: the kept positions are in range, carry
/// wanted labels, are strictly increasing — so the relative order of the
/// kept rows is the original one — and no position with a wanted label is
/// dropped. There are never more kept positions than labels.
pub proof fn lemma_kept_indices(labels: Seq<u8>, wanted: Seq<u8>)
    ensures
        kept_indices(labels, wanted).len() <= labels.len(),
        forall|k: int|
            0 <= k < kept_indices(labels, wanted).len() ==> {
                &&& 0 <= #[trigger] kept_indices(labels, wanted)[k] < labels.len()
                &&& wanted.contains(labels[kept_indices(labels, wanted)[k]])
            },
        forall|k1: int, k2: int|
            0 <= k1 < k2 < kept_indices(labels, wanted).len() ==> kept_indices(labels, wanted)[k1]
                < kept_indices(labels, wanted)[k2],
        forall|i: int|
            0 <= i < labels.len() && wanted.contains(labels[i]) ==> kept_indices(
                labels,
                wanted,
            ).contains(i),
    decreases labels.len(),
{
    if labels.len() > 0 {
        let d = labels.drop_last();
        let kd = kept_indices(d, wanted);
        let kept = kept_indices(labels, wanted);
        lemma_kept_indices(d, wanted);
        assert forall|k: int| 0 <= k < kd.len() implies wanted.contains(
            labels[kd[k]],
        ) by {
            assert(d[kd[k]] == labels[kd[k]]);
        }
        assert forall|i: int|
            0 <= i < labels.len() && wanted.contains(labels[i]) implies kept.contains(i) by {
            if i < labels.len() - 1 {
                assert(d[i] == labels[i]);
                assert(kd.contains(i));
                let k = choose|k: int| 0 <= k < kd.len() && kd[k] == i;
                assert(kept[k] == i);
            } else {
                assert(kept.last() == i);
            }
        }
    }
}

/// The two filtered results stay paired: they have the same length, and
/// entry `k` of each is the row, respectively the label, at the `k`-th kept
/// position — so the selected images and the selected labels are aligned
/// index for index, as the originals were.
pub proof fn lemma_selection_stays_paired(rows: Seq<Seq<u8>>, labels: Seq<u8>, wanted: Seq<u8>)
    ensures
        selected_rows(rows, labels, wanted).len() == selected_labels(labels, wanted).len(),
        forall|k: int|
            0 <= k < selected_labels(labels, wanted).len() ==> {
                &&& #[trigger] selected_rows(rows, labels, wanted)[k] == rows[kept_indices(
                    labels,
                    wanted,
                )[k]]
                &&& selected_labels(labels, wanted)[k] == labels[kept_indices(labels, wanted)[k]]
            },
{
}

/// Filtering with the single wanted value `v` keeps exactly the labels that
/// equal `v`: every selected label is `v`, and as many are selected as `v`
/// occurs in `labels`.
pub proof fn lemma_select_single_value(labels: Seq<u8>, v: u8)
    ensures
        selected_labels(labels, seq![v]).len() == count_of(labels, v),
        forall|k: int|
            0 <= k < selected_labels(labels, seq![v]).len() ==> #[trigger] selected_labels(
                labels,
                seq![v],
            )[k] == v,
    decreases labels.len(),
{
    lemma_kept_indices(labels, seq![v]);
    assert forall|k: int| 0 <= k < selected_labels(labels, seq![v]).len() implies #[trigger]
        selected_labels(labels, seq![v])[k] == v by {
        let i = kept_indices(labels, seq![v])[k];
        lemma_singleton_contains(v, labels[i]);
    }
    if labels.len() > 0 {
        lemma_select_single_value(labels.drop_last(), v);
        lemma_singleton_contains(v, labels.last());
    }
}

/// A one-element sequence holds exactly its element.
proof fn lemma_singleton_contains(v: u8, x: u8)
    ensures
        seq![v].contains(x) <==> x == v,
{
    if seq![v].contains(x) {
        let i = choose|i: int| 0 <= i < seq![v].len() && seq![v][i] == x;
        assert(i == 0);
    }
    if x == v {
        assert(seq![v][0] == x);
    }
}

/// Extending the labels by one position either appends that position to the
/// kept ones — when its label is wanted — or leaves them unchanged.
proof fn lemma_kept_indices_step(labels: Seq<u8>, wanted: Seq<u8>, i: int)
    requires
        0 <= i < labels.len(),
    ensures
        kept_indices(labels.take(i + 1), wanted) == if wanted.contains(labels[i]) {
            kept_indices(labels.take(i), wanted).push(i)
        } else {
            kept_indices(labels.take(i), wanted)
        },
{
    assert(labels.take(i + 1).drop_last() =~= labels.take(i));
    assert(labels.take(i + 1).last() == labels[i]);
}

/// Whether the label `l` occurs in `wanted`.
fn contains_label(wanted: &Vec<u8>, l: u8) -> (r: bool)
    ensures
        r == wanted@.contains(l),
{
    let n = wanted.len();
    for k in 0..n
        invariant
            n == wanted@.len(),
            forall|m: int| 0 <= m < k ==> wanted@[m] != l,
    {
        if wanted[k] == l {
            return true;
        }
    }
    false
}

/// Keeps exactly the images whose label occurs in `wanted`, with their
/// labels: a stable filter of the image/label pairs. Row `i` of `images`
/// carries label `labels[i]`, so both inputs must pair up row for row.
///
/// The kept rows and kept labels sit at the same original positions — the
/// increasing positions `kept_indices(labels, wanted)` — so relative order
/// is preserved and the two results stay index-aligned. Neither input is
/// changed: the results are fresh.
pub fn select_by_labels(images: &PixelMatrix, labels: &Vec<u8>, wanted: &Vec<u8>) -> (r: (
    PixelMatrix,
    Vec<u8>,
))
    requires
        images.wf(),
        images@.len() == labels@.len(),
    ensures
        r.0.wf(),
        r.0.spec_cols() == images.spec_cols(),
        r.0@ == selected_rows(images@, labels@, wanted@),
        r.1@ == selected_labels(labels@, wanted@),
{
    let n = labels.len();
    let cols = images.nb_cols();
    let mut data: Vec<u8> = Vec::new();
    let mut kept_labels: Vec<u8> = Vec::new();
    let mut count: usize = 0;
    proof {
        images.lemma_shape();
    }
    for i in 0..n
        invariant
            images.wf(),
            images@.len() == labels@.len(),
            n == labels@.len(),
            cols == images.spec_cols(),
            0 <= cols,
            forall|r: int| 0 <= r < images@.len() ==> (#[trigger] images@[r]).len() == cols,
            count == selected_rows(images@, labels@.take(i as int), wanted@).len(),
            count <= i,
            data@.len() == count * cols,
            kept_labels@ == selected_labels(labels@.take(i as int), wanted@),
            forall|r: int|
                0 <= r < count ==> #[trigger] data@.subrange(r * cols, r * cols + cols)
                    == selected_rows(images@, labels@.take(i as int), wanted@)[r],
    {
        proof {
            lemma_kept_indices(labels@.take(i as int), wanted@);
            lemma_kept_indices_step(labels@, wanted@, i as int);
            assert(labels@.take(i as int + 1)[i as int] == labels@[i as int]);
        }
        let ghost sel_old = selected_rows(images@, labels@.take(i as int), wanted@);
        let ghost sel_new = selected_rows(images@, labels@.take(i as int + 1), wanted@);
        let ghost lab_old = selected_labels(labels@.take(i as int), wanted@);
        let ghost lab_new = selected_labels(labels@.take(i as int + 1), wanted@);
        proof {
            let kept = kept_indices(labels@.take(i as int), wanted@);
            if wanted@.contains(labels@[i as int]) {
                assert forall|k: int| 0 <= k < kept.len() implies labels@.take(
                    i as int + 1,
                )[kept.push(i as int)[k]] == labels@.take(i as int)[kept[k]] by {}
                assert(lab_new =~= lab_old.push(labels@[i as int]));
                assert(sel_new =~= sel_old.push(images@[i as int]));
            } else {
                assert forall|k: int| 0 <= k < kept.len() implies labels@.take(
                    i as int + 1,
                )[kept[k]] == labels@.take(i as int)[kept[k]] by {}
                assert(lab_new =~= lab_old);
                assert(sel_new =~= sel_old);
            }
        }
        if contains_label(wanted, labels[i]) {
            let mut row = images.row(i);
            let ghost data_before = data@;
            data.append(&mut row);
            kept_labels.push(labels[i]);
            count = count + 1;
            proof {
                assert(count * cols == (count - 1) * cols + cols) by (nonlinear_arith);
                assert forall|r: int|
                    0 <= r < count implies #[trigger] data@.subrange(r * cols, r * cols + cols)
                    == sel_new[r] by {
                    assert((r + 1) * cols == r * cols + cols) by (nonlinear_arith);
                    vstd::arithmetic::mul::lemma_mul_inequality(0, r, cols as int);
                    if r < count - 1 {
                        vstd::arithmetic::mul::lemma_mul_inequality(
                            r + 1,
                            count as int - 1,
                            cols as int,
                        );
                        assert(data@.subrange(r * cols, r * cols + cols) =~= data_before.subrange(
                            r * cols,
                            r * cols + cols,
                        ));
                    } else {
                        assert(r * cols == (count - 1) * cols) by (nonlinear_arith)
                            requires
                                r == count - 1,
                        ;
                        assert(data@.subrange(r * cols, r * cols + cols) =~= images@[i as int]);
                    }
                }
            }
        }
    }
    proof {
        assert(labels@.take(n as int) =~= labels@);
    }
    let m = PixelMatrix::from_flat(count, cols, data);
    proof {
        let sel = selected_rows(images@, labels@, wanted@);
        assert forall|r: int| 0 <= r < count implies #[trigger] m@[r] == sel[r] by {
            assert((r + 1) * cols == r * cols + cols) by (nonlinear_arith);
            assert(m@[r] == data@.subrange(r * cols, (r + 1) * cols));
            assert(data@.subrange(r * cols, r * cols + cols) == sel[r]);
        }
        assert(m@ =~= sel);
    }
    (m, kept_labels)
}

/// The console glyphs for image `index`: one character per pixel in
/// row-major order, `'#'` where the pixel's numerator is at least
/// `threshold` — that is, where its value is at least `threshold / 255` —
/// and `' '` elsewhere. The renderer that consumes them decides line breaks
/// and the threshold.
pub fn row_glyphs(images: &NormMatrix, index: usize, threshold: u8) -> (r: Vec<char>)
    requires
        images.wf(),
        index < images@.len(),
    ensures
        r@.len() == images.spec_cols(),
        forall|j: int|
            0 <= j < r@.len() ==> #[trigger] r@[j] == (if images@[index as int][j] >= threshold {
                '#'
            } else {
                ' '
            }),
{
    proof {
        images.lemma_shape();
    }
    let cols = images.nb_cols();
    let mut r: Vec<char> = Vec::new();
    for j in 0..cols
        invariant
            images.wf(),
            index < images@.len(),
            cols == images.spec_cols(),
            images@[index as int].len() == cols,
            r@.len() == j,
            forall|k: int|
                0 <= k < j ==> #[trigger] r@[k] == (if images@[index as int][k] >= threshold {
                    '#'
                } else {
                    ' '
                }),
    {
        let v = images.get_numerator(index, j);
        if v >= threshold {
            r.push('#');
        } else {
            r.push(' ');
        }
    }
    r
}

} // verus!
