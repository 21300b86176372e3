//! Flat row-major matrices of byte-sized values.
//!
//! A decoded MNIST image set is a matrix with one flattened 28x28 image per
//! row; a one-hot response set is a matrix with ten columns per label. Both
//! live in a single contiguous buffer of `rows * cols` bytes, viewed in
//! specifications as a sequence of rows, each a sequence of bytes.

use vstd::prelude::*;

verus! {

/// Bounds on the byte range that row `i` occupies inside a row-major buffer
/// of `rows * cols` bytes.
proof fn lemma_row_bounds(i: int, rows: int, cols: int)
    requires
        0 <= i < rows,
        0 <= cols,
    ensures
        0 <= i * cols,
        i * cols + cols == (i + 1) * cols,
        (i + 1) * cols <= rows * cols,
{
    assert(0 <= i * cols && i * cols + cols == (i + 1) * cols && (i + 1) * cols <= rows * cols)
        by (nonlinear_arith)
        requires
            0 <= i < rows,
            0 <= cols,
    ;
}

/// A matrix of `u8` values stored row-major in one contiguous buffer.
pub struct PixelMatrix {
    rows: usize,
    cols: usize,
    data: Vec<u8>,
}

impl View for PixelMatrix {
    type V = Seq<Seq<u8>>;

    /// The matrix as a sequence of rows.
    closed spec fn view(&self) -> Seq<Seq<u8>> {
        Seq::new(self.rows as nat, |i: int| self.data@.subrange(i * self.cols, (i + 1) * self.cols))
    }
}

impl PixelMatrix {
    /// The common length of the rows.
    pub closed spec fn spec_cols(&self) -> int {
        self.cols as int
    }

    /// The backing buffer holds exactly `rows * cols` bytes.
    pub closed spec fn wf(&self) -> bool {
        self.data@.len() == self.rows * self.cols
    }

    /// Every row of a well-formed matrix has `spec_cols()` entries.
    pub proof fn lemma_shape(&self)
        requires
            self.wf(),
        ensures
            forall|i: int| 0 <= i < self@.len() ==> (#[trigger] self@[i]).len() == self.spec_cols(),
    {
        assert forall|i: int| 0 <= i < self@.len() implies (#[trigger] self@[i]).len()
            == self.spec_cols() by {
            lemma_row_bounds(i, self.rows as int, self.cols as int);
        }
    }

    /// Wraps a contiguous row-major buffer as a matrix of `rows` rows of
    /// `cols` bytes each.
    pub fn from_flat(rows: usize, cols: usize, data: Vec<u8>) -> (r: PixelMatrix)
        requires
            data@.len() == rows * cols,
        ensures
            r.wf(),
            r@.len() == rows,
            r.spec_cols() == cols,
            forall|i: int|
                0 <= i < rows ==> #[trigger] r@[i] == data@.subrange(i * cols, (i + 1) * cols),
            forall|i: int, j: int|
                0 <= i < rows && 0 <= j < cols ==> #[trigger] r@[i][j] == data@[i * cols + j],
    {
        let r = PixelMatrix { rows, cols, data };
        proof {
            assert forall|i: int, j: int|
                0 <= i < rows && 0 <= j < cols implies #[trigger] r@[i][j]
                == r.data@[i * cols + j] by {
                lemma_row_bounds(i, rows as int, cols as int);
            }
        }
        r
    }

    /// How many rows the matrix has.
    pub fn nb_rows(&self) -> (r: usize)
        ensures
            r == self@.len(),
    {
        self.rows
    }

    /// How many columns the matrix has.
    pub fn nb_cols(&self) -> (r: usize)
        ensures
            r == self.spec_cols(),
    {
        self.cols
    }

    /// The value stored at row `i`, column `j`.
    pub fn get(&self, i: usize, j: usize) -> (r: u8)
        requires
            self.wf(),
            i < self@.len(),
            j < self.spec_cols(),
        ensures
            r == self@[i as int][j as int],
    {
        proof {
            vstd::std_specs::vec::axiom_spec_len(&self.data);
            lemma_row_bounds(i as int, self.rows as int, self.cols as int);
        }
        self.data[i * self.cols + j]
    }

    /// A copy of row `i` as its own vector.
    pub fn row(&self, i: usize) -> (r: Vec<u8>)
        requires
            self.wf(),
            i < self@.len(),
        ensures
            r@ == self@[i as int],
    {
        proof {
            vstd::std_specs::vec::axiom_spec_len(&self.data);
            lemma_row_bounds(i as int, self.rows as int, self.cols as int);
        }
        let base = i * self.cols;
        let mut r: Vec<u8> = Vec::new();
        for j in 0..self.cols
            invariant
                self.wf(),
                i < self@.len(),
                base == i as int * self.spec_cols(),
                base + self.spec_cols() <= self.data@.len(),
                self.data@.len() <= usize::MAX,
                r@.len() == j,
                forall|k: int| 0 <= k < j ==> #[trigger] r@[k] == self.data@[base + k],
        {
            r.push(self.data[base + j]);
        }
        proof {
            lemma_row_bounds(i as int, self.rows as int, self.cols as int);
            assert(r@ =~= self@[i as int]);
        }
        r
    }

    /// A fresh matrix with the same shape and the same values.
    pub fn duplicate(&self) -> (r: PixelMatrix)
        requires
            self.wf(),
        ensures
            r.wf(),
            r@ == self@,
            r.spec_cols() == self.spec_cols(),
    {
        let mut data: Vec<u8> = Vec::new();
        let n = self.data.len();
        for k in 0..n
            invariant
                n == self.data@.len(),
                data@.len() == k,
                forall|m: int| 0 <= m < k ==> #[trigger] data@[m] == self.data@[m],
        {
            data.push(self.data[k]);
        }
        proof {
            assert(data@ =~= self.data@);
        }
        let r = PixelMatrix { rows: self.rows, cols: self.cols, data };
        proof {
            assert(r@ =~~= self@);
        }
        r
    }
}

/// A matrix of values scaled into the unit interval: the entry stored as the
/// byte `v` denotes the exact fraction `v / 255`, so every entry lies in
/// `[0, 1]` and no precision is lost. The view of the matrix is the sequence
/// of stored numerators.
pub struct NormMatrix {
    nums: PixelMatrix,
}

impl View for NormMatrix {
    type V = Seq<Seq<u8>>;

    /// The matrix as a sequence of rows of numerators over 255.
    closed spec fn view(&self) -> Seq<Seq<u8>> {
        self.nums@
    }
}

impl NormMatrix {
    /// The common length of the rows.
    pub closed spec fn spec_cols(&self) -> int {
        self.nums.spec_cols()
    }

    /// The backing matrix of numerators is well formed.
    pub closed spec fn wf(&self) -> bool {
        self.nums.wf()
    }

    /// Every row of a well-formed matrix has `spec_cols()` entries.
    pub proof fn lemma_shape(&self)
        requires
            self.wf(),
        ensures
            forall|i: int| 0 <= i < self@.len() ==> (#[trigger] self@[i]).len() == self.spec_cols(),
    {
        self.nums.lemma_shape();
    }

    /// Wraps a matrix of raw values as the matrix of their fractions over 255.
    pub fn from_numerators(nums: PixelMatrix) -> (r: NormMatrix)
        ensures
            r@ == nums@,
            r.spec_cols() == nums.spec_cols(),
            r.wf() == nums.wf(),
    {
        NormMatrix { nums }
    }

    /// How many rows the matrix has.
    pub fn nb_rows(&self) -> (r: usize)
        ensures
            r == self@.len(),
    {
        self.nums.nb_rows()
    }

    /// How many columns the matrix has.
    pub fn nb_cols(&self) -> (r: usize)
        ensures
            r == self.spec_cols(),
    {
        self.nums.nb_cols()
    }

    /// The numerator stored at row `i`, column `j`: the entry's value is the
    /// returned byte divided by 255.
    pub fn get_numerator(&self, i: usize, j: usize) -> (r: u8)
        requires
            self.wf(),
            i < self@.len(),
            j < self.spec_cols(),
        ensures
            r == self@[i as int][j as int],
    {
        self.nums.get(i, j)
    }
}

} // verus!
