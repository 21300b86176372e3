use mnist::decode::{decode_images, decode_images_normalized, decode_labels};
use mnist::transform::{row_glyphs, select_by_labels, to_one_hot};
use mnist::DecodeError;

fn be32_bytes(v: u32) -> [u8; 4] {
    [(v >> 24) as u8, (v >> 16) as u8, (v >> 8) as u8, v as u8]
}

fn image_file(magic: u32, nb_images: u32, nb_rows: u32, nb_columns: u32, pixels: &[u8]) -> Vec<u8> {
    let mut buf = Vec::new();
    buf.extend_from_slice(&be32_bytes(magic));
    buf.extend_from_slice(&be32_bytes(nb_images));
    buf.extend_from_slice(&be32_bytes(nb_rows));
    buf.extend_from_slice(&be32_bytes(nb_columns));
    buf.extend_from_slice(pixels);
    buf
}

fn label_file(magic: u32, nb_labels: u32, labels: &[u8]) -> Vec<u8> {
    let mut buf = Vec::new();
    buf.extend_from_slice(&be32_bytes(magic));
    buf.extend_from_slice(&be32_bytes(nb_labels));
    buf.extend_from_slice(labels);
    buf
}

/// An image file whose image `i` has every pixel equal to `markers[i]`, so
/// a filtered matrix shows which original rows survived.
fn marked_images(markers: &[u8]) -> Vec<u8> {
    let mut pixels = Vec::new();
    for &m in markers {
        pixels.extend_from_slice(&[m; 784]);
    }
    image_file(0x0000_0803, markers.len() as u32, 28, 28, &pixels)
}

#[test]
fn one_hot_puts_the_one_at_the_label() {
    let labels = vec![3u8, 0, 9];
    let m = to_one_hot(&labels).unwrap();
    assert_eq!(m.nb_rows(), 3);
    assert_eq!(m.nb_cols(), 10);
    for i in 0..3 {
        for j in 0..10 {
            let expected = if j as u8 == labels[i] { 1 } else { 0 };
            assert_eq!(m.get(i, j), expected);
        }
    }
}

#[test]
fn one_hot_of_no_labels_is_an_empty_matrix() {
    let labels: Vec<u8> = Vec::new();
    let m = to_one_hot(&labels).unwrap();
    assert_eq!(m.nb_rows(), 0);
    assert_eq!(m.nb_cols(), 10);
}

#[test]
fn one_hot_rejects_a_label_of_ten() {
    let labels = vec![3u8, 10, 2];
    assert_eq!(to_one_hot(&labels).map(|_| ()), Err(DecodeError::LabelOutOfRange));
}

#[test]
fn one_hot_rejects_a_large_label() {
    let labels = vec![255u8];
    assert_eq!(to_one_hot(&labels).map(|_| ()), Err(DecodeError::LabelOutOfRange));
}

#[test]
fn select_keeps_wanted_rows_in_order() {
    let buf = marked_images(&[10, 20, 30, 40]);
    let images = decode_images(&buf).unwrap();
    let labels = vec![1u8, 2, 1, 3];
    let wanted = vec![1u8, 3];
    let (kept_images, kept_labels) = select_by_labels(&images, &labels, &wanted);
    assert_eq!(kept_labels, vec![1, 1, 3]);
    assert_eq!(kept_images.nb_rows(), 3);
    assert_eq!(kept_images.nb_cols(), 784);
    assert_eq!(kept_images.get(0, 0), 10);
    assert_eq!(kept_images.get(1, 0), 30);
    assert_eq!(kept_images.get(2, 0), 40);
}

#[test]
fn select_with_empty_wanted_set_keeps_nothing() {
    let buf = marked_images(&[10, 20]);
    let images = decode_images(&buf).unwrap();
    let labels = vec![1u8, 2];
    let wanted: Vec<u8> = Vec::new();
    let (kept_images, kept_labels) = select_by_labels(&images, &labels, &wanted);
    assert_eq!(kept_labels.len(), 0);
    assert_eq!(kept_images.nb_rows(), 0);
}

#[test]
fn filtering_nines_keeps_positions_zero_and_two() {
    let buf = label_file(0x0000_0801, 3, &[9, 0, 9]);
    let labels = decode_labels(&buf).unwrap();
    let images_buf = marked_images(&[100, 101, 102]);
    let images = decode_images(&images_buf).unwrap();
    let (kept_images, kept_labels) = select_by_labels(&images, &labels, &vec![9u8]);
    assert_eq!(kept_labels, vec![9, 9]);
    assert_eq!(kept_images.nb_rows(), 2);
    assert_eq!(kept_images.get(0, 0), 100);
    assert_eq!(kept_images.get(1, 0), 102);
}

#[test]
fn glyphs_mark_pixels_at_or_above_the_threshold() {
    let mut pixels = vec![0u8; 784];
    pixels[0] = 114;
    pixels[1] = 115;
    pixels[2] = 255;
    let buf = image_file(0x0000_0803, 1, 28, 28, &pixels);
    let images = decode_images_normalized(&buf).unwrap();
    // 115 is the least numerator whose value 115/255 reaches 0.45.
    let glyphs = row_glyphs(&images, 0, 115);
    assert_eq!(glyphs.len(), 784);
    assert_eq!(glyphs[0], ' ');
    assert_eq!(glyphs[1], '#');
    assert_eq!(glyphs[2], '#');
    assert_eq!(glyphs[3], ' ');
}
