use mnist::decode::{decode_images, decode_images_normalized, decode_labels};
use mnist::transform::normalize;
use mnist::DecodeError;

fn be32_bytes(v: u32) -> [u8; 4] {
    [(v >> 24) as u8, (v >> 16) as u8, (v >> 8) as u8, v as u8]
}

fn image_file(magic: u32, nb_images: u32, nb_rows: u32, nb_columns: u32, pixels: &[u8]) -> Vec<u8> {
    let mut buf = Vec::new();
    buf.extend_from_slice(&be32_bytes(magic));
    buf.extend_from_slice(&be32_bytes(nb_images));
    buf.extend_from_slice(&be32_bytes(nb_rows));
    buf.extend_from_slice(&be32_bytes(nb_columns));
    buf.extend_from_slice(pixels);
    buf
}

fn label_file(magic: u32, nb_labels: u32, labels: &[u8]) -> Vec<u8> {
    let mut buf = Vec::new();
    buf.extend_from_slice(&be32_bytes(magic));
    buf.extend_from_slice(&be32_bytes(nb_labels));
    buf.extend_from_slice(labels);
    buf
}

#[test]
fn decodes_well_formed_image_file() {
    let mut pixels = Vec::new();
    for i in 0..2 * 784 {
        pixels.push((i % 251) as u8);
    }
    let buf = image_file(0x0000_0803, 2, 28, 28, &pixels);
    let m = decode_images(&buf).unwrap();
    assert_eq!(m.nb_rows(), 2);
    assert_eq!(m.nb_cols(), 784);
    for i in 0..2 {
        for j in 0..784 {
            assert_eq!(m.get(i, j), ((i * 784 + j) % 251) as u8);
        }
    }
}

#[test]
fn normalized_decode_matches_post_normalization() {
    let mut pixels = Vec::new();
    for i in 0..784 {
        pixels.push((255 - i % 256) as u8);
    }
    let buf = image_file(0x0000_0803, 1, 28, 28, &pixels);
    let raw = decode_images(&buf).unwrap();
    let via_normalize = normalize(&raw);
    let direct = decode_images_normalized(&buf).unwrap();
    assert_eq!(direct.nb_rows(), via_normalize.nb_rows());
    assert_eq!(direct.nb_cols(), via_normalize.nb_cols());
    for j in 0..784 {
        assert_eq!(direct.get_numerator(0, j), via_normalize.get_numerator(0, j));
        assert_eq!(direct.get_numerator(0, j), raw.get(0, j));
    }
}

#[test]
fn label_count_matches_header() {
    let buf = label_file(0x0000_0801, 5, &[0, 1, 2, 3, 4]);
    let labels = decode_labels(&buf).unwrap();
    assert_eq!(labels.len(), 5);
    assert_eq!(labels, vec![0, 1, 2, 3, 4]);
}

#[test]
fn label_values_pass_through_uninterpreted() {
    let buf = label_file(0x0000_0801, 3, &[200, 0, 9]);
    let labels = decode_labels(&buf).unwrap();
    assert_eq!(labels, vec![200, 0, 9]);
}

#[test]
fn truncated_pixel_payload_is_rejected() {
    let pixels = vec![0u8; 784];
    let buf = image_file(0x0000_0803, 2, 28, 28, &pixels);
    assert_eq!(decode_images(&buf).err(), Some(DecodeError::TruncatedInput));
}

#[test]
fn truncated_image_header_is_rejected() {
    let buf = vec![0u8; 10];
    assert_eq!(decode_images(&buf).err(), Some(DecodeError::TruncatedInput));
    let empty: Vec<u8> = Vec::new();
    assert_eq!(decode_images(&empty).err(), Some(DecodeError::TruncatedInput));
}

#[test]
fn truncated_input_for_normalized_decode_is_rejected() {
    let pixels = vec![7u8; 100];
    let buf = image_file(0x0000_0803, 1, 28, 28, &pixels);
    assert_eq!(
        decode_images_normalized(&buf).map(|_| ()),
        Err(DecodeError::TruncatedInput)
    );
}

#[test]
fn truncated_label_payload_is_rejected() {
    let buf = label_file(0x0000_0801, 3, &[1, 2]);
    assert_eq!(decode_labels(&buf), Err(DecodeError::TruncatedInput));
}

#[test]
fn truncated_label_header_is_rejected() {
    let buf = vec![0u8; 7];
    assert_eq!(decode_labels(&buf), Err(DecodeError::TruncatedInput));
}

#[test]
fn twenty_rows_are_rejected() {
    let pixels = vec![0u8; 2 * 20 * 20];
    let buf = image_file(0x0000_0803, 2, 20, 20, &pixels);
    assert_eq!(decode_images(&buf).err(), Some(DecodeError::UnsupportedDimensions));
}

#[test]
fn twenty_columns_are_rejected() {
    let pixels = vec![0u8; 28 * 20];
    let buf = image_file(0x0000_0803, 1, 28, 20, &pixels);
    assert_eq!(decode_images(&buf).err(), Some(DecodeError::UnsupportedDimensions));
}

#[test]
fn image_file_with_zero_images_decodes_to_empty_matrix() {
    let buf = image_file(0x0000_0803, 0, 28, 28, &[]);
    let m = decode_images(&buf).unwrap();
    assert_eq!(m.nb_rows(), 0);
    assert_eq!(m.nb_cols(), 784);
}

#[test]
fn label_file_with_zero_labels_decodes_to_empty_sequence() {
    let buf = label_file(0x0000_0801, 0, &[]);
    let labels = decode_labels(&buf).unwrap();
    assert_eq!(labels.len(), 0);
}

#[test]
fn all_zero_file_decodes_to_all_zero_matrix() {
    let pixels = vec![0u8; 2 * 784];
    let buf = image_file(0x0000_0803, 2, 28, 28, &pixels);
    let m = decode_images(&buf).unwrap();
    assert_eq!(m.nb_rows(), 2);
    assert_eq!(m.nb_cols(), 784);
    for i in 0..2 {
        for j in 0..784 {
            assert_eq!(m.get(i, j), 0);
        }
    }
    let n = normalize(&m);
    for i in 0..2 {
        for j in 0..784 {
            assert_eq!(n.get_numerator(i, j), 0);
            assert_eq!(n.get_numerator(i, j) as f32 / 255.0, 0.0);
        }
    }
}
