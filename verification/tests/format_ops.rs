use nn_core::emnist::{
    label_to_vec, pixels_to_units, transpose, Bitmap, Dib, ImageFileHeader, LabelFileHeader,
    vec_to_label,
};
use nn_core::FX_SCALE;

#[test]
fn test_parse_label_header() {
    // Magic 2049, sixty thousand labels.
    let bytes: [u8; 8] = [0, 0, 8, 1, 0, 0, 0xEA, 0x60];
    let header = LabelFileHeader::parse_header(&bytes);
    assert_eq!(header.magic_number, 2049);
    assert_eq!(header.num_labels, 60000);
}

#[test]
fn test_parse_image_header() {
    // Magic 2051, sixty thousand images of 28 x 28 pixels.
    let bytes: [u8; 16] = [0, 0, 8, 3, 0, 0, 0xEA, 0x60, 0, 0, 0, 28, 0, 0, 0, 28];
    let header = ImageFileHeader::parse_header(&bytes);
    assert_eq!(header.magic_number, 2051);
    assert_eq!(header.num_images, 60000);
    assert_eq!(header.rows, 28);
    assert_eq!(header.cols, 28);
}

#[test]
fn test_transpose_image() {
    let mut image: Vec<u8> = vec![0; 784];
    // Mark a few pixels by their (column-major) source position.
    image[0] = 11; // col 0, row 0
    image[28] = 22; // col 1, row 0
    image[1] = 33; // col 0, row 1
    image[783] = 44; // col 27, row 27
    let mut out: Vec<u8> = vec![0; 784];
    transpose(&image, &mut out);
    // Pixel (row, col) lands at bitmap row 27 - row.
    assert_eq!(out[27 * 28 + 0], 11);
    assert_eq!(out[27 * 28 + 1], 22);
    assert_eq!(out[26 * 28 + 0], 33);
    assert_eq!(out[0 * 28 + 27], 44);
}

#[test]
fn test_dib_bytes() {
    let dib = Dib::new(28, 28, 8, 0);
    let bytes = dib.to_vec();
    assert_eq!(bytes.len(), 40);
    assert_eq!(&bytes[0..4], &[40, 0, 0, 0]);
    assert_eq!(&bytes[4..8], &[28, 0, 0, 0]);
    assert_eq!(&bytes[8..12], &[28, 0, 0, 0]);
    assert_eq!(&bytes[12..14], &[1, 0]);
    assert_eq!(&bytes[14..16], &[8, 0]);
    assert_eq!(&bytes[32..36], &[0, 1, 0, 0]); // 256 colors used
}

#[test]
fn test_bitmap_header_bytes() {
    let bitmap = Bitmap::new(784);
    assert_eq!(bitmap.size(), 838);
    let bytes = bitmap.to_vec();
    assert_eq!(bytes.len(), 14);
    assert_eq!(&bytes[0..2], &[0x42, 0x4D]);
    // 838 = 0x346 little-endian.
    assert_eq!(&bytes[2..6], &[0x46, 0x03, 0, 0]);
    assert_eq!(&bytes[6..10], &[0, 0, 0, 0]);
    // 1078 = 0x436 little-endian.
    assert_eq!(&bytes[10..14], &[0x36, 0x04, 0, 0]);
}

#[test]
fn test_create_bitmap() {
    let mut image: Vec<u8> = vec![0; 784];
    image[0] = 200;
    image[783] = 100;
    let file = Bitmap::create_bitmap(&image);
    assert_eq!(file.len(), 1862);
    // File header signature.
    assert_eq!(file[0], 0x42);
    assert_eq!(file[1], 0x4D);
    // Information header starts with its own size, forty.
    assert_eq!(file[14], 40);
    // Gray palette: entry i is (i, i, i, 0).
    assert_eq!(&file[54..58], &[0, 0, 0, 0]);
    assert_eq!(&file[58..62], &[1, 1, 1, 0]);
    assert_eq!(&file[54 + 4 * 255..54 + 4 * 255 + 4], &[255, 255, 255, 0]);
    // Pixels follow at offset 1078.
    assert_eq!(file[1078], 200);
    assert_eq!(file[1078 + 783], 100);
}

#[test]
fn test_label_to_vec() {
    let v = label_to_vec(3);
    assert_eq!(v.len(), 10);
    for k in 0..10 {
        if k == 3 {
            assert_eq!(v[k], FX_SCALE);
        } else {
            assert_eq!(v[k], 0);
        }
    }
}

#[test]
fn test_vec_to_label() {
    let v: Vec<i64> = vec![100, 900, 300];
    assert_eq!(vec_to_label(&v), 1);
    // Ties resolve to the first maximal element.
    let tie: Vec<i64> = vec![5, 9, 9, 2];
    assert_eq!(vec_to_label(&tie), 1);
    let single: Vec<i64> = vec![-7];
    assert_eq!(vec_to_label(&single), 0);
}

#[test]
fn test_pixels_to_units() {
    let v = pixels_to_units(&vec![0, 255, 128]);
    assert_eq!(v[0], 0);
    assert_eq!(v[1], FX_SCALE);
    // 128 * 1e9 / 255, truncated.
    assert_eq!(v[2], 501_960_784);
}
