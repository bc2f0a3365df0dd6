use img2ico::error::IcoError;
use img2ico::img2ico;
use img2ico::compose::center_offset;

fn sample_png(width: u32, height: u32) -> Vec<u8> {
    let grid = image::RgbaImage::from_pixel(width, height, image::Rgba([10, 200, 30, 255]));
    let img = image::DynamicImage::ImageRgba8(grid);
    let mut cursor = std::io::Cursor::new(Vec::new());
    img.write_to(&mut cursor, image::ImageFormat::Png).unwrap();
    cursor.into_inner()
}

fn le32(bytes: &[u8]) -> u32 {
    u32::from_le_bytes([bytes[0], bytes[1], bytes[2], bytes[3]])
}

#[test]
fn round_trip_renditions_decode_at_their_recorded_slices() {
    let src = sample_png(64, 64);
    let out = img2ico(&src, &[16, 32, 256]).unwrap();
    // header: reserved 0, type 1, count 3
    assert_eq!(&out[0..4], &[0, 0, 1, 0]);
    assert_eq!(u16::from_le_bytes([out[4], out[5]]), 3);
    let expected_size_bytes = [16u8, 32, 0];
    let expected_dims = [16u32, 32, 256];
    let mut payload_total = 0usize;
    let mut expected_offset = 6 + 16 * 3;
    for i in 0..3 {
        let rec = &out[6 + 16 * i..6 + 16 * i + 16];
        assert_eq!(rec[0], expected_size_bytes[i]);
        assert_eq!(rec[1], expected_size_bytes[i]);
        assert_eq!(&rec[2..8], &[0, 0, 0, 0, 0, 0]);
        let len = le32(&rec[8..12]) as usize;
        let off = le32(&rec[12..16]) as usize;
        assert_eq!(off, expected_offset);
        let slice = &out[off..off + len];
        let rendition = image::load_from_memory(slice).unwrap();
        assert_eq!(rendition.width(), expected_dims[i]);
        assert_eq!(rendition.height(), expected_dims[i]);
        payload_total += len;
        expected_offset += len;
    }
    assert_eq!(out.len(), 6 + 16 * 3 + payload_total);
}

#[test]
fn wide_source_is_centered_with_transparent_bands() {
    let src = sample_png(64, 32);
    let out = img2ico(&src, &[32]).unwrap();
    let len = le32(&out[6 + 8..6 + 12]) as usize;
    let off = le32(&out[6 + 12..6 + 16]) as usize;
    let rendition = image::load_from_memory(&out[off..off + len]).unwrap().to_rgba8();
    assert_eq!((rendition.width(), rendition.height()), (32, 32));
    // the scaled image is 32x16, so rows 8..24 are covered and the
    // bands above and below stay fully transparent
    assert_eq!(rendition.get_pixel(16, 0)[3], 0);
    assert_eq!(rendition.get_pixel(16, 31)[3], 0);
    assert_eq!(rendition.get_pixel(16, 16)[3], 255);
    assert_eq!(rendition.get_pixel(0, 8)[3], 255);
}

#[test]
fn empty_size_list_gives_bare_header() {
    let src = sample_png(8, 8);
    let out = img2ico(&src, &[]).unwrap();
    assert_eq!(out, vec![0u8, 0, 1, 0, 0, 0]);
}

#[test]
fn non_image_bytes_give_decode_error() {
    let r = img2ico(b"definitely not an image", &[16]);
    assert!(matches!(r, Err(IcoError::DecodeError { .. })));
}

#[test]
fn size_zero_gives_invalid_size() {
    let src = sample_png(8, 8);
    let r = img2ico(&src, &[16, 0]);
    assert!(matches!(r, Err(IcoError::InvalidSize { size: 0 })));
}

#[test]
fn too_many_sizes_give_too_many_entries() {
    let src = sample_png(8, 8);
    let sizes = vec![16u32; 65536];
    let r = img2ico(&src, &sizes);
    assert!(matches!(r, Err(IcoError::TooManyEntries { count: 65536 })));
}

#[test]
fn centering_offsets_are_floored_halves() {
    assert_eq!(center_offset(32, 32), 0);
    assert_eq!(center_offset(10, 4), 3);
    assert_eq!(center_offset(10, 9), 0);
    assert_eq!(center_offset(255, 1), 127);
}

#[test]
fn duplicate_sizes_give_duplicate_entries() {
    let src = sample_png(16, 16);
    let out = img2ico(&src, &[24, 24]).unwrap();
    assert_eq!(u16::from_le_bytes([out[4], out[5]]), 2);
    let rec0 = &out[6..22];
    let rec1 = &out[22..38];
    assert_eq!(rec0[0], 24);
    assert_eq!(rec1[0], 24);
    let len0 = le32(&rec0[8..12]);
    let off0 = le32(&rec0[12..16]);
    let off1 = le32(&rec1[12..16]);
    assert_eq!(off1, off0 + len0);
}
