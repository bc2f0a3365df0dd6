use img2ico::error::IcoError;
use img2ico::layout::assemble;
use img2ico::layout::size_byte_of;

#[test]
fn empty_list_gives_bare_header() {
    let out = assemble(&[], &Vec::new()).unwrap();
    assert_eq!(out, vec![0u8, 0, 1, 0, 0, 0]);
}

#[test]
fn three_records_in_order_with_exact_bytes() {
    let sizes = [16u32, 32, 256];
    let payloads = vec![vec![1u8, 2, 3], vec![4u8], Vec::new()];
    let out = assemble(&sizes, &payloads).unwrap();
    let expected: Vec<u8> = vec![
        // header: reserved 0, type 1, count 3
        0, 0, 1, 0, 3, 0,
        // record 0: 16x16, payload of 3 bytes at offset 54
        16, 16, 0, 0, 0, 0, 0, 0, 3, 0, 0, 0, 54, 0, 0, 0,
        // record 1: 32x32, payload of 1 byte at offset 57
        32, 32, 0, 0, 0, 0, 0, 0, 1, 0, 0, 0, 57, 0, 0, 0,
        // record 2: 256 stored as the 0 sentinel, empty payload at offset 58
        0, 0, 0, 0, 0, 0, 0, 0, 0, 0, 0, 0, 58, 0, 0, 0,
        // payloads back to back
        1, 2, 3, 4,
    ];
    assert_eq!(out, expected);
    assert_eq!(out.len(), 6 + 16 * 3 + 4);
}

#[test]
fn size_bytes_clamp_at_256() {
    assert_eq!(size_byte_of(1), 1);
    assert_eq!(size_byte_of(255), 255);
    assert_eq!(size_byte_of(256), 0);
    assert_eq!(size_byte_of(300), 0);
    assert_eq!(size_byte_of(1000), 0);
}

#[test]
fn record_fields_follow_payload_lengths() {
    let sizes = [8u32, 8];
    let payloads = vec![vec![9u8; 10], vec![7u8; 5]];
    let out = assemble(&sizes, &payloads).unwrap();
    let dir = 6 + 16 * 2;
    // record 0: length 10, offset = directory end
    assert_eq!(&out[6 + 8..6 + 12], &[10, 0, 0, 0]);
    assert_eq!(&out[6 + 12..6 + 16], &[dir as u8, 0, 0, 0]);
    // record 1: length 5, offset = directory end + 10
    assert_eq!(&out[22 + 8..22 + 12], &[5, 0, 0, 0]);
    assert_eq!(&out[22 + 12..22 + 16], &[(dir + 10) as u8, 0, 0, 0]);
    // the recorded slices are the payloads
    assert_eq!(&out[dir..dir + 10], &payloads[0][..]);
    assert_eq!(&out[dir + 10..dir + 15], &payloads[1][..]);
    assert_eq!(out.len(), dir + 15);
}

#[test]
fn too_many_entries_is_rejected() {
    let sizes = vec![1u32; 65536];
    let payloads = vec![Vec::new(); 65536];
    let r = assemble(&sizes, &payloads);
    assert!(matches!(r, Err(IcoError::TooManyEntries { count: 65536 })));
}

#[test]
fn largest_entry_count_is_accepted() {
    let sizes = vec![1u32; 65535];
    let payloads = vec![Vec::new(); 65535];
    let out = assemble(&sizes, &payloads).unwrap();
    assert_eq!(out.len(), 6 + 16 * 65535);
    assert_eq!(&out[4..6], &[0xFF, 0xFF]);
}
