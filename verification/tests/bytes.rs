use win_can_utils::bytes::{append_from, copy_range, find_first, push_le32, push_zeros, read_le32, trim_ascii};

#[test]
fn little_endian_words() {
    assert_eq!(read_le32(&[0x78, 0x56, 0x34, 0x12], 0), 0x1234_5678);
    assert_eq!(read_le32(&[0, 0xFF, 0xFF, 0xFF, 0xFF], 1), 0xFFFF_FFFF);
    let mut out = vec![9u8];
    push_le32(&mut out, 0xA1B2_C3D4);
    assert_eq!(out, vec![9, 0xD4, 0xC3, 0xB2, 0xA1]);
    for x in [0u32, 1, 0xFF, 0x100, 0xFFFF, 0x1_0000, 0xBEEF, 0x8000_0000, u32::MAX] {
        let mut v = Vec::new();
        push_le32(&mut v, x);
        assert_eq!(v, x.to_le_bytes().to_vec());
        assert_eq!(read_le32(&v, 0), x);
    }
}

#[test]
fn byte_ranges() {
    assert_eq!(copy_range(&[1, 2, 3, 4, 5], 1, 4), vec![2, 3, 4]);
    assert_eq!(copy_range(&[1, 2, 3], 3, 3), Vec::<u8>::new());
    let mut out = vec![7u8];
    append_from(&mut out, &[1, 2, 3], 1);
    assert_eq!(out, vec![7, 2, 3]);
    push_zeros(&mut out, 2);
    assert_eq!(out, vec![7, 2, 3, 0, 0]);
    push_zeros(&mut out, 0);
    assert_eq!(out.len(), 5);
}

#[test]
fn first_occurrence() {
    assert_eq!(find_first(b"the quick brown fox", b'k'), Some(8));
    assert_eq!(find_first(b"a\rb\r", b'\r'), Some(1));
    assert_eq!(find_first(b"\r", b'\r'), Some(0));
    assert_eq!(find_first(b"abc", b'\r'), None);
    assert_eq!(find_first(b"", b'x'), None);
}

#[test]
fn trimming() {
    assert_eq!(trim_ascii(b"  hello world \r\n"), b"hello world".to_vec());
    assert_eq!(trim_ascii(b"x"), b"x".to_vec());
    assert_eq!(trim_ascii(b" \t\n\x0b\x0c\r"), Vec::<u8>::new());
    assert_eq!(trim_ascii(b""), Vec::<u8>::new());
    assert_eq!(trim_ascii(b"\x00 a \x00"), b"\x00 a \x00".to_vec());
}
