use cree::text::{
    decimal_bytes, find_blank, find_byte, find_space, lower_bytes, parse_number_bytes, split_bytes,
    trim_bytes, without_byte,
};
use cree::utils::{bytes_equal, copy_range, join_bytes, push_be16, push_be24, push_be64, read_u16, read_u24};

#[test]
fn join_bytes_reads_big_endian() {
    assert_eq!(join_bytes(&[0x01, 0x02]).unwrap(), 258);
    assert_eq!(join_bytes(&[0x00, 0x00, 0x2f]).unwrap(), 47);
    assert_eq!(join_bytes(&[0x12, 0x34, 0x56, 0x78]).unwrap(), 0x12345678);
}

#[test]
fn join_bytes_of_nothing_is_zero() {
    assert_eq!(join_bytes(&[]).unwrap(), 0);
}

#[test]
fn join_bytes_takes_eight_bytes() {
    assert_eq!(join_bytes(&[0xff; 8]).unwrap(), u64::MAX);
    assert_eq!(join_bytes(&[1, 0, 0, 0, 0, 0, 0, 0]).unwrap(), 1u64 << 56);
}

#[test]
fn join_bytes_refuses_nine_bytes() {
    let err = join_bytes(&[0; 9]).unwrap_err();
    assert_eq!(err.code, 5004);
}

#[test]
fn big_endian_writers_and_readers_agree() {
    let mut out = Vec::new();
    push_be16(&mut out, 0x1234);
    push_be24(&mut out, 0x0a0b0c);
    push_be64(&mut out, 0x0102030405060708);
    assert_eq!(out, vec![0x12, 0x34, 0x0a, 0x0b, 0x0c, 1, 2, 3, 4, 5, 6, 7, 8]);
    assert_eq!(read_u16(&out, 0), 0x1234);
    assert_eq!(read_u24(&out, 2), 0x0a0b0c);
    assert_eq!(copy_range(&out, 2, 5), vec![0x0a, 0x0b, 0x0c]);
}

#[test]
fn bytes_equal_compares_content() {
    assert!(bytes_equal(b"abc", b"abc"));
    assert!(!bytes_equal(b"abc", b"abd"));
    assert!(!bytes_equal(b"abc", b"ab"));
    assert!(bytes_equal(b"", b""));
}

#[test]
fn split_keeps_empty_pieces() {
    assert_eq!(split_bytes(b"a,b", b','), vec![b"a".to_vec(), b"b".to_vec()]);
    assert_eq!(split_bytes(b"", b','), vec![Vec::<u8>::new()]);
    assert_eq!(split_bytes(b"a,", b','), vec![b"a".to_vec(), Vec::new()]);
    assert_eq!(
        split_bytes(b"/users/john", b'/'),
        vec![Vec::new(), b"users".to_vec(), b"john".to_vec()]
    );
}

#[test]
fn trim_drops_white_space_at_both_ends() {
    assert_eq!(trim_bytes(b"  a b \r\n"), b"a b".to_vec());
    assert_eq!(trim_bytes(b" \t "), Vec::<u8>::new());
    assert_eq!(trim_bytes(b"x"), b"x".to_vec());
}

#[test]
fn without_byte_drops_every_occurrence() {
    assert_eq!(without_byte(b"a\r\nb\r\n", b'\r'), b"a\nb\n".to_vec());
}

#[test]
fn lower_folds_ascii_letters_only() {
    assert_eq!(lower_bytes(b"Content-TYPE: 1"), b"content-type: 1".to_vec());
    assert_eq!(lower_bytes(&[0xc3, 0x84]), vec![0xc3, 0x84]);
}

#[test]
fn decimal_has_no_leading_zeros() {
    assert_eq!(decimal_bytes(0), b"0".to_vec());
    assert_eq!(decimal_bytes(5), b"5".to_vec());
    assert_eq!(decimal_bytes(1234567), b"1234567".to_vec());
    assert_eq!(decimal_bytes(usize::MAX), usize::MAX.to_string().into_bytes());
}

#[test]
fn parse_number_takes_digits_only() {
    assert_eq!(parse_number_bytes(b"0"), Some(0));
    assert_eq!(parse_number_bytes(b"0123"), Some(123));
    assert_eq!(parse_number_bytes(b""), None);
    assert_eq!(parse_number_bytes(b"12a"), None);
    assert_eq!(parse_number_bytes(b"-1"), None);
    assert_eq!(parse_number_bytes(b" 1"), None);
}

#[test]
fn parse_number_refuses_what_does_not_fit() {
    let max = usize::MAX.to_string();
    assert_eq!(parse_number_bytes(max.as_bytes()), Some(usize::MAX));
    let mut more = max.into_bytes();
    more.push(b'0');
    assert_eq!(parse_number_bytes(&more), None);
    assert_eq!(parse_number_bytes(b"99999999999999999999999999"), None);
}

#[test]
fn decimal_and_parse_number_are_inverse() {
    for n in [0usize, 9, 10, 99, 100, 4096, 1048576] {
        assert_eq!(parse_number_bytes(&decimal_bytes(n)), Some(n));
    }
}

#[test]
fn finders_give_the_first_position_or_the_length() {
    assert_eq!(find_byte(b"a:b:c", b':'), 1);
    assert_eq!(find_byte(b"abc", b':'), 3);
    assert_eq!(find_space(b"GET /"), 3);
    assert_eq!(find_space(b"GET"), 3);
    assert_eq!(find_blank(b"a\nb\n\nc"), 3);
    assert_eq!(find_blank(b"a\nb\n"), 4);
    assert_eq!(find_blank(b"\n\n"), 0);
}
