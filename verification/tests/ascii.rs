use http_core::ascii::{
    append, bytes_of, parse_unsigned, position_of, push_decimal, same_bytes,
    same_bytes_ignoring_case, to_lower, to_lower_byte,
};

fn rendered(n: usize) -> Vec<u8> {
    let mut out = Vec::new();
    push_decimal(&mut out, n);
    out
}

#[test]
fn lower_case_folds_ascii_capitals_only() {
    assert_eq!(to_lower(b"Content-LENGTH"), b"content-length".to_vec());
    assert_eq!(to_lower(b"@AZ[`az{"), b"@az[`az{".to_vec());
    assert_eq!(to_lower(&[0xC3, 0x89]), vec![0xC3, 0x89]);
    assert_eq!(to_lower(b""), Vec::<u8>::new());
    assert_eq!(to_lower_byte(b'A'), b'a');
    assert_eq!(to_lower_byte(b'Z'), b'z');
    assert_eq!(to_lower_byte(b'a'), b'a');
    assert_eq!(to_lower_byte(b'0'), b'0');
}

#[test]
fn byte_comparisons() {
    assert!(same_bytes(b"abc", b"abc"));
    assert!(!same_bytes(b"abc", b"abd"));
    assert!(!same_bytes(b"abc", b"ab"));
    assert!(same_bytes(b"", b""));
    assert!(same_bytes_ignoring_case(b"Host", b"hOST"));
    assert!(!same_bytes_ignoring_case(b"Host", b"Hos"));
    assert!(!same_bytes_ignoring_case(b"Host", b"Hosu"));
}

#[test]
fn position_of_finds_the_first_occurrence() {
    assert_eq!(position_of(b"a b c", b' ', 0), 1);
    assert_eq!(position_of(b"a b c", b' ', 1), 1);
    assert_eq!(position_of(b"a b c", b' ', 2), 3);
    assert_eq!(position_of(b"a b c", b' ', 4), 5);
    assert_eq!(position_of(b"a b c", b'x', 0), 5);
    assert_eq!(position_of(b"", b'x', 0), 0);
}

#[test]
fn decimal_rendering() {
    assert_eq!(rendered(0), b"0".to_vec());
    assert_eq!(rendered(7), b"7".to_vec());
    assert_eq!(rendered(10), b"10".to_vec());
    assert_eq!(rendered(405), b"405".to_vec());
    assert_eq!(rendered(1_000_000), b"1000000".to_vec());
    assert_eq!(rendered(usize::MAX), usize::MAX.to_string().into_bytes());
}

#[test]
fn push_decimal_appends() {
    let mut out = b"n=".to_vec();
    push_decimal(&mut out, 42);
    assert_eq!(out, b"n=42".to_vec());
}

#[test]
fn unsigned_numbers_are_read() {
    assert_eq!(parse_unsigned(b"0"), Some(0));
    assert_eq!(parse_unsigned(b"5"), Some(5));
    assert_eq!(parse_unsigned(b"007"), Some(7));
    assert_eq!(parse_unsigned(b"+5"), Some(5));
    assert_eq!(parse_unsigned(b"1234567890"), Some(1_234_567_890));
    assert_eq!(
        parse_unsigned(usize::MAX.to_string().as_bytes()),
        Some(usize::MAX)
    );
}

#[test]
fn what_is_no_number_is_refused() {
    assert_eq!(parse_unsigned(b""), None);
    assert_eq!(parse_unsigned(b"+"), None);
    assert_eq!(parse_unsigned(b"++5"), None);
    assert_eq!(parse_unsigned(b"-1"), None);
    assert_eq!(parse_unsigned(b"5a"), None);
    assert_eq!(parse_unsigned(b"a5"), None);
    assert_eq!(parse_unsigned(b" 5"), None);
    assert_eq!(parse_unsigned(b"5 "), None);
    assert_eq!(parse_unsigned(b"5+"), None);
    assert_eq!(parse_unsigned(b"1.5"), None);
}

#[test]
fn numbers_beyond_usize_are_refused() {
    let mut beyond = usize::MAX.to_string().into_bytes();
    let last = beyond.len() - 1;
    // usize::MAX ends in 5 on 32 and 64 bit machines alike.
    assert_eq!(beyond[last], b'5');
    beyond[last] = b'6';
    assert_eq!(parse_unsigned(&beyond), None);
    let mut longer = usize::MAX.to_string().into_bytes();
    longer.push(b'0');
    assert_eq!(parse_unsigned(&longer), None);
    assert_eq!(parse_unsigned(b"99999999999999999999999999999999"), None);
}

#[test]
fn rendering_and_reading_agree() {
    for n in [0usize, 1, 9, 10, 11, 99, 100, 12345, usize::MAX - 1, usize::MAX] {
        assert_eq!(parse_unsigned(&rendered(n)), Some(n));
    }
}

#[test]
fn append_and_bytes_of() {
    let mut out = b"ab".to_vec();
    append(&mut out, b"cd");
    append(&mut out, b"");
    assert_eq!(out, b"abcd".to_vec());
    assert_eq!(bytes_of("h\u{e9}"), vec![b'h', 0xC3, 0xA9]);
}
