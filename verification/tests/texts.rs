use static_serve::text::{
    is_text, is_text_nocase, push_bytes, push_decimal, push_four_digits, push_hex, push_text,
    push_two_digits, same_bytes, same_bytes_nocase, text_bytes,
};

fn decimal(n: u64) -> Vec<u8> {
    let mut out = Vec::new();
    push_decimal(&mut out, n);
    out
}

fn hex(n: u64) -> Vec<u8> {
    let mut out = Vec::new();
    push_hex(&mut out, n);
    out
}

#[test]
fn decimal_numerals() {
    assert_eq!(decimal(0), b"0".to_vec());
    assert_eq!(decimal(9), b"9".to_vec());
    assert_eq!(decimal(10), b"10".to_vec());
    assert_eq!(decimal(1234567890), b"1234567890".to_vec());
    assert_eq!(decimal(u64::MAX), b"18446744073709551615".to_vec());
}

#[test]
fn hexadecimal_numerals() {
    assert_eq!(hex(0), b"0".to_vec());
    assert_eq!(hex(15), b"f".to_vec());
    assert_eq!(hex(16), b"10".to_vec());
    assert_eq!(hex(123456789), b"75bcd15".to_vec());
    assert_eq!(hex(u64::MAX), b"ffffffffffffffff".to_vec());
}

#[test]
fn fixed_width_numerals() {
    let mut out = b"x".to_vec();
    push_two_digits(&mut out, 7);
    push_two_digits(&mut out, 42);
    push_four_digits(&mut out, 1994);
    push_four_digits(&mut out, 5);
    assert_eq!(out, b"x074219940005".to_vec());
}

#[test]
fn pushes_append() {
    let mut out = b"ab".to_vec();
    push_bytes(&mut out, b"cd");
    push_text(&mut out, "ef");
    push_decimal(&mut out, 12);
    push_hex(&mut out, 255);
    assert_eq!(out, b"abcdef12ff".to_vec());
    assert_eq!(text_bytes("GET"), b"GET".to_vec());
}

#[test]
fn comparisons() {
    assert!(same_bytes(b"abc", b"abc"));
    assert!(!same_bytes(b"abc", b"abd"));
    assert!(!same_bytes(b"abc", b"ab"));
    assert!(!same_bytes(b"abc", b"ABC"));
    assert!(same_bytes_nocase(b"abc", b"ABC"));
    assert!(same_bytes_nocase(b"Content-Type", b"content-type"));
    assert!(!same_bytes_nocase(b"abc", b"abd"));
    assert!(!same_bytes_nocase(b"[", b"{"));
    assert!(is_text(b"GET", "GET"));
    assert!(!is_text(b"get", "GET"));
    assert!(is_text_nocase(b"get", "GET"));
    assert!(!is_text_nocase(b"gets", "GET"));
}
