use std::fmt::Write;
use tifflin::string::{FixedString, String};

#[test]
fn string_new_is_empty() {
    let s = String::new();
    assert_eq!(&*s, "");
    let s = String::with_capacity(16);
    assert_eq!(&*s, "");
}

#[test]
fn string_from_str_and_push() {
    let mut s = String::from_str("héllo");
    assert_eq!(&*s, "héllo");
    assert_eq!(s.len(), 6);
    s.push_str(", wörld ✓");
    assert_eq!(&*s, "héllo, wörld ✓");
    assert_eq!(s.as_bytes(), "héllo, wörld ✓".as_bytes());
}

#[test]
fn string_from_and_default_and_clone() {
    let s: String = String::from("abc");
    let t = s.clone();
    assert_eq!(&*t, "abc");
    let d: String = Default::default();
    assert_eq!(&*d, "");
}

#[test]
fn string_write_str() {
    let mut s = String::new();
    s.write_str("x = ").unwrap();
    s.write_str("42").unwrap();
    assert_eq!(&*s, "x = 42");
}

#[test]
fn fixed_string_push_str() {
    let mut f = FixedString::new([0u8; 16]);
    assert_eq!(f.len(), 0);
    assert_eq!(&*f, "");
    f.push_str("ab");
    f.push_str("é€");
    assert_eq!(&*f, "abé€");
    assert_eq!(f.len(), 7);
    f.extend(&['𝄞']);
    assert_eq!(&*f, "abé€𝄞");
    assert_eq!(f.len(), 11);
}

#[test]
fn fixed_string_fills_exactly() {
    let mut f = FixedString::new([0u8; 4]);
    f.push_str("€");
    f.push_str("z");
    assert_eq!(&*f, "€z");
    assert_eq!(f.len(), 4);
}

#[test]
fn fixed_string_utf8_widths() {
    let mut f = FixedString::new([0u8; 10]);
    f.extend(&['A', 'ß', '中', '😀']);
    assert_eq!(f.as_bytes(), "Aß中😀".as_bytes());
}
