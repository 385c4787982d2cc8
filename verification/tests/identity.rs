use cliphistory::Clip;
use md5::{Digest, Md5};

#[test]
fn identity_is_md5_hex_of_value() {
    let c = Clip::new("abc".to_string(), "Notes".to_string(), 42);
    assert_eq!(c.hash, "900150983cd24fb0d6963f7d28e17f72");
    assert_eq!(c.value, "abc");
    assert_eq!(c.source, "Notes");
    assert_eq!(c.timestamp, 42);
}

#[test]
fn identity_matches_the_hashing_crates_directly() {
    let text = "hello world";
    let c = Clip::new(text.to_string(), String::new(), 7);
    let expected = hex::encode(Md5::digest(text.as_bytes()));
    assert_eq!(c.hash, expected);
}

#[test]
fn identity_is_deterministic_across_calls() {
    let a = Clip::new("The Same Text".to_string(), "A".to_string(), 1);
    let b = Clip::new("The Same Text".to_string(), "B".to_string(), 999_999);
    assert_eq!(a.hash, b.hash);
    let c = Clip::new("another text".to_string(), "A".to_string(), 1);
    assert_ne!(a.hash, c.hash);
}

#[test]
fn identity_is_lowercase_hex_of_fixed_width() {
    let c = Clip::new("x".to_string(), String::new(), 0);
    assert_eq!(c.hash.len(), 32);
    assert!(c.hash.chars().all(|ch| ch.is_ascii_hexdigit() && !ch.is_ascii_uppercase()));
}

#[test]
fn duplicate_copies_every_field() {
    let a = Clip::new("abc".to_string(), "Notes".to_string(), 5);
    let b = a.duplicate();
    assert_eq!(a.value, b.value);
    assert_eq!(a.timestamp, b.timestamp);
    assert_eq!(a.hash, b.hash);
    assert_eq!(a.source, b.source);
}
