//! Tests for the synthetic-id derivation and the decimal key rendering.

use todo_core::idhash::synthetic_id;
use todo_core::keys::decimal_string;
use todo_core::text::trim;

#[test]
fn test_synthetic_id_deterministic_and_positive() {
    let a = synthetic_id("todos:abc123");
    let b = synthetic_id("todos:abc123");
    assert_eq!(a, b);
    assert!(a >= 1);
    assert!(a <= i32::MAX - 1);
}

#[test]
fn test_synthetic_id_exact_values() {
    // the hash is the 31-multiplier polynomial over the characters
    assert_eq!(synthetic_id("0"), 0x30 + 1);
    assert_eq!(synthetic_id("Aa"), 2113); // 'A' * 31 + 'a' = 2112, plus one
}

#[test]
fn test_synthetic_id_collision_is_possible() {
    // the documented weakness of hash-derived ids: distinct native keys can
    // share a synthetic id
    assert_ne!("Aa", "BB");
    assert_eq!(synthetic_id("Aa"), synthetic_id("BB"));
}

#[test]
fn test_decimal_string() {
    assert_eq!(decimal_string(0), "0");
    assert_eq!(decimal_string(7), "7");
    assert_eq!(decimal_string(10), "10");
    assert_eq!(decimal_string(12345), "12345");
    assert_eq!(decimal_string(u64::MAX), "18446744073709551615");
}

#[test]
fn test_trim_matches_std() {
    for s in ["", "   ", "a", "  a", "a  ", " a b ", "\u{3000}x\u{2028} ", "\t\r\nmixed \u{a0}"] {
        assert_eq!(trim(s), s.trim());
    }
}
