use seqcache::error::ResolveError;
use seqcache::store::{store_key, HashMapStore, Store};
use seqcache::term::{i64_to_decimal, Term};

#[test]
fn term_decimal_of_small_values() {
    assert_eq!(Term::zero().to_decimal(), "0");
    assert_eq!(Term::one().to_decimal(), "1");
    assert_eq!(Term::from_u64(4294967296).to_decimal(), "4294967296");
    assert_eq!(Term::from_u64(u64::MAX).to_decimal(), "18446744073709551615");
}

#[test]
fn term_add_carries_across_limbs() {
    let a = Term::from_u64(u64::MAX);
    let b = Term::from_u64(1);
    assert_eq!(a.add(&b).to_decimal(), "18446744073709551616");
    assert_eq!(Term::from_u64(2).add(&Term::from_u64(3)).to_decimal(), "5");
}

#[test]
fn term_mul_by_machine_integer() {
    let a = Term::from_u64(u64::MAX);
    assert_eq!(a.mul_u64(u64::MAX).to_decimal(), "340282366920938463426481119284349108225");
    assert_eq!(Term::from_u64(6).mul_u64(7).to_decimal(), "42");
    assert_eq!(Term::from_u64(6).mul_u64(0).to_decimal(), "0");
}

#[test]
fn term_duplicate_keeps_value() {
    let a = Term::from_u64(123456789012345);
    assert_eq!(a.duplicate().to_decimal(), "123456789012345");
}

#[test]
fn term_parse_reads_numerals() {
    let t = Term::parse_decimal("354224848179261915075").unwrap();
    assert_eq!(t.to_decimal(), "354224848179261915075");
    assert_eq!(Term::parse_decimal("0").unwrap().to_decimal(), "0");
    assert!(Term::parse_decimal("abc").is_none());
    assert!(Term::parse_decimal("").is_none());
    assert!(Term::parse_decimal("12x").is_none());
    assert!(Term::parse_decimal("1 2").is_none());
    assert!(Term::parse_decimal("-5").is_none());
    assert!(Term::parse_decimal("1+2").is_none());
}

#[test]
fn signed_decimals() {
    assert_eq!(i64_to_decimal(0), "0");
    assert_eq!(i64_to_decimal(-17), "-17");
    assert_eq!(i64_to_decimal(i64::MAX), "9223372036854775807");
    assert_eq!(i64_to_decimal(i64::MIN), "-9223372036854775808");
}

#[test]
fn store_keys_carry_prefix_and_index() {
    assert_eq!(store_key("fib", 12), "fib:12");
    assert_eq!(store_key("factorial", 0), "factorial:0");
    assert_eq!(store_key("x", -3), "x:-3");
}

#[test]
fn hash_map_store_get_set_contains() {
    let mut store = HashMapStore::new();
    assert!(!store.contains_key(4).unwrap());
    assert!(store.get(4).unwrap().is_none());
    store.set(4, &Term::from_u64(9)).unwrap();
    assert!(store.contains_key(4).unwrap());
    assert_eq!(store.get(4).unwrap().unwrap().to_decimal(), "9");
    store.set(4, &Term::from_u64(10)).unwrap();
    assert_eq!(store.get(4).unwrap().unwrap().to_decimal(), "10");
}

#[test]
fn storage_error_message_is_kept() {
    let e = ResolveError::Storage("connection refused".to_string());
    assert_eq!(e.message(), "connection refused");
    assert_eq!(ResolveError::InvalidInput.message(), "Number must be non-negative");
}
