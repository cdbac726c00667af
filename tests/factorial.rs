use seqcache::error::ResolveError;
use seqcache::factorial::{find_factorial, seed_factorial};
use seqcache::store::{HashMapStore, Store};
use seqcache::term::Term;

fn setup_test_store() -> HashMapStore {
    let mut store = HashMapStore::new();

    // Initialize base cases
    let _ = store.set(0, &Term::one());
    let _ = store.set(1, &Term::one());

    store
}

#[test]
fn test_find_factorial_basic() {
    let mut store = setup_test_store();

    let test_cases = vec![(0, "1"), (1, "1"), (2, "2"), (3, "6"), (4, "24"), (5, "120")];

    for (input, expected) in test_cases {
        let (result, _) = find_factorial(input, &mut store).unwrap();
        assert_eq!(result.to_decimal(), expected);
    }
}

#[test]
fn test_find_factorial_caching() {
    let mut store = setup_test_store();

    // First calculation - should not be cached
    let (result1, was_cached1) = find_factorial(5, &mut store).unwrap();
    assert_eq!(result1.to_decimal(), "120");
    assert!(!was_cached1);

    // Second calculation - should be cached
    let (result2, was_cached2) = find_factorial(5, &mut store).unwrap();
    assert_eq!(result2.to_decimal(), "120");
    assert!(was_cached2);

    // Check intermediate results are cached
    let (result3, was_cached3) = find_factorial(3, &mut store).unwrap();
    assert_eq!(result3.to_decimal(), "6");
    assert!(was_cached3);
}

#[test]
fn factorial_test_negative_number() {
    let mut store = setup_test_store();
    match find_factorial(-1, &mut store) {
        Ok(_) => panic!("Expected error for negative number"),
        Err(e) => assert_eq!(e.message(), "Number must be non-negative"),
    }
}

#[test]
fn test_factorial_larger_number() {
    let mut store = setup_test_store();
    let (result, _) = find_factorial(10, &mut store).unwrap();
    assert_eq!(result.to_decimal(), "3628800");
}

#[test]
fn factorial_test_sequential_calculations() {
    let mut store = setup_test_store();

    // Calculate factorial of 5
    let (result5, cached5) = find_factorial(5, &mut store).unwrap();
    assert_eq!(result5.to_decimal(), "120");
    assert!(!cached5);

    // Calculate factorial of 7 - should use cached results up to 5
    let (result7, cached7) = find_factorial(7, &mut store).unwrap();
    assert_eq!(result7.to_decimal(), "5040");
    assert!(!cached7);

    // Verify all intermediate results are cached
    for i in 0..=7 {
        let (_, cached) = find_factorial(i, &mut store).unwrap();
        assert!(cached, "Factorial of {} should be cached", i);
    }
}

#[test]
fn factorial_base_cases_on_fresh_store() {
    let mut store = setup_test_store();
    for i in 0..=1 {
        let (t, cached) = find_factorial(i, &mut store).unwrap();
        assert_eq!(t.to_decimal(), "1");
        assert!(cached);
    }
}

#[test]
fn factorial_negative_rejected_on_any_store() {
    let mut empty = HashMapStore::new();
    assert!(matches!(find_factorial(-1, &mut empty), Err(ResolveError::InvalidInput)));
    let mut filled = setup_test_store();
    find_factorial(9, &mut filled).unwrap();
    assert!(matches!(find_factorial(-1, &mut filled), Err(ResolveError::InvalidInput)));
}

#[test]
fn factorial_empty_store_uses_identity() {
    let mut store = HashMapStore::new();
    let (zero, cached0) = find_factorial(0, &mut store).unwrap();
    assert_eq!(zero.to_decimal(), "1");
    assert!(!cached0);
    assert!(!store.contains_key(0).unwrap());
    let (five, cached5) = find_factorial(5, &mut store).unwrap();
    assert_eq!(five.to_decimal(), "120");
    assert!(!cached5);
    for i in 1..=5 {
        assert!(store.contains_key(i).unwrap());
    }
}

#[test]
fn factorial_resume_from_gap() {
    let mut gapped = setup_test_store();
    gapped.set(5, &Term::from_u64(120)).unwrap();
    let (from_gap, _) = find_factorial(7, &mut gapped).unwrap();

    let mut plain = setup_test_store();
    let (from_seeds, _) = find_factorial(7, &mut plain).unwrap();

    assert_eq!(from_gap.to_decimal(), "5040");
    assert_eq!(from_gap.to_decimal(), from_seeds.to_decimal());
}

#[test]
fn factorial_vectors_and_large_index() {
    let mut store = setup_test_store();
    let expected = ["1", "2", "6", "24", "120", "720", "5040"];
    for (i, e) in expected.iter().enumerate() {
        let (t, _) = find_factorial(i as i64 + 1, &mut store).unwrap();
        assert_eq!(t.to_decimal(), *e);
    }
    let (t25, _) = find_factorial(25, &mut store).unwrap();
    assert_eq!(t25.to_decimal(), "15511210043330985984000000");
}

#[test]
fn factorial_rederivation_from_two_engines() {
    let mut store = setup_test_store();
    find_factorial(12, &mut store).unwrap();
    let first: Vec<String> = (0..=12).map(|i| store.get(i).unwrap().unwrap().to_decimal()).collect();
    find_factorial(12, &mut store).unwrap();
    find_factorial(20, &mut store).unwrap();
    let second: Vec<String> = (0..=12).map(|i| store.get(i).unwrap().unwrap().to_decimal()).collect();
    assert_eq!(first, second);
}

#[test]
fn factorial_seeding_writes_base_cases() {
    let mut store = HashMapStore::new();
    seed_factorial(&mut store).unwrap();
    let (t, cached) = find_factorial(0, &mut store).unwrap();
    assert_eq!(t.to_decimal(), "1");
    assert!(cached);
    assert!(store.get(2).unwrap().is_none());
}
