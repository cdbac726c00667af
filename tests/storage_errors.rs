use seqcache::error::ResolveError;
use seqcache::factorial::{find_factorial, seed_factorial};
use seqcache::fibonacci::{find_nth_fibonacci, seed_fibonacci};
use seqcache::store::{HashMapStore, Store};
use seqcache::term::Term;

/// A store whose backend is down.
struct DownStore;

impl Store for DownStore {
    fn get(&mut self, _key: i64) -> Result<Option<Term>, String> {
        Err("backend unreachable".to_string())
    }

    fn set(&mut self, _key: i64, _value: &Term) -> Result<(), String> {
        Err("backend unreachable".to_string())
    }

    fn contains_key(&mut self, _key: i64) -> Result<bool, String> {
        Err("backend unreachable".to_string())
    }
}

#[test]
fn storage_failure_is_reported_not_recomputed() {
    let mut store = DownStore;
    match find_nth_fibonacci(5, &mut store) {
        Err(ResolveError::Storage(m)) => assert_eq!(m, "backend unreachable"),
        _ => panic!("a storage failure must surface"),
    }
    match find_factorial(5, &mut store) {
        Err(ResolveError::Storage(m)) => assert_eq!(m, "backend unreachable"),
        _ => panic!("a storage failure must surface"),
    }
}

#[test]
fn base_cases_do_not_touch_the_store() {
    let mut store = DownStore;
    let (t, cached) = find_nth_fibonacci(1, &mut store).unwrap();
    assert_eq!(t.to_decimal(), "1");
    assert!(cached);
    assert!(matches!(find_factorial(-3, &mut store), Err(ResolveError::InvalidInput)));
}

/// An in-memory store whose backend goes down when asked to write `fail_at`.
struct FlakyStore {
    inner: HashMapStore,
    fail_at: i64,
}

impl Store for FlakyStore {
    fn get(&mut self, key: i64) -> Result<Option<Term>, String> {
        self.inner.get(key)
    }

    fn set(&mut self, key: i64, value: &Term) -> Result<(), String> {
        if key == self.fail_at {
            return Err("write refused".to_string());
        }
        self.inner.set(key, value)
    }

    fn contains_key(&mut self, key: i64) -> Result<bool, String> {
        self.inner.contains_key(key)
    }
}

#[test]
fn failure_part_way_leaves_a_resumable_prefix() {
    let mut inner = HashMapStore::new();
    seed_fibonacci(&mut inner).unwrap();
    let mut store = FlakyStore { inner, fail_at: 5 };
    match find_nth_fibonacci(9, &mut store) {
        Err(ResolveError::Storage(m)) => assert_eq!(m, "write refused"),
        _ => panic!("the failed write must surface"),
    }
    for i in 0..=4 {
        assert!(store.contains_key(i).unwrap());
    }
    for i in 5..=9 {
        assert!(!store.contains_key(i).unwrap());
    }
    store.fail_at = -1;
    let (t, cached) = find_nth_fibonacci(9, &mut store).unwrap();
    assert_eq!(t.to_decimal(), "34");
    assert!(!cached);
    assert_eq!(store.get(4).unwrap().unwrap().to_decimal(), "3");
}

#[test]
fn factorial_failure_part_way_then_resume() {
    let mut inner = HashMapStore::new();
    seed_factorial(&mut inner).unwrap();
    let mut store = FlakyStore { inner, fail_at: 4 };
    assert!(matches!(find_factorial(6, &mut store), Err(ResolveError::Storage(_))));
    assert!(store.contains_key(3).unwrap());
    assert!(!store.contains_key(4).unwrap());
    store.fail_at = -1;
    let (t, _) = find_factorial(6, &mut store).unwrap();
    assert_eq!(t.to_decimal(), "720");
}
