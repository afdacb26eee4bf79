use modern_ees_core::cache::{CacheKey, KeyInput, QueryCache};
use modern_ees_core::props::{backend_error, Prop, PropsError, StateVar};

fn key(fluid: &str, out: Prop, in1: (StateVar, f64), in2: (StateVar, f64)) -> CacheKey {
    CacheKey::new(
        fluid.to_string(),
        out,
        KeyInput { var: in1.0, value_bits: in1.1.to_bits() },
        KeyInput { var: in2.0, value_bits: in2.1.to_bits() },
    )
}

/// A backend that answers from a script and counts its calls, behind the
/// memo, as the CoolProp provider uses it.
struct Memoized {
    cache: QueryCache<f64>,
    responses: Vec<Result<f64, PropsError>>,
    calls: usize,
}

impl Memoized {
    fn new(capacity: usize, responses: Vec<Result<f64, PropsError>>) -> Self {
        Memoized { cache: QueryCache::new(capacity), responses, calls: 0 }
    }

    fn query(&mut self, k: CacheKey) -> Result<f64, PropsError> {
        if let Some(v) = self.cache.get(&k) {
            return Ok(v);
        }
        self.calls += 1;
        let answer = if self.responses.is_empty() {
            Err(PropsError::Provider("fake transport missing response".to_string()))
        } else {
            self.responses.remove(0)
        };
        let value = answer?;
        self.cache.insert(k, value);
        Ok(value)
    }
}

#[test]
fn cache_reuses_value_for_swapped_inputs() {
    let mut provider = Memoized::new(4, vec![Ok(42.0)]);
    let q1 = key("Water", Prop::H, (StateVar::T, 300.0), (StateVar::P, 101_325.0));
    let q2 = key("Water", Prop::H, (StateVar::P, 101_325.0), (StateVar::T, 300.0));

    assert_eq!(provider.query(q1).expect("first call succeeds"), 42.0);
    assert_eq!(provider.query(q2).expect("second call hits cache"), 42.0);
    assert_eq!(provider.calls, 1);
}

#[test]
fn cache_evicts_lru_entry_when_capacity_reached() {
    let mut provider = Memoized::new(1, vec![Ok(1.0), Ok(2.0), Ok(1.5)]);
    let q1 = key("Water", Prop::H, (StateVar::T, 300.0), (StateVar::P, 100_000.0));
    let q2 = key("Water", Prop::S, (StateVar::T, 301.0), (StateVar::P, 100_000.0));

    assert_eq!(provider.query(q1.clone()).expect("first query"), 1.0);
    assert_eq!(provider.query(q2).expect("second query"), 2.0);
    assert_eq!(provider.query(q1).expect("evicted and recomputed"), 1.5);
    assert_eq!(provider.calls, 3);
}

#[test]
fn backend_error_mapping_is_readable() {
    let err = backend_error("unknown_fluid", "No fluid named Nope".to_string());
    assert!(matches!(err, PropsError::InvalidInput(_)));
    assert!(err.to_string().contains("No fluid named Nope"));
}

#[test]
fn backend_error_kinds_map_to_variants() {
    assert_eq!(
        backend_error("invalid_pair", "bad pair".to_string()),
        PropsError::InvalidInput("bad pair".to_string())
    );
    assert_eq!(
        backend_error("out_of_range", "too hot".to_string()),
        PropsError::NotAvailable("too hot".to_string())
    );
    assert_eq!(
        backend_error("crashed", "boom".to_string()),
        PropsError::Provider("boom".to_string())
    );
    assert_eq!(
        PropsError::NotAvailable("too hot".to_string()).to_string(),
        "Requested property is not available: too hot"
    );
    assert_eq!(
        PropsError::InvalidInput("x".to_string()).to_string(),
        "Invalid property input: x"
    );
    assert_eq!(
        PropsError::Provider("backend offline".to_string()).to_string(),
        "Property provider error: backend offline"
    );
}

#[test]
fn key_is_the_same_for_swapped_inputs() {
    let a = key("Water", Prop::D, (StateVar::T, 300.0), (StateVar::P, 1.0));
    let b = key("Water", Prop::D, (StateVar::P, 1.0), (StateVar::T, 300.0));
    assert!(a.same_as(&b));
    assert_eq!(a.in_low.var, StateVar::T);
    assert_eq!(a.in_high.var, StateVar::P);
    let c = key("Water", Prop::H, (StateVar::T, 300.0), (StateVar::P, 1.0));
    assert!(!a.same_as(&c));
}

#[test]
fn get_after_insert_returns_the_value() {
    let mut cache: QueryCache<f64> = QueryCache::new(2);
    let k = key("R134a", Prop::S, (StateVar::T, 280.0), (StateVar::P, 900_000.0));
    assert_eq!(cache.get(&k), None);
    cache.insert(k.clone(), 12.0);
    assert_eq!(cache.get(&k), Some(12.0));
    cache.insert(k.clone(), 13.0);
    assert_eq!(cache.get(&k), Some(13.0));
}

#[test]
fn zero_capacity_stores_nothing() {
    let mut cache: QueryCache<f64> = QueryCache::new(0);
    let k = key("Water", Prop::H, (StateVar::T, 300.0), (StateVar::P, 1.0));
    cache.insert(k.clone(), 1.0);
    assert_eq!(cache.get(&k), None);
}

#[test]
fn recently_read_entry_survives_eviction() {
    let mut cache: QueryCache<f64> = QueryCache::new(2);
    let a = key("Water", Prop::H, (StateVar::T, 1.0), (StateVar::P, 1.0));
    let b = key("Water", Prop::H, (StateVar::T, 2.0), (StateVar::P, 1.0));
    let c = key("Water", Prop::H, (StateVar::T, 3.0), (StateVar::P, 1.0));
    cache.insert(a.clone(), 1.0);
    cache.insert(b.clone(), 2.0);
    assert_eq!(cache.get(&a), Some(1.0));
    cache.insert(c.clone(), 3.0);
    assert_eq!(cache.get(&b), None);
    assert_eq!(cache.get(&a), Some(1.0));
    assert_eq!(cache.get(&c), Some(3.0));
}
