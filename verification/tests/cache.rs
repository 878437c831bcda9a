use rust_llm_gateway::cache::exact::ExactCache;
use rust_llm_gateway::cache::semantic::{
    CompatibilitySignature, NoopEmbeddingBackend, SemanticCache, SemanticCacheConfig,
    SemanticLookupOutcome,
};
use rust_llm_gateway::float_bits::F32Bits;
use std::time::Duration;

const SECOND: u64 = 1_000_000_000;

fn f(x: f32) -> F32Bits {
    F32Bits::from_bits(x.to_bits())
}

#[test]
fn basic_insert_get() {
    let mut cache = ExactCache::new(10, 60);
    let key = ExactCache::compute_key("gpt-4", "hello", f(0.0)).unwrap();
    cache.insert(key.clone(), "world".to_string());
    assert_eq!(cache.get(&key).as_deref(), Some("world"));
}

#[test]
fn the_last_stored_response_is_found() {
    let mut cache = ExactCache::new(10, 60);
    assert_eq!(cache.get("a"), None);
    cache.insert("a".to_string(), "1".to_string());
    cache.insert("b".to_string(), "2".to_string());
    cache.insert("a".to_string(), "3".to_string());
    assert_eq!(cache.get("a").as_deref(), Some("3"));
    assert_eq!(cache.get("b").as_deref(), Some("2"));
    assert_eq!(cache.get("c"), None);
}

#[test]
fn a_cache_without_room_keeps_nothing() {
    let mut cache = ExactCache::new(0, 60);
    cache.insert("a".to_string(), "1".to_string());
    assert_eq!(cache.get("a"), None);
}

#[test]
fn rejects_nonzero_temperature() {
    assert!(ExactCache::compute_key("gpt-4", "hello", f(0.1)).is_none());
}

#[test]
fn different_models_produce_different_keys() {
    let a = ExactCache::compute_key("gpt-4", "hello", f(0.0)).unwrap();
    let b = ExactCache::compute_key("llama-3", "hello", f(0.0)).unwrap();
    assert_ne!(a, b);
}

#[test]
fn different_prompts_produce_different_keys() {
    let a = ExactCache::compute_key("gpt-4", "hello", f(0.0)).unwrap();
    let b = ExactCache::compute_key("gpt-4", "world", f(0.0)).unwrap();
    assert_ne!(a, b);
}

#[test]
fn keys_are_digests_of_model_and_prompt() {
    assert_eq!(
        ExactCache::compute_key("gpt-4", "hello", f(0.0)).unwrap(),
        "exact:8cf237cbda38ad062b447fa12c475fe2f6a2f5b846b468d4d9b2d1aa1258eaf8"
    );
}

#[test]
fn only_a_zero_temperature_is_deterministic() {
    assert!(ExactCache::compute_key("m", "p", f(-0.0)).is_some());
    for t in [-1.0f32, 1.0, f32::MIN_POSITIVE, f32::INFINITY, f32::NAN] {
        assert!(ExactCache::compute_key("m", "p", f(t)).is_none());
    }
}

#[test]
fn numbers_compare_by_value() {
    assert!(f(0.95).at_least(f(0.95)));
    assert!(!f(0.94).at_least(f(0.95)));
    assert!(f(-0.5).above(f(-1.0)));
    assert!(!f(0.0).above(f(-0.0)));
    assert!(f(0.0).at_least(f(-0.0)));
    assert!(!f(f32::NAN).at_least(f(0.0)));
    assert!(!f(0.0).at_least(f(f32::NAN)));
    assert!(!f(f32::NAN).above(f(f32::NAN)));
    assert!(f(f32::INFINITY).above(f(f32::MAX)));
}

fn signature(model: &str) -> CompatibilitySignature {
    CompatibilitySignature {
        model: model.to_string(),
        system_fingerprint: None,
        tools_hash: None,
        response_format: None,
    }
}

fn enabled(max_entries: usize) -> SemanticCache {
    SemanticCache::new(SemanticCacheConfig {
        enabled: true,
        threshold: f(0.95),
        max_entries,
        ttl: Duration::from_secs(60),
    })
}

fn store(cache: &mut SemanticCache, model: &str, response: &str, now: u64) {
    cache.insert(
        "test prompt".to_string(),
        signature(model),
        Some(vec![f(1.0), f(0.0)]),
        response.to_string(),
        now,
    );
}

#[test]
fn semantic_cache_hit_and_miss_with_signature() {
    let mut cache = enabled(100);
    let sig_a = signature("gpt-4");
    let sig_b = signature("llama-3"); // different model!

    store(&mut cache, "gpt-4", "test response", 0);

    // Same prompt and signature = Hit
    match cache.lookup(&sig_a, Some(&vec![f(1.0)]), 0) {
        SemanticLookupOutcome::Hit { response, similarity } => {
            assert_eq!(response, "test response");
            assert!(similarity.at_least(f(0.95)));
        }
        _ => panic!("expected hit"),
    }

    // Same prompt but different signature = Miss
    assert!(matches!(
        cache.lookup(&sig_b, Some(&vec![f(1.0)]), 0),
        SemanticLookupOutcome::Miss
    ));
}

#[test]
fn every_part_of_the_signature_counts() {
    let base = signature("m");
    let mut other = base.clone();
    assert!(base.matches(&other));
    other.system_fingerprint = Some("s".to_string());
    assert!(!base.matches(&other));
    other = base.clone();
    other.tools_hash = Some("t".to_string());
    assert!(!base.matches(&other));
    other = base.clone();
    other.response_format = Some("json".to_string());
    assert!(!base.matches(&other));
    assert!(other.matches(&other.clone()));
}

#[test]
fn the_most_similar_entry_is_served_and_the_first_of_equals() {
    let mut cache = enabled(100);
    store(&mut cache, "m", "a", 0);
    store(&mut cache, "m", "b", 0);
    store(&mut cache, "m", "c", 0);
    store(&mut cache, "m", "d", 0);
    match cache.lookup(&signature("m"), Some(&vec![f(0.96), f(0.99), f(0.99), f(0.9)]), 0) {
        SemanticLookupOutcome::Hit { response, similarity } => {
            assert_eq!(response, "b");
            assert_eq!(similarity, f(0.99));
        }
        _ => panic!("expected hit"),
    }
    assert!(matches!(
        cache.lookup(&signature("m"), Some(&vec![f(0.94), f(0.9), f(f32::NAN), f(-1.0)]), 0),
        SemanticLookupOutcome::Miss
    ));
}

#[test]
fn an_entry_is_served_up_to_its_age() {
    let mut cache = enabled(100);
    store(&mut cache, "m", "a", 10 * SECOND);
    let scores = vec![f(1.0)];
    assert!(matches!(
        cache.lookup(&signature("m"), Some(&scores), 70 * SECOND),
        SemanticLookupOutcome::Hit { .. }
    ));
    assert!(matches!(
        cache.lookup(&signature("m"), Some(&scores), 70 * SECOND + 1),
        SemanticLookupOutcome::Miss
    ));
}

#[test]
fn the_oldest_entry_makes_room() {
    let mut cache = enabled(2);
    store(&mut cache, "m", "a", 0);
    store(&mut cache, "m", "b", 1);
    store(&mut cache, "m", "c", 2);
    assert_eq!(cache.entries.len(), 2);
    assert_eq!(cache.entries[0].response, "b");
    assert_eq!(cache.entries[1].response, "c");
    cache.clear();
    assert!(cache.entries.is_empty());
}

#[test]
fn nothing_is_stored_without_an_embedding() {
    let mut cache = enabled(2);
    cache.insert("p".to_string(), signature("m"), None, "r".to_string(), 0);
    assert!(cache.entries.is_empty());
    assert!(matches!(
        cache.lookup(&signature("m"), None, 0),
        SemanticLookupOutcome::Miss
    ));
}

#[test]
fn a_cache_without_room_stays_empty() {
    let mut cache = enabled(0);
    store(&mut cache, "m", "a", 0);
    store(&mut cache, "m", "b", 1);
    assert!(cache.entries.is_empty());
    assert!(matches!(
        cache.lookup(&signature("m"), Some(&Vec::new()), 2),
        SemanticLookupOutcome::Miss
    ));
}

#[test]
fn a_disabled_cache_does_nothing() {
    let config = SemanticCacheConfig::default();
    assert!(!config.enabled);
    assert_eq!(config.threshold, f(0.95));
    assert_eq!(config.max_entries, 10_000);
    assert_eq!(config.ttl, Duration::from_secs(3600));
    let mut cache = SemanticCache::new(SemanticCacheConfig { max_entries: 0, ..config });
    store(&mut cache, "m", "a", 0);
    assert!(cache.entries.is_empty());
    assert!(matches!(
        cache.lookup(&signature("m"), Some(&vec![f(1.0)]), 0),
        SemanticLookupOutcome::Disabled
    ));
}

#[test]
fn without_a_backend_there_is_no_embedding() {
    assert_eq!(
        NoopEmbeddingBackend.embed("text").unwrap_err(),
        "no embedding backend configured"
    );
}
