use cachecore::error::CacheError;
use cachecore::service::CacheService;
use cachecore::service::CacheConfig;
use cachecore::service::FaultyCacheService;
use cachecore::service::NoOpCacheService;
use cachecore::service::StoreCacheService;
use cachecore::store::KvStore;
use cachecore::typed::TypedCache;

fn fresh() -> StoreCacheService {
    StoreCacheService::new(KvStore::new())
}

#[test]
fn get_unwritten_key_is_none() {
    let mut cache = TypedCache::new(fresh());
    assert_eq!(cache.get::<u64>("org:id:missing"), Ok(None));
    assert_eq!(cache.get::<u64>(""), Ok(None));
}

#[test]
fn get_unwritten_key_is_none_after_other_writes() {
    let mut cache = TypedCache::new(fresh());
    cache.set("a", &1u64, None).unwrap();
    cache.set("b", &2u64, Some(0)).unwrap();
    assert_eq!(cache.get::<u64>("c"), Ok(None));
}

#[test]
fn no_op_get_is_always_none() {
    let mut cache = TypedCache::new(NoOpCacheService::default());
    cache.set("a", &1u64, None).unwrap();
    assert_eq!(cache.get::<u64>("a"), Ok(None));
    assert_eq!(cache.key_exists("a"), Ok(false));
}

#[test]
fn set_then_get_round_trips() {
    let mut cache = TypedCache::new(fresh());
    cache.set("n", &42u64, None).unwrap();
    assert_eq!(cache.get::<u64>("n"), Ok(Some(42)));
    cache.set("big", &u64::MAX, Some(1000)).unwrap();
    assert_eq!(cache.get::<u64>("big"), Ok(Some(u64::MAX)));
    cache.set("flag", &true, Some(0)).unwrap();
    assert_eq!(cache.get::<bool>("flag"), Ok(Some(true)));
    cache.set("flag2", &false, None).unwrap();
    assert_eq!(cache.get::<bool>("flag2"), Ok(Some(false)));
}

#[test]
fn set_overwrites_previous_value() {
    let mut cache = TypedCache::new(fresh());
    cache.set("n", &1u64, None).unwrap();
    cache.set("n", &2u64, None).unwrap();
    assert_eq!(cache.get::<u64>("n"), Ok(Some(2)));
}

#[test]
fn empty_batches_are_no_ops() {
    let mut cache = TypedCache::new(fresh());
    assert_eq!(cache.mset::<u64>(&[], None), Ok(()));
    assert_eq!(cache.mget::<u64>(&[]), Ok(vec![]));
    // Even a backend on which every store command fails accepts the empty
    // batches: they involve no store round-trip.
    let mut faulty = TypedCache::new(FaultyCacheService::default());
    assert_eq!(faulty.mset::<u64>(&[], None), Ok(()));
    assert_eq!(faulty.mget::<u64>(&[]), Ok(vec![]));
    assert_eq!(
        faulty.mget::<u64>(&["k".to_string()]),
        Err(CacheError::StoreCommandFailure)
    );
}

#[test]
fn corrupted_payload_heals_by_deletion() {
    let mut svc = fresh();
    svc.set_string("k", "not-a-number", Some(0)).unwrap();
    let mut cache = TypedCache::new(svc);
    assert_eq!(cache.get::<u64>("k"), Err(CacheError::DeserializationFailure));
    assert_eq!(cache.key_exists("k"), Ok(false));
}

#[test]
fn invalidate_pattern_removes_exactly_the_family() {
    let mut svc = fresh();
    svc.set_string("org:id:1", "1", Some(0)).unwrap();
    svc.set_string("org:id:2", "2", Some(0)).unwrap();
    svc.set_string("cc:id:1", "3", Some(0)).unwrap();
    svc.invalidate_pattern("org:*").unwrap();
    assert_eq!(svc.key_exists("org:id:1"), Ok(false));
    assert_eq!(svc.key_exists("org:id:2"), Ok(false));
    assert_eq!(svc.key_exists("cc:id:1"), Ok(true));
}

#[test]
fn invalidate_pattern_scans_past_one_page() {
    // More keys than one scan page, so the cursor loop runs several
    // round-trips before the bulk delete.
    let mut svc = fresh();
    for i in 0..1005u64 {
        svc.set_string(&format!("k:{}", i), "1", Some(0)).unwrap();
    }
    svc.set_string("other:1", "1", Some(0)).unwrap();
    svc.invalidate_pattern("k:*").unwrap();
    assert_eq!(svc.key_exists("k:0"), Ok(false));
    assert_eq!(svc.key_exists("k:999"), Ok(false));
    assert_eq!(svc.key_exists("k:1004"), Ok(false));
    assert_eq!(svc.key_exists("other:1"), Ok(true));
}

#[test]
fn ttl_zero_stores_without_expiry() {
    let mut svc = fresh();
    svc.set_string("k", "v", Some(0)).unwrap();
    svc.advance_clock(u64::MAX);
    assert_eq!(svc.get_string("k"), Ok(Some("v".to_string())));
}

#[test]
fn positive_ttl_expires_after_the_duration() {
    let mut svc = fresh();
    svc.set_string("k", "v", Some(10)).unwrap();
    svc.advance_clock(9);
    assert_eq!(svc.get_string("k"), Ok(Some("v".to_string())));
    svc.advance_clock(1);
    assert_eq!(svc.get_string("k"), Ok(None));
    assert_eq!(svc.key_exists("k"), Ok(false));
}

#[test]
fn missing_ttl_falls_back_to_the_configured_default() {
    let store = KvStore::new();
    let config = CacheConfig { default_ttl: Some(60) };
    let mut svc = StoreCacheService::new_with_config(store, config);
    svc.set_string("k", "v", None).unwrap();
    svc.advance_clock(59);
    assert_eq!(svc.get_string("k"), Ok(Some("v".to_string())));
    svc.advance_clock(1);
    assert_eq!(svc.get_string("k"), Ok(None));
}

#[test]
fn explicit_ttl_wins_over_the_default() {
    let store = KvStore::new();
    let config = CacheConfig { default_ttl: Some(60) };
    let mut svc = StoreCacheService::new_with_config(store, config);
    svc.set_string("k", "v", Some(5)).unwrap();
    svc.advance_clock(5);
    assert_eq!(svc.get_string("k"), Ok(None));
}

#[test]
fn default_config_keeps_values_for_an_hour() {
    let mut svc = fresh();
    svc.set_string("k", "v", None).unwrap();
    svc.advance_clock(3599);
    assert_eq!(svc.get_string("k"), Ok(Some("v".to_string())));
    svc.advance_clock(1);
    assert_eq!(svc.get_string("k"), Ok(None));
}

#[test]
fn mget_is_positional_and_heals_corrupt_slots() {
    let mut svc = fresh();
    svc.set_string("good", "7", Some(0)).unwrap();
    svc.set_string("bad", "seven", Some(0)).unwrap();
    let mut cache = TypedCache::new(svc);
    let keys = vec![
        "good".to_string(),
        "bad".to_string(),
        "missing".to_string(),
    ];
    assert_eq!(cache.mget::<u64>(&keys), Ok(vec![Some(7), None, None]));
    // The corrupt slot was deleted; the good one stayed.
    assert_eq!(cache.key_exists("good"), Ok(true));
    assert_eq!(cache.key_exists("bad"), Ok(false));
}

#[test]
fn mset_writes_every_item() {
    let mut cache = TypedCache::new(fresh());
    let items = vec![
        ("a".to_string(), 1u64),
        ("b".to_string(), 2u64),
        ("a".to_string(), 3u64),
    ];
    cache.mset(&items, Some(0)).unwrap();
    // On a repeated key the later item wins.
    assert_eq!(cache.get::<u64>("a"), Ok(Some(3)));
    assert_eq!(cache.get::<u64>("b"), Ok(Some(2)));
}

#[test]
fn delete_is_idempotent() {
    let mut svc = fresh();
    svc.set_string("k", "v", Some(0)).unwrap();
    assert_eq!(svc.delete("k"), Ok(()));
    assert_eq!(svc.delete("k"), Ok(()));
    assert_eq!(svc.delete("never-written"), Ok(()));
    assert_eq!(svc.key_exists("k"), Ok(false));
}

#[test]
fn no_op_operations_all_trivially_succeed() {
    let mut svc = NoOpCacheService::default();
    assert_eq!(svc.set_string("k", "v", None), Ok(()));
    assert_eq!(svc.get_string("k"), Ok(None));
    assert_eq!(svc.key_exists("k"), Ok(false));
    assert_eq!(svc.delete("k"), Ok(()));
    assert_eq!(svc.invalidate_pattern("*"), Ok(()));
    assert_eq!(
        svc.mget_string(&["a".to_string(), "b".to_string()]),
        Ok(vec![None, None])
    );
    assert_eq!(
        svc.mset_string(&[("a".to_string(), "1".to_string())], None),
        Ok(())
    );
}

#[test]
fn faulty_operations_report_store_command_failure() {
    let mut svc = FaultyCacheService::default();
    assert_eq!(svc.get_string("k"), Err(CacheError::StoreCommandFailure));
    assert_eq!(
        svc.set_string("k", "v", None),
        Err(CacheError::StoreCommandFailure)
    );
    assert_eq!(svc.delete("k"), Err(CacheError::StoreCommandFailure));
    assert_eq!(svc.key_exists("k"), Err(CacheError::StoreCommandFailure));
    assert_eq!(
        svc.invalidate_pattern("*"),
        Err(CacheError::StoreCommandFailure)
    );
}

#[test]
fn facade_delete_and_invalidate_pass_through() {
    let mut cache = TypedCache::new(fresh());
    cache.set("org:id:1", &1u64, Some(0)).unwrap();
    cache.set("cc:id:1", &2u64, Some(0)).unwrap();
    assert_eq!(cache.delete("org:id:1"), Ok(()));
    assert_eq!(cache.key_exists("org:id:1"), Ok(false));
    assert_eq!(cache.invalidate_pattern("cc:*"), Ok(()));
    assert_eq!(cache.key_exists("cc:id:1"), Ok(false));
}

#[test]
fn mget_on_no_op_reports_every_slot_absent() {
    let mut cache = TypedCache::new(NoOpCacheService::default());
    let keys = vec!["a".to_string(), "b".to_string()];
    assert_eq!(cache.mget::<u64>(&keys), Ok(vec![None, None]));
}
