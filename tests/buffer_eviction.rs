use fandango::buffer::{KVCacheError, MemoryBuffer};
use fandango::eviction::{EvictionManager, DEFAULT_EVICTION_THRESHOLD};
use fandango::telemetry::Monitoring;

#[test]
fn update_rejects_payload_larger_than_capacity() {
    let mut b = MemoryBuffer::new(4);
    assert_eq!(b.update("a".to_string(), vec![1, 2, 3, 4, 5]), Err(KVCacheError::CapacityExceeded));
    assert!(b.is_empty());
    assert_eq!(b.used(), 0);
}

#[test]
fn update_replaces_entry_of_same_job() {
    let mut b = MemoryBuffer::new(10);
    assert_eq!(b.update("a".to_string(), vec![1, 2, 3]), Ok(0));
    assert_eq!(b.update("a".to_string(), vec![9]), Ok(0));
    assert_eq!(b.len(), 1);
    assert_eq!(b.used(), 1);
    assert_eq!(b.get_kv_cache("a"), Some(vec![9]));
    assert_eq!(b.get_kv_cache("b"), None);
}

#[test]
fn update_evicts_oldest_to_make_room() {
    let mut b = MemoryBuffer::new(6);
    assert_eq!(b.update("a".to_string(), vec![1, 1, 1]), Ok(0));
    assert_eq!(b.update("b".to_string(), vec![2, 2]), Ok(0));
    assert_eq!(b.update("c".to_string(), vec![3, 3, 3]), Ok(1));
    assert_eq!(b.get_kv_cache("a"), None);
    assert_eq!(b.get_kv_cache("b"), Some(vec![2, 2]));
    assert_eq!(b.get_kv_cache("c"), Some(vec![3, 3, 3]));
    assert_eq!(b.used(), 5);
    assert!(b.used() <= b.capacity());
}

#[test]
fn add_kv_cache_stores_only_what_fits() {
    let mut b = MemoryBuffer::new(5);
    assert!(b.add_kv_cache("a".to_string(), vec![1, 2, 3]));
    assert!(!b.add_kv_cache("b".to_string(), vec![1, 2, 3]));
    assert_eq!(b.len(), 1);
    assert!(b.add_kv_cache("a".to_string(), vec![7, 7, 7, 7, 7]));
    assert_eq!(b.get_kv_cache("a"), Some(vec![7, 7, 7, 7, 7]));
    assert_eq!(b.used(), 5);
}

#[test]
fn check_and_evict_reaches_threshold() {
    let mut b = MemoryBuffer::new(100);
    b.update("a".to_string(), vec![0; 30]).unwrap();
    b.update("b".to_string(), vec![0; 30]).unwrap();
    b.update("c".to_string(), vec![0; 30]).unwrap();
    assert_eq!(b.check_and_evict(50), 2);
    assert!(b.used() <= 50);
    assert_eq!(b.get_kv_cache("c"), Some(vec![0; 30]));
    assert_eq!(b.len(), 1);
}

#[test]
fn check_and_evict_may_empty_the_buffer() {
    let mut b = MemoryBuffer::new(100);
    b.update("big".to_string(), vec![0; 80]).unwrap();
    assert_eq!(b.check_and_evict(10), 1);
    assert!(b.is_empty());
    assert_eq!(b.used(), 0);
}

#[test]
fn eviction_manager_counts_events() {
    let mut b = MemoryBuffer::new(100);
    b.update("a".to_string(), vec![0; 40]).unwrap();
    b.update("b".to_string(), vec![0; 40]).unwrap();
    let mgr = EvictionManager::with_threshold(50);
    let mut m = Monitoring::new();
    assert_eq!(mgr.check_eviction_threshold(&mut b, &mut m), 1);
    assert_eq!(m.evictions, 1);
    assert_eq!(b.get_kv_cache("b"), Some(vec![0; 40]));
    assert_eq!(EvictionManager::new().eviction_threshold(), DEFAULT_EVICTION_THRESHOLD);
}

#[test]
fn counters_count_their_event_only() {
    let mut m = Monitoring::new();
    m.record_cache_hit();
    m.record_cache_hit();
    m.record_cache_miss();
    m.record_eviction();
    m.record_speculative_accepted();
    m.record_speculative_rejected();
    m.log_deduplication_hit();
    m.record_evictions(3);
    assert_eq!(m.cache_hits, 2);
    assert_eq!(m.cache_misses, 1);
    assert_eq!(m.evictions, 4);
    assert_eq!(m.speculative_accepted, 1);
    assert_eq!(m.speculative_rejected, 1);
    assert_eq!(m.deduplication_hits, 1);
    m.cache_hits = u64::MAX;
    m.record_cache_hit();
    assert_eq!(m.cache_hits, u64::MAX);
}
