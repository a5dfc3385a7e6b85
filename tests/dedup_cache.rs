use fandango::buffer::KVCacheError;
use fandango::dedup::{deduplicate_kvcache, Deduplicator, BLOCK_SIZE};
use fandango::kv_cache::KVCacheManager;
use fandango::policy::PrecisionLevel;
use fandango::quantize::{encode_payload, encode_wide, DynamicQuantizer};
use fandango::telemetry::Monitoring;

fn block(v: i32) -> Vec<i32> {
    vec![v; BLOCK_SIZE]
}

#[test]
fn duplicate_blocks_are_dropped() {
    let mut data = block(1);
    data.extend(block(2));
    data.extend(block(1));
    data.extend(vec![5, 6, 7]);
    let out = deduplicate_kvcache(&data);
    let mut expected = block(1);
    expected.extend(block(2));
    expected.extend(vec![5, 6, 7]);
    assert_eq!(out, expected);
    assert!(out.len() <= data.len());
}

#[test]
fn dedup_again_keeps_everything() {
    let mut data = block(3);
    data.extend(block(3));
    data.extend(block(4));
    data.extend(block(3));
    let once = deduplicate_kvcache(&data);
    let twice = deduplicate_kvcache(&once);
    assert_eq!(once.len(), 2 * BLOCK_SIZE);
    assert_eq!(twice, once);
}

#[test]
fn dedup_of_empty_stream() {
    assert_eq!(deduplicate_kvcache(&vec![]), Vec::<i32>::new());
}

#[test]
fn deduplicator_remembers_within_generation() {
    let mut d = Deduplicator::new();
    let mut m = Monitoring::new();
    let first = d.deduplicate(&block(8), &mut m);
    assert_eq!(first, block(8));
    let second = d.deduplicate(&block(8), &mut m);
    assert!(second.is_empty());
    assert_eq!(m.deduplication_hits, 1);
}

#[test]
fn quantize_layer_values() {
    assert_eq!(DynamicQuantizer::quantize_layer(&vec![0, 100, 500, 1000, -300], 8), vec![0, 13, 64, 127, 0]);
    assert_eq!(DynamicQuantizer::quantize_layer(&vec![100, 500, 900], 4), vec![1, 4, 7]);
}

#[test]
fn wide_encoding_saturates() {
    assert_eq!(encode_wide(&vec![1, -1, 40000, -40000]), vec![1, 0, 255, 255, 255, 127, 0, 128]);
    assert_eq!(encode_payload(PrecisionLevel::Float16, &vec![258]), vec![2, 1]);
    assert_eq!(encode_payload(PrecisionLevel::Int8, &vec![500]), vec![64]);
    assert_eq!(encode_payload(PrecisionLevel::Int4, &vec![500]), vec![4]);
}

#[test]
fn cache_update_then_get() {
    let mut c = KVCacheManager::new(1024, 1024);
    let act = vec![100, 200, 300, 400, 500];
    assert_eq!(c.update("job_1".to_string(), &act, 900, 100), Ok(PrecisionLevel::Int4));
    assert_eq!(c.get("job_1"), Some(vec![1, 2, 2, 3, 4]));
    assert_eq!(c.get("job_2"), None);
    assert_eq!(c.fetch("job_2"), Err(KVCacheError::NotFound));
    assert_eq!(c.monitoring().cache_hits, 1);
    assert_eq!(c.monitoring().cache_misses, 2);
}

#[test]
fn cache_update_precision_follows_rules() {
    let mut c = KVCacheManager::new(1024, 1024);
    // locality 0.12 is tight: sixteen-bit storage at medium load
    let act = vec![100, 200, 300, 400, 500];
    assert_eq!(c.update("j".to_string(), &act, 500, 500), Ok(PrecisionLevel::Float16));
    assert_eq!(c.buffer().used(), 10);
    assert_eq!(c.update("k".to_string(), &act, 500, 900), Ok(PrecisionLevel::Int8));
}

#[test]
fn cache_update_too_large_fails() {
    let mut c = KVCacheManager::new(4, 4);
    let act = vec![100, 200, 300, 400, 500];
    assert_eq!(c.update("j".to_string(), &act, 0, 0), Err(KVCacheError::CapacityExceeded));
    assert_eq!(c.buffer().len(), 0);
}

#[test]
fn cache_update_evicts_above_threshold() {
    let mut c = KVCacheManager::new(100, 8);
    c.update("a".to_string(), &vec![100, 200, 300, 400, 500], 0, 0).unwrap();
    c.update("b".to_string(), &vec![600, 700, 800, 900, 950], 0, 0).unwrap();
    assert_eq!(c.get("a"), None);
    assert!(c.get("b").is_some());
    assert_eq!(c.monitoring().evictions, 1);
}

#[test]
fn prefetch_plan_and_stage() {
    let mut c = KVCacheManager::new(100, 100);
    c.update("job_1".to_string(), &vec![100], 0, 0).unwrap();
    let wanted = vec!["job_1".to_string(), "job_2".to_string(), "job_3".to_string()];
    assert_eq!(c.missing_jobs(&wanted), vec!["job_2".to_string(), "job_3".to_string()]);
    assert!(c.stage_prefetched("job_2".to_string(), vec![1, 2]));
    assert_eq!(c.missing_jobs(&wanted), vec!["job_3".to_string()]);
    assert!(!c.stage_prefetched("job_3".to_string(), vec![0; 98]));
}

#[test]
fn later_copy_is_dropped_not_first() {
    let mut data = block(1);
    data.extend(block(2));
    data.extend(block(1));
    let out = deduplicate_kvcache(&data);
    assert_eq!(&out[..BLOCK_SIZE], &block(1)[..]);
    assert_eq!(out.len(), 2 * BLOCK_SIZE);
}
