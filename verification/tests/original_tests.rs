use pidf::config::worker_thread_count;
use pidf::normalize::{normalize_page_number, normalize_render_priority, normalize_target_width};
use pidf::page_cache::MemoryPageCache;

#[derive(Clone, Debug)]
struct PdfRenderedPage {
    data: Vec<u8>,
    width: f32,
    height: f32,
    mime: String,
}

fn page(n: u8) -> PdfRenderedPage {
    PdfRenderedPage {
        data: vec![n],
        width: 100.0,
        height: 141.0,
        mime: "image/jpeg".to_owned(),
    }
}

#[test]
fn normalization_clamps_to_expected_ranges() {
    assert_eq!(normalize_page_number(0, 0), 1);
    assert_eq!(normalize_page_number(0, 10), 1);
    assert_eq!(normalize_page_number(999, 10), 10);

    assert_eq!(normalize_target_width(0), 240);
    assert_eq!(normalize_target_width(4096), 2200);

    assert_eq!(normalize_render_priority(None), 100);
    assert_eq!(normalize_render_priority(Some(5000)), 4096);
}

#[test]
fn memory_cache_lru_eviction() {
    let mut cache = MemoryPageCache::new(3);

    cache.put("a".into(), page(1));
    cache.put("b".into(), page(2));
    cache.put("c".into(), page(3));
    cache.put("d".into(), page(4)); // evicts "a"

    assert!(cache.get("a").is_none());
    assert!(cache.get("b").is_some());
    assert!(cache.get("c").is_some());
    assert!(cache.get("d").is_some());
}

#[test]
fn memory_cache_lru_reorder_on_get() {
    let mut cache = MemoryPageCache::new(3);

    cache.put("a".into(), page(1));
    cache.put("b".into(), page(2));
    cache.put("c".into(), page(3));

    // Access "a" → moves to back, "b" becomes oldest
    cache.get("a");

    cache.put("d".into(), page(4)); // should evict "b", not "a"

    assert!(cache.get("a").is_some());
    assert!(cache.get("b").is_none());
    assert!(cache.get("c").is_some());
    assert!(cache.get("d").is_some());
}

#[test]
fn worker_thread_count_respects_env() {
    // The environment variable is read by the caller; its value is handed in.
    let count = worker_thread_count(Some("3"), Some(6));
    assert!(count >= 1, "worker_thread_count should be at least 1, got {count}");
    assert_eq!(count, 3);
    let fallback = worker_thread_count(None, Some(6));
    assert!(fallback >= 1, "worker_thread_count should be at least 1, got {fallback}");
}
