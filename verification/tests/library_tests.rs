use std::hash::{Hash, Hasher};

use pidf::config::{verbose_runtime_logs_enabled, worker_thread_count};
use pidf::decimal::{parse_usize, u64_to_decimal};
use pidf::disk_cache::{
    judge_cached_dimensions, judge_cached_file_read, plan_cache_prune, CacheFileInfo, CachedFileRead,
    EvictionProgress, MAX_RENDER_CACHE_BYTES, MAX_RENDER_CACHE_FILE_AGE_SECS,
};
use pidf::loading::{library_candidates, local_pdfium_library_candidates, pdfium_load_error};
use pidf::keys::{memory_cache_key, render_cache_file_name, render_cache_file_name_for, session_id_for};
use pidf::normalize::{require_pages, resolve_render_target};
use pidf::page_cache::MemoryPageCache;
use pidf::scheduling::{plan_render_batch, superseded_requests, PendingRender};
use pidf::sessions::{PruneSchedule, SessionOwners, WorkerSessions};
use pidf::text::{eq_ignore_ascii_case, ensure_pdf_path, initial_pdf_path, is_pdf_extension, is_pdf_file};
use pidf::trace::trace_stage_line;

#[test]
fn decimal_text_of_numbers() {
    assert_eq!(u64_to_decimal(0), "0");
    assert_eq!(u64_to_decimal(7), "7");
    assert_eq!(u64_to_decimal(10), "10");
    assert_eq!(u64_to_decimal(12345), "12345");
    assert_eq!(u64_to_decimal(u64::MAX), "18446744073709551615");
}

#[test]
fn parse_usize_follows_from_str() {
    assert_eq!(parse_usize("42"), Some(42));
    assert_eq!(parse_usize("+7"), Some(7));
    assert_eq!(parse_usize("007"), Some(7));
    assert_eq!(parse_usize("0"), Some(0));
    assert_eq!(parse_usize(""), None);
    assert_eq!(parse_usize("+"), None);
    assert_eq!(parse_usize("-1"), None);
    assert_eq!(parse_usize("4a"), None);
    assert_eq!(parse_usize(" 4"), None);
    assert_eq!(parse_usize("++4"), None);
    for text in ["18446744073709551616", "99999999999999999999999", "12", "+0", "x"] {
        assert_eq!(parse_usize(text), text.parse::<usize>().ok(), "{text}");
    }
    assert_eq!(parse_usize(&usize::MAX.to_string()), Some(usize::MAX));
}

#[test]
fn decimal_round_trip() {
    for n in [0u64, 1, 9, 10, 99, 100, 65535, 1 << 40] {
        assert_eq!(parse_usize(&u64_to_decimal(n)), Some(n as usize));
    }
}

#[test]
fn pdf_file_names() {
    assert!(is_pdf_file("a.pdf"));
    assert!(is_pdf_file("/home/user/Report.PDF"));
    assert!(is_pdf_file("doc.Pdf"));
    assert!(is_pdf_file("archive.tar.pdf"));
    assert!(!is_pdf_file(".pdf"));
    assert!(!is_pdf_file("notes.txt"));
    assert!(!is_pdf_file("pdf"));
    assert!(!is_pdf_file("a.pdfx"));
    assert!(!is_pdf_file(""));
    assert!(!is_pdf_file("dir.pdf/.."));
    assert!(is_pdf_extension(Some("pDf")));
    assert!(!is_pdf_extension(Some("pd")));
    assert!(!is_pdf_extension(None));
}

#[test]
fn ascii_case_insensitive_comparison() {
    assert!(eq_ignore_ascii_case("Hello", "hELLO"));
    assert!(eq_ignore_ascii_case("", ""));
    assert!(!eq_ignore_ascii_case("abc", "abd"));
    assert!(!eq_ignore_ascii_case("abc", "ab"));
    assert!(!eq_ignore_ascii_case("é", "É"));
    assert!(!eq_ignore_ascii_case("[", "{"));
}

#[test]
fn pdf_path_checks() {
    assert_eq!(ensure_pdf_path("/tmp/a.pdf", true), Ok(()));
    assert_eq!(ensure_pdf_path("/tmp/a.pdf", false), Err("PDF path does not exist.".to_owned()));
    assert_eq!(ensure_pdf_path("/tmp/a.txt", true), Err("Selected file is not a PDF.".to_owned()));
    assert_eq!(ensure_pdf_path("/tmp/a.txt", false), Err("PDF path does not exist.".to_owned()));
    assert_eq!(initial_pdf_path(Some("/x/y.pdf".to_owned()), true), Some("/x/y.pdf".to_owned()));
    assert_eq!(initial_pdf_path(Some("/x/y.pdf".to_owned()), false), None);
    assert_eq!(initial_pdf_path(Some("/x/y.png".to_owned()), true), None);
    assert_eq!(initial_pdf_path(None, true), None);
}

#[test]
fn environment_settings() {
    assert!(verbose_runtime_logs_enabled(Some("1")));
    assert!(!verbose_runtime_logs_enabled(Some("true")));
    assert!(!verbose_runtime_logs_enabled(Some("11")));
    assert!(!verbose_runtime_logs_enabled(None));

    assert_eq!(worker_thread_count(Some("3"), None), 3);
    assert_eq!(worker_thread_count(Some("64"), Some(4)), 64);
    assert_eq!(worker_thread_count(Some("0"), Some(6)), 6);
    assert_eq!(worker_thread_count(Some("many"), Some(6)), 6);
    assert_eq!(worker_thread_count(None, Some(1)), 2);
    assert_eq!(worker_thread_count(None, Some(16)), 8);
    assert_eq!(worker_thread_count(None, None), 4);
}

#[test]
fn render_targets() {
    assert_eq!(require_pages(0), Err("PDF has no pages.".to_owned()));
    assert_eq!(require_pages(5), Ok(5));
    assert!(resolve_render_target(0, 1, 800).is_err());
    let t = resolve_render_target(10, 0, 100).unwrap();
    assert_eq!((t.page_number, t.target_width), (1, 240));
    let t = resolve_render_target(10, 12, 3000).unwrap();
    assert_eq!((t.page_number, t.target_width), (10, 2200));
    let t = resolve_render_target(10, 4, 1000).unwrap();
    assert_eq!((t.page_number, t.target_width), (4, 1000));
}

#[test]
fn names_and_keys() {
    assert_eq!(memory_cache_key("s1", 3, 800), "s1:3:800");
    assert_eq!(memory_cache_key("", 0, 0), ":0:0");
    assert_eq!(session_id_for(7), "s7");
    assert_eq!(session_id_for(1), "s1");
    assert_eq!(render_cache_file_name(2, 800, 123), "p2_w800_123.jpg");
}

#[test]
fn disk_cache_file_name_uses_default_hasher() {
    let path = "/docs/book.pdf";
    let mut hasher = std::collections::hash_map::DefaultHasher::new();
    path.hash(&mut hasher);
    1_700_000_000u64.hash(&mut hasher);
    5u16.hash(&mut hasher);
    960u16.hash(&mut hasher);
    let key = hasher.finish();
    assert_eq!(
        render_cache_file_name_for(path, 1_700_000_000, 5, 960),
        format!("p5_w960_{}.jpg", key)
    );
    assert_ne!(
        render_cache_file_name_for(path, 1_700_000_001, 5, 960),
        render_cache_file_name_for(path, 1_700_000_000, 5, 960)
    );
}

#[test]
fn page_cache_replaces_and_bounds() {
    let mut cache: MemoryPageCache<u32> = MemoryPageCache::new(2);
    cache.put("a".to_owned(), 1);
    cache.put("a".to_owned(), 2);
    cache.put("b".to_owned(), 3);
    assert_eq!(cache.get("a"), Some(2));
    cache.put("c".to_owned(), 4); // evicts "b": "a" was used more recently
    assert_eq!(cache.get("b"), None);
    assert_eq!(cache.get("a"), Some(2));
    assert_eq!(cache.get("c"), Some(4));
    cache.clear();
    assert_eq!(cache.get("a"), None);
    assert_eq!(cache.get("c"), None);

    let mut none: MemoryPageCache<u32> = MemoryPageCache::new(0);
    none.put("a".to_owned(), 1);
    assert_eq!(none.get("a"), None);
}

fn request(session: &str, page: u16, width: u16, priority: u16) -> PendingRender {
    PendingRender {
        session_id: session.to_owned(),
        page_number: page,
        target_width: width,
        render_priority: priority,
    }
}

#[test]
fn render_batch_dedup_and_priority() {
    let batch = vec![
        request("s1", 1, 800, 50),  // superseded by 3
        request("s1", 2, 800, 10),
        request("s2", 1, 800, 10),
        request("s1", 1, 800, 70),
        request("s1", 1, 640, 5),
        request("s1", 2, 800, 10),  // supersedes 1
    ];
    assert_eq!(superseded_requests(&batch), vec![true, true, false, false, false, false]);
    let plan = plan_render_batch(&batch);
    assert_eq!(plan.superseded, vec![true, true, false, false, false, false]);
    assert_eq!(plan.execution_order, vec![4, 2, 5, 3]);

    let empty = plan_render_batch(&Vec::new());
    assert!(empty.superseded.is_empty() && empty.execution_order.is_empty());
}

fn file(size: u64, age_secs: u64, modified_millis: u128) -> CacheFileInfo {
    CacheFileInfo { size, age_secs, modified_millis }
}

#[test]
fn prune_plan_size_limit() {
    // three files of 230 bytes against a 460-byte limit
    let files = vec![file(230, 5, 3000), file(230, 5, 1000), file(230, 5, 2000)];
    let plan = plan_cache_prune(&files, 460, u64::MAX);
    assert!(plan.stale.is_empty());
    assert_eq!(plan.retained_total, 690);
    assert_eq!(plan.eviction_order, vec![1, 2, 0]);

    let mut progress = EvictionProgress::new(plan.retained_total, 460);
    let mut removed = Vec::new();
    for index in plan.eviction_order {
        if !progress.needs_eviction() {
            break;
        }
        progress.record_removal(files[index].size, true);
        removed.push(index);
    }
    assert_eq!(removed, vec![1]);
    assert!(progress.total_bytes <= 460);
}

#[test]
fn prune_plan_age_limit() {
    let files = vec![file(64, 1, 10), file(64, 0, 20)];
    let plan = plan_cache_prune(&files, u64::MAX, 0);
    assert_eq!(plan.stale, vec![0]);
    assert_eq!(plan.retained_total, 64);
    assert!(plan.eviction_order.is_empty());

    let defaults = plan_cache_prune(&files, MAX_RENDER_CACHE_BYTES, MAX_RENDER_CACHE_FILE_AGE_SECS);
    assert!(defaults.stale.is_empty());
    assert_eq!(defaults.retained_total, 128);
}

#[test]
fn prune_plan_saturates_and_keeps_ties_in_order() {
    let files = vec![file(u64::MAX, 0, 7), file(10, 0, 7), file(1, 0, 3)];
    let plan = plan_cache_prune(&files, 100, 60);
    assert_eq!(plan.retained_total, u64::MAX);
    assert_eq!(plan.eviction_order, vec![2, 0, 1]);
}

#[test]
fn eviction_progress_on_failures() {
    let mut progress = EvictionProgress::new(500, 100);
    assert!(progress.needs_eviction());
    progress.record_removal(300, false);
    assert_eq!(progress.total_bytes, 500);
    progress.record_removal(300, true);
    assert_eq!(progress.total_bytes, 200);
    progress.record_removal(900, true);
    assert_eq!(progress.total_bytes, 0);
    assert!(!progress.needs_eviction());
}

#[test]
fn cached_file_judgements() {
    assert!(matches!(judge_cached_file_read(None), CachedFileRead::Unreadable));
    assert!(matches!(judge_cached_file_read(Some(0)), CachedFileRead::Discard));
    assert!(matches!(judge_cached_file_read(Some(12)), CachedFileRead::CheckDimensions));
    assert_eq!(judge_cached_dimensions(Some((800, 1131))), Some((800, 1131)));
    assert_eq!(judge_cached_dimensions(Some((0, 10))), None);
    assert_eq!(judge_cached_dimensions(Some((10, 0))), None);
    assert_eq!(judge_cached_dimensions(None), None);
}

#[test]
fn worker_sessions_open_and_close() {
    let mut sessions: WorkerSessions<u8> = WorkerSessions::new();
    assert_eq!(sessions.next_session_number(), 1);
    let first = sessions.open_session(10, "/a.pdf".to_owned());
    let second = sessions.open_session(20, "/b.pdf".to_owned());
    assert_eq!(first, "s1");
    assert_eq!(second, "s2");
    assert_eq!(sessions.next_session_number(), 3);
    let (doc, path) = sessions.session("s1").unwrap();
    assert_eq!((*doc, path.as_str()), (10, "/a.pdf"));
    sessions.close_session("s1");
    assert_eq!(sessions.session("s1").err(), Some("Unknown or closed PDF session.".to_owned()));
    assert!(sessions.session("s2").is_ok());
    sessions.close_session("s9");
    let third = sessions.open_session(30, "/c.pdf".to_owned());
    assert_eq!(third, "s3");
}

#[test]
fn prune_schedule_every_forty_renders() {
    let mut schedule = PruneSchedule::new();
    for round in 0..3 {
        for _ in 0..39 {
            assert!(!schedule.record_successful_render(), "round {round}");
        }
        assert!(schedule.record_successful_render());
    }
}

#[test]
fn session_owners_round_robin() {
    let mut owners = SessionOwners::new(3);
    assert_eq!(owners.num_workers(), 3);
    let picks: Vec<usize> = (0..7).map(|_| owners.pick_worker()).collect();
    assert_eq!(picks, vec![0, 1, 2, 0, 1, 2, 0]);
    owners.record_owner("s1".to_owned(), 2);
    assert_eq!(owners.owner_of("s1"), Ok(2));
    assert_eq!(owners.owner_of("s2"), Err("Unknown or closed PDF session.".to_owned()));
    assert_eq!(owners.release("s1"), Ok(2));
    assert_eq!(owners.release("s1"), Err("Unknown or closed PDF session.".to_owned()));
    assert!(owners.owner_of("s1").is_err());
}

#[test]
fn trace_lines() {
    assert_eq!(
        trace_stage_line("open", "12:00", Some(35), Some("{\"a\":1}")),
        "[PiDF][stage] ts=12:00 elapsed_ms=35 stage=open details={\"a\":1}"
    );
    assert_eq!(
        trace_stage_line("render", "t", None, None),
        "[PiDF][stage] ts=t elapsed_ms=n/a stage=render details={}"
    );
}

#[test]
fn pdfium_load_error_messages() {
    assert_eq!(
        pdfium_load_error(&Vec::new(), "NotFound"),
        "Failed to load system PDFium library: NotFound"
    );
    assert_eq!(
        pdfium_load_error(&vec!["a (E1)".to_owned()], "E0"),
        "Failed to load local PDFium library candidates [a (E1)] and failed to load system PDFium library: E0"
    );
    assert_eq!(
        pdfium_load_error(&vec!["a (E1)".to_owned(), "b (E2)".to_owned(), "c".to_owned()], "E0"),
        "Failed to load local PDFium library candidates [a (E1); b (E2); c] and failed to load system PDFium library: E0"
    );
}

#[test]
fn pdfium_library_candidates() {
    let candidates = library_candidates("libpdfium.so");
    assert_eq!(
        candidates,
        vec![
            vec!["pdfium".to_owned(), "lib".to_owned(), "libpdfium.so".to_owned()],
            vec!["src-tauri".to_owned(), "pdfium".to_owned(), "lib".to_owned(), "libpdfium.so".to_owned()],
            vec!["..".to_owned(), "src-tauri".to_owned(), "pdfium".to_owned(), "lib".to_owned(), "libpdfium.so".to_owned()],
        ]
    );
    let local = local_pdfium_library_candidates();
    assert_eq!(local.len(), 3);
    let name = local[0][2].clone();
    assert!(!name.is_empty());
    assert!(name.contains("pdfium"));
    assert_eq!(local, library_candidates(&name));
}

#[test]
fn cache_keys_and_file_names_never_collide() {
    assert_ne!(memory_cache_key("a:1", 2, 3), memory_cache_key("a", 12, 3));
    assert_ne!(memory_cache_key("a:1", 2, 3), memory_cache_key("a", 1, 23));
    assert_eq!(memory_cache_key("a:1", 2, 3), "a:1:2:3");
    assert_ne!(render_cache_file_name(1, 23, 4), render_cache_file_name(12, 3, 4));
    assert_ne!(render_cache_file_name(1, 2, 34), render_cache_file_name(1, 23, 4));
    assert_ne!(session_id_for(1), session_id_for(11));
}

#[test]
fn page_cache_put_existing_key_evicts_nothing() {
    let mut cache: MemoryPageCache<u32> = MemoryPageCache::new(2);
    cache.put("a".to_owned(), 1);
    cache.put("b".to_owned(), 2);
    cache.put("a".to_owned(), 3);
    assert_eq!(cache.get("b"), Some(2));
    assert_eq!(cache.get("a"), Some(3));
}
