use vid_dup_finder_lib::{HashCreationErrorKind, VideoHash, VideoStats};
use video_hash_filesystem_cache::cache_entry::{CacheEntry, CachedVideoData};
use video_hash_filesystem_cache::errors::{StoreErrorKind, VdfCacheError};
use video_hash_filesystem_cache::file_projection::FileProjection;
use video_hash_filesystem_cache::fs_path::FsPath;
use video_hash_filesystem_cache::video_hash_filesystem_cache::{
    UpdateDecision, VideoHashFilesystemCache,
};

fn fsp(parts: &[&str]) -> FsPath {
    FsPath::from_segments(parts.iter().map(|s| s.to_string()).collect())
}

fn success_entry() -> CacheEntry {
    CacheEntry(Ok(CachedVideoData { hash: VideoHash::default(), stats: VideoStats::default() }))
}

fn failure_entry() -> CacheEntry {
    CacheEntry(Err(HashCreationErrorKind::VideoLength(std::path::PathBuf::from("x"))))
}

#[test]
fn fetch_on_empty_cache_is_key_missing() {
    let c = VideoHashFilesystemCache::new(100);
    let p = fsp(&["/", "videos", "a.mp4"]);
    match c.fetch(&p) {
        Err(VdfCacheError::CacheErrror(StoreErrorKind::KeyMissing(q))) => assert_eq!(q, p),
        _ => panic!("expected KeyMissing"),
    }
}

#[test]
fn stored_success_is_fetched_back() {
    let mut c = VideoHashFilesystemCache::new(100);
    let p = fsp(&["/", "videos", "a.mp4"]);
    c.store_produced(&p, 7, success_entry());
    let h = c.fetch(&p).unwrap();
    assert_eq!(h, VideoHash::default());
    let s = c.fetch_stats(&p).unwrap();
    assert_eq!(s, VideoStats::default());
}

#[test]
fn stored_failure_is_fetched_as_its_cause() {
    let mut c = VideoHashFilesystemCache::new(100);
    let p = fsp(&["/", "videos", "a.mp4"]);
    c.store_produced(&p, 7, failure_entry());
    assert!(matches!(
        c.fetch(&p),
        Err(VdfCacheError::CreateHashError(HashCreationErrorKind::VideoLength(_)))
    ));
}

#[test]
fn staleness_rule_scenarios() {
    let mut c = VideoHashFilesystemCache::new(100);
    let p = fsp(&["/", "videos", "a.mp4"]);
    // Nothing cached: anything on disk must be recomputed, nothing on
    // disk must be evicted.
    assert_eq!(c.decide_update(&p, Some(7)), UpdateDecision::Refresh);
    assert_eq!(c.decide_update(&p, None), UpdateDecision::Evict);
    c.store_produced(&p, 7, success_entry());
    // An entry recorded at the file's current time is served as it
    // stands: no producer call happens for it.
    assert_eq!(c.decide_update(&p, Some(7)), UpdateDecision::ServeCached);
    // A differing time means stale; a vanished file means evict.
    assert_eq!(c.decide_update(&p, Some(8)), UpdateDecision::Refresh);
    assert_eq!(c.decide_update(&p, None), UpdateDecision::Evict);
}

#[test]
fn all_cached_paths_lists_successes_only() {
    let mut c = VideoHashFilesystemCache::new(100);
    let a = fsp(&["/", "videos", "a.mp4"]);
    let b = fsp(&["/", "videos", "b.mp4"]);
    c.store_produced(&a, 1, success_entry());
    c.store_produced(&b, 2, failure_entry());
    let paths = c.all_cached_paths();
    assert_eq!(paths.len(), 1);
    assert_eq!(paths[0], a);
    // The failure is still stored, just not listed.
    assert!(matches!(c.fetch(&b), Err(VdfCacheError::CreateHashError(_))));
}

#[test]
fn evict_removes_the_entry() {
    let mut c = VideoHashFilesystemCache::new(100);
    let p = fsp(&["/", "videos", "a.mp4"]);
    c.store_produced(&p, 1, success_entry());
    assert_eq!(c.all_cached_paths().len(), 1);
    c.evict(&p);
    assert_eq!(c.all_cached_paths().len(), 0);
    assert!(matches!(c.fetch(&p), Err(VdfCacheError::CacheErrror(StoreErrorKind::KeyMissing(_)))));
}

#[test]
fn fetch_update_of_vanished_file_evicts_and_returns_none() {
    let mut c = VideoHashFilesystemCache::new(100);
    let p = fsp(&["/", "surely_not_an_existing_dir_0b1c2d", "a.mp4"]);
    c.store_produced(&p, 1, success_entry());
    let r = c.fetch_update(&p).unwrap();
    assert!(r.is_none());
    assert_eq!(c.all_cached_paths().len(), 0);
}

#[test]
fn fetch_update_produces_and_then_serves_from_cache() {
    let mut c = VideoHashFilesystemCache::new(100);
    // This file exists but is no video: the producer's classified
    // failure is cached as a negative entry.
    let p = fsp(&["/", "etc", "hostname"]);
    let r1 = c.fetch_update(&p).unwrap();
    assert!(matches!(r1, Some(Err(_))));
    assert_eq!(c.entry_list().len(), 1);
    // Unchanged file: the second call serves the recorded outcome from
    // the cache instead of producing again.
    let r2 = c.fetch_update(&p).unwrap();
    assert!(matches!(r2, Some(Err(_))));
    assert_eq!(c.entry_list().len(), 1);
    // A failure-cached path is not listed among the cached hashes.
    assert_eq!(c.all_cached_paths().len(), 0);
}

#[test]
fn update_using_fs_evicts_vanished_cached_paths() {
    let mut c = VideoHashFilesystemCache::new(100);
    let gone = fsp(&["/", "surely_not_an_existing_dir_0b1c2d", "a.mp4"]);
    c.store_produced(&gone, 1, success_entry());
    let mut proj = FileProjection::new(
        vec![fsp(&["/", "surely_not_an_existing_dir_0b1c2d"])],
        vec![],
        vec![],
    )
    .unwrap();
    proj.project_using_list(&vec![]).unwrap();
    let errs = c.update_using_fs(&proj).unwrap();
    assert!(errs.is_empty());
    // The previously cached path was still in scope, no longer exists on
    // disk, and so is gone from the cache afterwards.
    assert_eq!(c.all_cached_paths().len(), 0);
}

#[test]
fn update_using_fs_leaves_out_of_scope_entries_alone() {
    let mut c = VideoHashFilesystemCache::new(100);
    let kept = fsp(&["/", "elsewhere", "b.mp4"]);
    c.store_produced(&kept, 3, success_entry());
    let mut proj = FileProjection::new(
        vec![fsp(&["/", "surely_not_an_existing_dir_0b1c2d"])],
        vec![],
        vec![],
    )
    .unwrap();
    proj.project_using_list(&vec![]).unwrap();
    let errs = c.update_using_fs(&proj).unwrap();
    assert!(errs.is_empty());
    assert_eq!(c.all_cached_paths().len(), 1);
    assert_eq!(c.all_cached_paths()[0], kept);
}

#[test]
fn update_using_fs_reports_producer_failures_nonfatally() {
    let mut c = VideoHashFilesystemCache::new(100);
    let existing = fsp(&["/", "etc", "hostname"]);
    let mut proj = FileProjection::new(vec![existing.clone()], vec![], vec![]).unwrap();
    proj.project_using_list(&vec![existing.clone()]).unwrap();
    let errs = c.update_using_fs(&proj).unwrap();
    assert_eq!(errs.len(), 1);
    assert!(matches!(errs[0], VdfCacheError::CreateHashError(_)));
    // The failure was cached, so nothing is listed as a hash.
    assert_eq!(c.all_cached_paths().len(), 0);
}

#[test]
fn autosave_counter_crosses_threshold_and_resets() {
    let mut c = VideoHashFilesystemCache::new(2);
    let a = fsp(&["/", "videos", "a.mp4"]);
    let b = fsp(&["/", "videos", "b.mp4"]);
    assert!(!c.autosave_due());
    c.store_produced(&a, 1, success_entry());
    assert!(!c.autosave_due());
    c.store_produced(&b, 1, success_entry());
    assert!(c.autosave_due());
    c.mark_saved();
    assert!(!c.autosave_due());
    // Evicting a present entry counts as a mutation too.
    c.evict(&a);
    c.evict(&a);
    assert_eq!(c.entry_list().len(), 1);
}

#[test]
fn from_entries_keeps_the_last_record_per_key() {
    let p = fsp(&["/", "videos", "a.mp4"]);
    let list = vec![(p.clone(), 1, failure_entry()), (p.clone(), 2, success_entry())];
    let c = VideoHashFilesystemCache::from_entries(100, &list);
    assert_eq!(c.entry_list().len(), 1);
    assert_eq!(c.entry_list()[0].1.mtime, 2);
    assert_eq!(c.fetch(&p).unwrap(), VideoHash::default());
}

#[test]
fn apply_update_follows_the_staleness_decision() {
    let mut c = VideoHashFilesystemCache::new(100);
    let p = fsp(&["/", "videos", "a.mp4"]);
    c.store_produced(&p, 7, success_entry());
    // Nothing found on disk: evicted, nothing returned.
    let r = c.apply_update(&p, None);
    assert!(r.is_none());
    assert_eq!(c.entry_list().len(), 0);
    // Missing entry with a probed time: the producer runs (and here
    // fails, the path being no video) and its outcome is stored at that
    // time.
    let gone = fsp(&["/", "surely_not_an_existing_dir_0b1c2d", "b.mp4"]);
    let r2 = c.apply_update(&gone, Some(5));
    assert!(matches!(r2, Some(Err(_))));
    assert_eq!(c.entry_list().len(), 1);
    assert_eq!(c.entry_list()[0].1.mtime, 5);
    // Fresh entry: served as stored, cache untouched.
    let r3 = c.apply_update(&gone, Some(5));
    assert!(matches!(r3, Some(Err(_))));
    assert_eq!(c.entry_list().len(), 1);
    assert_eq!(c.entry_list()[0].1.mtime, 5);
}

#[test]
fn compute_update_set_unions_cached_in_scope_and_projected() {
    let mut c = VideoHashFilesystemCache::new(100);
    let in_scope = fsp(&["/", "videos", "a.mp4"]);
    let out_of_scope = fsp(&["/", "elsewhere", "o.mp4"]);
    let failed = fsp(&["/", "videos", "f.mp4"]);
    c.store_produced(&in_scope, 1, success_entry());
    c.store_produced(&out_of_scope, 1, success_entry());
    c.store_produced(&failed, 1, failure_entry());
    let mut proj =
        FileProjection::new(vec![fsp(&["/", "videos"])], vec![], vec![]).unwrap();
    let newly = fsp(&["/", "videos", "n.mp4"]);
    proj.project_using_list(&vec![in_scope.clone(), newly.clone()]).unwrap();
    let set = c.compute_update_set(&proj);
    // The in-scope success (also projected, but listed once) and the
    // newly projected path; neither the out-of-scope success nor the
    // failure-cached path.
    assert_eq!(set.len(), 2);
    assert!(set.contains(&in_scope));
    assert!(set.contains(&newly));
}

#[test]
fn replacing_an_entry_keeps_one_record_per_key() {
    let mut c = VideoHashFilesystemCache::new(100);
    let p = fsp(&["/", "videos", "a.mp4"]);
    c.store_produced(&p, 1, failure_entry());
    c.store_produced(&p, 2, success_entry());
    assert_eq!(c.entry_list().len(), 1);
    assert_eq!(c.fetch(&p).unwrap(), VideoHash::default());
}
