use cache_worker::codec::{read_stats_bytes, write_stats_bytes};
use cache_worker::digits::{fmt_i32, fmt_u64, parse_i32, parse_u64};
use cache_worker::locks::{acquire_task_fs_lock, is_fs_lock_expired, DirEntryInfo, MtimeProbe};
use cache_worker::queue::{CacheEvent, CacheWorkerQueue};
use cache_worker::recompress::recompress;
use cache_worker::scan::{
    classify_bucket_file, classify_root_file, pair_bucket, BucketFileClass, CacheEntry,
    CandidateFile, FileMeta,
};
use cache_worker::stats::ModuleCacheStatistics;
use cache_worker::sweep::{compute_cut, sort_entries, sweep_plan};

const DAY_SECS: u64 = 86400;

fn stats(usages: u64, level: i32) -> ModuleCacheStatistics {
    ModuleCacheStatistics {
        usages,
        compression_level: level,
    }
}

// ---------- decimal text ----------

#[test]
fn fmt_u64_values() {
    assert_eq!(fmt_u64(0), b"0".to_vec());
    assert_eq!(fmt_u64(9), b"9".to_vec());
    assert_eq!(fmt_u64(1234567890), b"1234567890".to_vec());
    assert_eq!(fmt_u64(u64::MAX), b"18446744073709551615".to_vec());
}

#[test]
fn parse_u64_values() {
    assert_eq!(parse_u64(&b"0".to_vec()), Some(0));
    assert_eq!(parse_u64(&b"18446744073709551615".to_vec()), Some(u64::MAX));
    assert_eq!(parse_u64(&b"18446744073709551616".to_vec()), None);
    assert_eq!(parse_u64(&b"".to_vec()), None);
    assert_eq!(parse_u64(&b"007".to_vec()), None);
    assert_eq!(parse_u64(&b"12a".to_vec()), None);
}

#[test]
fn i32_round_trip_values() {
    assert_eq!(fmt_i32(-1), b"-1".to_vec());
    assert_eq!(fmt_i32(19), b"19".to_vec());
    assert_eq!(parse_i32(&fmt_i32(i32::MIN)), Some(i32::MIN));
    assert_eq!(parse_i32(&fmt_i32(i32::MAX)), Some(i32::MAX));
    assert_eq!(parse_i32(&b"2147483648".to_vec()), None);
    assert_eq!(parse_i32(&b"-2147483649".to_vec()), None);
    assert_eq!(parse_i32(&b"-0".to_vec()), None);
}

// ---------- stats codec ----------

#[test]
fn stats_serialized_form() {
    let doc = write_stats_bytes(&stats(9, 1));
    assert_eq!(doc, b"usages = 9\n\"optimized-compression\" = 1\n".to_vec());
}

#[test]
fn stats_round_trip() {
    for &(u, l) in &[(0u64, 0i32), (1, 3), (9, 1), (u64::MAX, i32::MIN), (12345, -7)] {
        let doc = write_stats_bytes(&stats(u, l));
        let back = read_stats_bytes(&doc).expect("round trip must parse");
        assert_eq!(back.usages, u);
        assert_eq!(back.compression_level, l);
    }
}

#[test]
fn stats_empty_file_is_absent() {
    assert!(read_stats_bytes(&Vec::new()).is_none());
}

#[test]
fn stats_truncated_file_is_absent() {
    let doc = write_stats_bytes(&stats(9, 1));
    // cut inside the second key
    let cut = &doc[..doc.len() - 10];
    assert!(read_stats_bytes(&cut.to_vec()).is_none());
    // only the first line survives
    let first_line = b"usages = 9\n".to_vec();
    assert!(read_stats_bytes(&first_line).is_none());
}

#[test]
fn stats_unknown_keys_tolerated() {
    let doc = b"banner = hello\nusages = 3\n\"optimized-compression\" = -2\nrest = 1\n".to_vec();
    let s = read_stats_bytes(&doc).expect("known keys are present");
    assert_eq!(s.usages, 3);
    assert_eq!(s.compression_level, -2);
}

#[test]
fn stats_garbage_is_absent() {
    assert!(read_stats_bytes(&b"not a stats file at all".to_vec()).is_none());
    assert!(read_stats_bytes(&b"usages = 3\n".to_vec()).is_none());
    assert!(read_stats_bytes(&b"\"optimized-compression\" = 3\n".to_vec()).is_none());
    assert!(read_stats_bytes(&b"usages = ten\n\"optimized-compression\" = 1\n".to_vec()).is_none());
}

// ---------- stats transitions ----------

#[test]
fn cold_read_creates_default_stats() {
    // artifact exists, no stats: the handler starts from the default record
    // and bumps it once
    let mut s = ModuleCacheStatistics::default_with(3);
    assert_eq!(s.usages, 0);
    assert_eq!(s.compression_level, 3);
    s.bump_usages();
    assert_eq!(s.usages, 1);
    assert_eq!(s.compression_level, 3);
    // far below the threshold: no rewrite of the artifact
    assert!(!s.should_recompress(19, 10));
}

#[test]
fn bump_saturates() {
    let mut s = stats(u64::MAX, 1);
    s.bump_usages();
    assert_eq!(s.usages, u64::MAX);
}

#[test]
fn recompression_threshold_reached() {
    // baseline 1, optimized 19, threshold 10, starting from usages 9
    let mut s = stats(9, 1);
    s.bump_usages();
    assert_eq!(s.usages, 10);
    assert!(s.should_recompress(19, 10));
    // after the rewrite the re-read stats take the optimized level
    assert!(s.update_level_after_recompress(19));
    assert_eq!(s.compression_level, 19);
    assert_eq!(s.usages, 10);
}

#[test]
fn recompressed_artifact_left_alone() {
    // fully recompressed: a further burst of reads asks for nothing
    let mut s = stats(100, 19);
    s.bump_usages();
    assert!(!s.should_recompress(19, 10));
    // and a racing commit does not lower the level
    let mut t = stats(10, 21);
    assert!(!t.update_level_after_recompress(19));
    assert_eq!(t.compression_level, 21);
}

// ---------- lock protocol ----------

#[test]
fn lock_expiry_rules() {
    assert!(is_fs_lock_expired(MtimeProbe::Unreadable, 30, DAY_SECS));
    assert!(!is_fs_lock_expired(MtimeProbe::Elapsed { secs: 10 }, 30, DAY_SECS));
    assert!(is_fs_lock_expired(MtimeProbe::Elapsed { secs: 30 }, 30, DAY_SECS));
    // future mtimes are tolerated up to the skew limit
    assert!(!is_fs_lock_expired(MtimeProbe::InFuture { secs: 3600 }, 30, DAY_SECS));
    assert!(is_fs_lock_expired(
        MtimeProbe::InFuture { secs: DAY_SECS + 1 },
        30,
        DAY_SECS
    ));
}

fn entry(stem: &[u8], ext: Option<&[u8]>, is_dir: bool, mtime: MtimeProbe) -> DirEntryInfo {
    DirEntryInfo {
        stem: stem.to_vec(),
        ext: ext.map(|e| e.to_vec()),
        is_dir,
        mtime,
    }
}

#[test]
fn live_peer_lock_blocks_acquisition() {
    // a peer lock with a current mtime stands: no lock path comes back
    let entries = vec![
        entry(b"a", None, false, MtimeProbe::Elapsed { secs: 5 }),
        entry(b"a", Some(b"wip-9999"), false, MtimeProbe::Elapsed { secs: 0 }),
    ];
    assert!(acquire_task_fs_lock(&entries, &b"a".to_vec(), 4242, 600, DAY_SECS).is_none());
}

#[test]
fn expired_lock_does_not_block() {
    // the only sibling lock is older than the timeout: acquisition succeeds
    let entries = vec![
        entry(b"a", None, false, MtimeProbe::Elapsed { secs: 5 }),
        entry(b"a", Some(b"wip-9999"), false, MtimeProbe::Elapsed { secs: 601 }),
    ];
    let lock = acquire_task_fs_lock(&entries, &b"a".to_vec(), 4242, 600, DAY_SECS);
    assert_eq!(lock, Some(b"a.wip-4242".to_vec()));
}

#[test]
fn sequential_acquisitions_exclude_each_other() {
    // after one acquisition succeeds and its sentinel appears in the
    // listing, a second acquisition of the same task fails
    let stem = b"task".to_vec();
    let entries = vec![entry(b"task", None, false, MtimeProbe::Elapsed { secs: 5 })];
    let lock = acquire_task_fs_lock(&entries, &stem, 77, 600, DAY_SECS).expect("no lock yet");
    assert_eq!(lock, b"task.wip-77".to_vec());
    let with_lock = vec![
        entry(b"task", None, false, MtimeProbe::Elapsed { secs: 5 }),
        entry(b"task", Some(b"wip-77"), false, MtimeProbe::Elapsed { secs: 0 }),
    ];
    assert!(acquire_task_fs_lock(&with_lock, &stem, 78, 600, DAY_SECS).is_none());
}

#[test]
fn unrelated_entries_do_not_block() {
    let entries = vec![
        entry(b"b", Some(b"wip-1"), false, MtimeProbe::Elapsed { secs: 0 }),
        entry(b"a", Some(b"stats"), false, MtimeProbe::Elapsed { secs: 0 }),
        entry(b"a", Some(b"wip-1"), true, MtimeProbe::Elapsed { secs: 0 }),
    ];
    assert!(acquire_task_fs_lock(&entries, &b"a".to_vec(), 1, 600, DAY_SECS).is_some());
}

// ---------- classification ----------

#[test]
fn root_sweep_lock_is_skipped_while_fresh() {
    let fresh = entry(
        b".cleanup",
        Some(b"wip-31"),
        false,
        MtimeProbe::Elapsed { secs: 1 },
    );
    assert!(classify_root_file(&fresh, 3600, DAY_SECS));
    let stale = entry(
        b".cleanup",
        Some(b"wip-31"),
        false,
        MtimeProbe::Elapsed { secs: 7200 },
    );
    assert!(!classify_root_file(&stale, 3600, DAY_SECS));
    let other = entry(b"junk", Some(b"txt"), false, MtimeProbe::Elapsed { secs: 0 });
    assert!(!classify_root_file(&other, 3600, DAY_SECS));
}

#[test]
fn bucket_files_classified() {
    let artifact = entry(b"a", None, false, MtimeProbe::Elapsed { secs: 0 });
    assert!(classify_bucket_file(&artifact, 600, DAY_SECS) == BucketFileClass::ArtifactCandidate);
    let sidecar = entry(b"a", Some(b"stats"), false, MtimeProbe::Elapsed { secs: 0 });
    assert!(classify_bucket_file(&sidecar, 600, DAY_SECS) == BucketFileClass::StatsCandidate);
    let live = entry(b"a", Some(b"wip-3"), false, MtimeProbe::Elapsed { secs: 1 });
    assert!(classify_bucket_file(&live, 600, DAY_SECS) == BucketFileClass::ActiveLock);
    let dead = entry(b"a", Some(b"wip-3"), false, MtimeProbe::Elapsed { secs: 601 });
    assert!(classify_bucket_file(&dead, 600, DAY_SECS) == BucketFileClass::ExpiredLock);
    let stray = entry(b"junk", Some(b"txt"), false, MtimeProbe::Elapsed { secs: 0 });
    assert!(classify_bucket_file(&stray, 600, DAY_SECS) == BucketFileClass::Stray);
}

fn cand(path: &[u8], stem: &[u8], is_stats: bool, meta: Option<FileMeta>) -> CandidateFile {
    CandidateFile {
        path: path.to_vec(),
        stem: stem.to_vec(),
        is_stats,
        meta,
    }
}

fn meta(size: u64, mtime: Option<u64>) -> Option<FileMeta> {
    Some(FileMeta { size, mtime })
}

fn is_recognized(e: &CacheEntry, path: &[u8], mtime: u64, size: u64) -> bool {
    match e {
        CacheEntry::Recognized {
            path: p,
            mtime: m,
            size: s,
        } => p == &path.to_vec() && *m == mtime && *s == size,
        _ => false,
    }
}

fn is_unrecognized(e: &CacheEntry, path: &[u8], is_dir: bool) -> bool {
    match e {
        CacheEntry::Unrecognized { path: p, is_dir: d } => p == &path.to_vec() && *d == is_dir,
        _ => false,
    }
}

#[test]
fn pairing_takes_stats_mtime() {
    let cands = vec![
        cand(b"s/b/a", b"a", false, meta(100, Some(50))),
        cand(b"s/b/a.stats", b"a", true, meta(1, Some(70))),
    ];
    let entries = pair_bucket(&cands);
    assert_eq!(entries.len(), 1);
    // the stats mtime wins: reads refresh the sidecar, not the artifact
    assert!(is_recognized(&entries[0], b"s/b/a", 70, 100));
}

#[test]
fn pairing_falls_back_to_artifact_mtime() {
    let cands = vec![cand(b"s/b/a", b"a", false, meta(100, Some(50)))];
    let entries = pair_bucket(&cands);
    assert_eq!(entries.len(), 1);
    assert!(is_recognized(&entries[0], b"s/b/a", 50, 100));
    // an unreadable stats mtime marks the sidecar and keeps the artifact
    let cands = vec![
        cand(b"s/b/a", b"a", false, meta(100, Some(50))),
        cand(b"s/b/a.stats", b"a", true, meta(1, None)),
    ];
    let entries = pair_bucket(&cands);
    assert_eq!(entries.len(), 2);
    assert!(is_unrecognized(&entries[0], b"s/b/a.stats", false));
    assert!(is_recognized(&entries[1], b"s/b/a", 50, 100));
}

#[test]
fn pairing_unreadable_metadata_marks_both() {
    let cands = vec![
        cand(b"s/b/a", b"a", false, None),
        cand(b"s/b/a.stats", b"a", true, meta(1, Some(70))),
    ];
    let entries = pair_bucket(&cands);
    assert_eq!(entries.len(), 2);
    assert!(is_unrecognized(&entries[0], b"s/b/a.stats", false));
    assert!(is_unrecognized(&entries[1], b"s/b/a", false));
}

#[test]
fn orphan_stats_is_unrecognized() {
    // b.stats exists, b does not: the sweep classifies and deletes it
    let cands = vec![
        cand(b"s/b/a", b"a", false, meta(10, Some(50))),
        cand(b"s/b/b.stats", b"b", true, meta(1, Some(70))),
    ];
    let entries = pair_bucket(&cands);
    assert_eq!(entries.len(), 2);
    assert!(is_recognized(&entries[0], b"s/b/a", 50, 10));
    assert!(is_unrecognized(&entries[1], b"s/b/b.stats", false));
    // and a sweep with lax quotas still removes exactly the orphan
    let (retained, deleted) = sweep_plan(entries, 1 << 40, 1 << 20, 70, 70);
    assert_eq!(retained.len(), 1);
    assert_eq!(deleted.len(), 1);
    assert!(is_unrecognized(&deleted[0], b"s/b/b.stats", false));
}

// ---------- sweep ----------

fn rec(path: &[u8], mtime: u64, size: u64) -> CacheEntry {
    CacheEntry::Recognized {
        path: path.to_vec(),
        mtime,
        size,
    }
}

fn unrec(path: &[u8], is_dir: bool) -> CacheEntry {
    CacheEntry::Unrecognized {
        path: path.to_vec(),
        is_dir,
    }
}

#[test]
fn sort_puts_younger_first_and_unrecognized_last() {
    let entries = vec![
        unrec(b"junk", false),
        rec(b"old", 10, 1),
        rec(b"new", 30, 1),
        rec(b"mid", 20, 1),
    ];
    let sorted = sort_entries(entries);
    assert!(is_recognized(&sorted[0], b"new", 30, 1));
    assert!(is_recognized(&sorted[1], b"mid", 20, 1));
    assert!(is_recognized(&sorted[2], b"old", 10, 1));
    assert!(is_unrecognized(&sorted[3], b"junk", false));
}

#[test]
fn sweep_by_count() {
    // count soft limit 5, delete-to 60%: the walk remembers the index
    // where the count tier (3) is crossed and cuts there when the soft
    // limit is crossed
    let entries = vec![
        rec(b"t6", 6, 1),
        rec(b"t5", 5, 1),
        rec(b"t4", 4, 1),
        rec(b"t3", 3, 1),
        rec(b"t2", 2, 1),
        rec(b"t1", 1, 1),
    ];
    let cut = compute_cut(&entries, 1 << 40, 5, 70, 60);
    assert_eq!(cut, Some(2));
    let (retained, deleted) = sweep_plan(entries, 1 << 40, 5, 70, 60);
    assert_eq!(retained.len(), 2);
    assert!(is_recognized(&retained[0], b"t6", 6, 1));
    assert!(is_recognized(&retained[1], b"t5", 5, 1));
    assert_eq!(deleted.len(), 4);
    assert!(is_recognized(&deleted[0], b"t4", 4, 1));
    assert!(is_recognized(&deleted[3], b"t1", 1, 1));
}

#[test]
fn sweep_by_size_converges_below_low_tier() {
    // soft size limit 100, delete-to 60%: retained total must be <= 60
    let entries = vec![rec(b"a", 30, 50), rec(b"b", 20, 30), rec(b"c", 10, 40)];
    let cut = compute_cut(&entries, 100, 1 << 20, 60, 70);
    assert_eq!(cut, Some(1));
    let (retained, deleted) = sweep_plan(entries, 100, 1 << 20, 60, 70);
    assert_eq!(retained.len(), 1);
    assert!(is_recognized(&retained[0], b"a", 30, 50));
    assert_eq!(deleted.len(), 2);
}

#[test]
fn sweep_under_quota_deletes_nothing() {
    let entries = vec![rec(b"a", 30, 10), rec(b"b", 20, 10)];
    assert_eq!(compute_cut(&entries, 100, 10, 60, 60), None);
    let (retained, deleted) = sweep_plan(entries, 100, 10, 60, 60);
    assert_eq!(retained.len(), 2);
    assert!(deleted.is_empty());
}

#[test]
fn unrecognized_evicted_artifact_retained() {
    // one artifact and one stray junk.txt: the stray goes, the artifact
    // stays, whatever the quotas
    let entries = vec![rec(b"s/b/a", 30, 10), unrec(b"s/b/junk.txt", false)];
    let (retained, deleted) = sweep_plan(entries, 1 << 40, 1 << 20, 70, 70);
    assert_eq!(retained.len(), 1);
    assert!(is_recognized(&retained[0], b"s/b/a", 30, 10));
    assert_eq!(deleted.len(), 1);
    assert!(is_unrecognized(&deleted[0], b"s/b/junk.txt", false));
}

// ---------- recompression ----------

#[test]
fn recompress_preserves_content() {
    let content = b"some precompiled module bytes, repeated enough to compress \
                    some precompiled module bytes, repeated enough to compress"
        .to_vec();
    let stored = zstd::stream::encode_all(&content[..], 1).expect("encode");
    let rewritten = recompress(&stored, 19).expect("well-formed frame");
    let decoded = zstd::stream::decode_all(&rewritten[..]).expect("decode");
    assert_eq!(decoded, content);
}

#[test]
fn recompress_rejects_garbage() {
    assert!(recompress(&b"not a zstd frame".to_vec(), 19).is_none());
}

// ---------- worker queue ----------

#[test]
fn queue_is_fifo_and_lossy_when_full() {
    let mut q = CacheWorkerQueue::new(2);
    assert!(q.on_cache_get_async(b"a".to_vec()));
    assert!(q.on_cache_update_async(b"b".to_vec()));
    // full: the third event is dropped, not queued
    assert!(!q.on_cache_get_async(b"c".to_vec()));
    match q.pop_event() {
        Some(CacheEvent::OnCacheGet(p)) => assert_eq!(p, b"a".to_vec()),
        _ => panic!("expected the first event first"),
    }
    match q.pop_event() {
        Some(CacheEvent::OnCacheUpdate(p)) => assert_eq!(p, b"b".to_vec()),
        _ => panic!("expected the second event next"),
    }
    assert!(q.pop_event().is_none());
}

// ---------- end-to-end shaped scenarios over the model ----------

#[test]
fn trigger_recompression_full_path() {
    // usages 9 -> 10 crosses the threshold; the artifact is rewritten
    // decode-equal; the stats then carry the optimized level
    let doc = write_stats_bytes(&stats(9, 1));
    let mut s = read_stats_bytes(&doc).expect("stats parse");
    s.bump_usages();
    let written = write_stats_bytes(&s);
    assert_eq!(read_stats_bytes(&written).unwrap().usages, 10);
    assert!(s.should_recompress(19, 10));

    let content = b"module body module body module body".to_vec();
    let stored = zstd::stream::encode_all(&content[..], 1).expect("encode");
    let entries = vec![entry(b"a", None, false, MtimeProbe::Elapsed { secs: 500 })];
    let lock = acquire_task_fs_lock(&entries, &b"a".to_vec(), 31, 600, DAY_SECS);
    assert!(lock.is_some());
    let rewritten = recompress(&stored, 19).expect("frame");
    assert_eq!(
        zstd::stream::decode_all(&rewritten[..]).expect("decode"),
        content
    );
    let mut reread = read_stats_bytes(&written).unwrap();
    assert!(reread.update_level_after_recompress(19));
    let committed = write_stats_bytes(&reread);
    let fin = read_stats_bytes(&committed).unwrap();
    assert_eq!(fin.usages, 10);
    assert_eq!(fin.compression_level, 19);
}

#[test]
fn peer_lock_blocks_recompression() {
    // the counter is still bumped, but a fresh peer lock stops the rewrite
    let mut s = stats(9, 1);
    s.bump_usages();
    assert_eq!(s.usages, 10);
    assert!(s.should_recompress(19, 10));
    let entries = vec![
        entry(b"a", None, false, MtimeProbe::Elapsed { secs: 500 }),
        entry(b"a", Some(b"wip-9999"), false, MtimeProbe::Elapsed { secs: 0 }),
    ];
    assert!(acquire_task_fs_lock(&entries, &b"a".to_vec(), 31, 600, DAY_SECS).is_none());
    // nothing rewritten: the level stays where it was
    assert_eq!(s.compression_level, 1);
}

#[test]
fn root_cleanup_without_wip_extension_is_not_a_lock() {
    // only a wip-* extension marks the sweep lock; .cleanup with any other
    // extension is an ordinary stray file
    let odd = entry(
        b".cleanup",
        Some(b"txt"),
        false,
        MtimeProbe::Elapsed { secs: 0 },
    );
    assert!(!classify_root_file(&odd, 3600, DAY_SECS));
    let bare = entry(b".cleanup", None, false, MtimeProbe::Elapsed { secs: 0 });
    assert!(!classify_root_file(&bare, 3600, DAY_SECS));
}

#[test]
fn truncated_tail_without_final_newline_still_parses() {
    // dropping only the trailing newline leaves both key/value lines
    // complete, and the final unterminated line is still applied
    let doc = write_stats_bytes(&stats(9, 1));
    let cut = &doc[..doc.len() - 1];
    let s = read_stats_bytes(&cut.to_vec()).expect("both lines complete");
    assert_eq!(s.usages, 9);
    assert_eq!(s.compression_level, 1);
}
