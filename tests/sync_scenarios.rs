use orchestra_sync::baseline::{build_post_sync_baselines, held_conflict_paths};
use orchestra_sync::content::hash_content;
use orchestra_sync::device::{compute_device_diff, device_paths_to_hash};
use orchestra_sync::executor::{ExecMode, FileOp, Side, Step, StepOutcome, SyncRun};
use orchestra_sync::model::{
    AppError, CachedFileHash, ConflictResolution, ConflictType, DiffAction, DiffDirection, DiffEntry,
    DiffResult, FileBaseline, FileStat, FileState, ProgressEvent, Resolution, Track,
};
use orchestra_sync::one_way::{compute_one_way_diff, one_way_paths_to_hash};
use orchestra_sync::two_way::compute_two_way_diff;

fn stat(rel: &str, size: u64, mtime: i64, hash: Option<&str>) -> FileStat {
    FileStat { relative_path: rel.to_string(), size, modified: mtime, hash: hash.map(|h| h.to_string()) }
}

fn state(rel: &str, content: &[u8], mtime: i64) -> FileState {
    FileState { relative_path: rel.to_string(), hash: hash_content(content), modified: mtime, size: content.len() as u64 }
}

fn track(rel: &str, size: u64, mtime: i64, hash: Option<&str>) -> Track {
    Track {
        id: None,
        file_path: format!("/music/{}", rel),
        relative_path: rel.to_string(),
        library_root: "/music".to_string(),
        title: None,
        artist: None,
        album_artist: None,
        album: None,
        track_number: None,
        disc_number: None,
        year: None,
        genre: None,
        format: "flac".to_string(),
        file_size: size,
        modified_at: mtime,
        hash: hash.map(|h| h.to_string()),
    }
}

fn cached(rel: &str, hash: &str, size: u64, mtime: i64) -> CachedFileHash {
    CachedFileHash { relative_path: rel.to_string(), hash: hash.to_string(), file_size: size, modified_at: mtime }
}

fn add_entry(rel: &str, size: u64) -> DiffEntry {
    DiffEntry {
        relative_path: rel.to_string(),
        action: DiffAction::Add,
        direction: DiffDirection::SourceToTarget,
        source_size: Some(size),
        target_size: None,
        source_hash: None,
        target_hash: None,
        source_modified: Some(100),
        target_modified: None,
    }
}

fn diff_of(entries: Vec<DiffEntry>) -> DiffResult {
    DiffResult {
        profile_id: "p".to_string(),
        total_add: entries.len(),
        entries,
        total_remove: 0,
        total_update: 0,
        total_conflict: 0,
        total_unchanged: 0,
        bytes_to_transfer: 0,
    }
}

#[test]
fn one_way_add_creates_nested_file() {
    let source = vec![stat("a/b/t.flac", 1, 100, None)];
    let d = compute_one_way_diff("p", &source, &vec![], &vec![]).unwrap();
    assert_eq!(d.total_add, 1);
    assert_eq!(d.entries.len(), 1);
    let e = &d.entries[0];
    assert_eq!(e.relative_path, "a/b/t.flac");
    assert_eq!(e.action, DiffAction::Add);
    assert_eq!(e.direction, DiffDirection::SourceToTarget);
    assert_eq!(e.source_size, Some(1));
    assert_eq!(d.bytes_to_transfer, 1);
    let mut run = SyncRun::new(&d, ExecMode::OneWay, &vec![], "/target", vec![]);
    match run.step(false, true) {
        Step::Perform { op: FileOp::Copy { from: Side::Source, rel }, .. } => assert_eq!(rel, "a/b/t.flac"),
        other => panic!("unexpected step {:?}", other),
    }
}

#[test]
fn one_way_unchanged_despite_mtime_drift() {
    let h = hash_content(b"hello");
    let plain_src = vec![stat("t.flac", 5, 1000, None)];
    let plain_tgt = vec![stat("t.flac", 5, 2000, None)];
    let wanted = one_way_paths_to_hash(&plain_src, &plain_tgt, &vec![]);
    assert_eq!(wanted, vec!["t.flac".to_string()]);
    let source = vec![stat("t.flac", 5, 1000, Some(&h))];
    let target = vec![stat("t.flac", 5, 2000, Some(&h))];
    let d = compute_one_way_diff("p", &source, &target, &vec![]).unwrap();
    assert_eq!(d.total_unchanged, 1);
    assert_eq!(d.entries[0].action, DiffAction::Unchanged);
    assert_eq!(d.entries[0].source_hash, d.entries[0].target_hash);
    assert_eq!(d.entries[0].source_hash, Some(h));
}

#[test]
fn one_way_missing_hash_is_io_error() {
    let source = vec![stat("t.flac", 5, 1000, None)];
    let target = vec![stat("t.flac", 6, 1000, None)];
    match compute_one_way_diff("p", &source, &target, &vec![]) {
        Err(AppError::Io(path)) => assert_eq!(path, "t.flac"),
        other => panic!("unexpected {:?}", other),
    }
}

#[test]
fn two_way_first_sync_conflict_keep_source() {
    let source = vec![state("t.flac", b"A", 10)];
    let target = vec![state("t.flac", b"B", 20)];
    let (d, conflicts) = compute_two_way_diff("p", &source, &target, &vec![], &vec![]).unwrap();
    assert_eq!(d.total_conflict, 1);
    assert_eq!(conflicts[0].conflict_type, ConflictType::FirstSyncDiffers);
    let res = vec![ConflictResolution { relative_path: "t.flac".to_string(), resolution: Resolution::KeepSource }];
    let mut run = SyncRun::new(&d, ExecMode::TwoWay, &res, "/target", vec![]);
    match run.step(false, true) {
        Step::Perform { op: FileOp::Mirror { from: Side::Source, rel }, .. } => assert_eq!(rel, "t.flac"),
        other => panic!("unexpected step {:?}", other),
    }
    // After the copy both sides hold "A"; the rebuilt baseline records that.
    let after = vec![state("t.flac", b"A", 10)];
    let held = held_conflict_paths(&d, &res);
    assert!(held.is_empty());
    let bl = build_post_sync_baselines(&after, &after, &vec![], &vec![], &held);
    assert_eq!(bl.len(), 1);
    assert_eq!(bl[0].source_hash, Some(hash_content(b"A")));
    assert_eq!(bl[0].target_hash, Some(hash_content(b"A")));
}

#[test]
fn two_way_both_modified_keep_both() {
    let orig = hash_content(b"orig");
    let baselines = vec![FileBaseline {
        relative_path: "t.flac".to_string(),
        source_hash: Some(orig.clone()),
        target_hash: Some(orig),
        source_modified: Some(1),
        target_modified: Some(1),
        source_size: Some(4),
        target_size: Some(4),
    }];
    let source = vec![state("t.flac", b"A'", 10)];
    let target = vec![state("t.flac", b"B'", 20)];
    let (d, conflicts) = compute_two_way_diff("p", &source, &target, &vec![], &baselines).unwrap();
    assert_eq!(conflicts.len(), 1);
    assert_eq!(conflicts[0].conflict_type, ConflictType::BothModified);
    let res = vec![ConflictResolution { relative_path: "t.flac".to_string(), resolution: Resolution::KeepBoth }];
    let mut run = SyncRun::new(&d, ExecMode::TwoWay, &res, "/target", vec![]);
    match run.step(false, true) {
        Step::Perform { op: FileOp::KeepBoth { rel, conflict_rel }, .. } => {
            assert_eq!(rel, "t.flac");
            assert_eq!(conflict_rel, "t_conflict.flac");
        },
        other => panic!("unexpected step {:?}", other),
    }
}

#[test]
fn unresolved_conflict_is_not_executed() {
    let source = vec![state("t.flac", b"A", 10)];
    let target = vec![state("t.flac", b"B", 20)];
    let (d, _) = compute_two_way_diff("p", &source, &target, &vec![], &vec![]).unwrap();
    let mut run = SyncRun::new(&d, ExecMode::TwoWay, &vec![], "/target", vec![]);
    assert_eq!(run.total_files, 0);
    assert!(matches!(run.step(false, true), Step::Finished { files_synced: 0 }));
}

#[test]
fn device_diff_with_cache_hit() {
    let tracks = vec![track("x.flac", 10, 500, Some("H1"))];
    let files = vec![stat("x.flac", 10, 500, None)];
    let cache = vec![cached("x.flac", "H1", 10, 500)];
    let (to_hash_tracks, to_hash_files) = device_paths_to_hash(&tracks, &files, &cache);
    assert!(to_hash_tracks.is_empty());
    assert!(to_hash_files.is_empty());
    let (d, new_cache) = compute_device_diff("dev", &tracks, &files, &cache).unwrap();
    assert_eq!(d.entries.len(), 1);
    assert_eq!(d.entries[0].action, DiffAction::Unchanged);
    assert_eq!(new_cache.len(), 1);
    assert_eq!(new_cache[0].relative_path, "x.flac");
    assert_eq!(new_cache[0].hash, "H1");
}

#[test]
fn device_diff_stale_cache_is_not_carried() {
    let tracks = vec![track("x.flac", 10, 500, Some("H1"))];
    let files = vec![stat("x.flac", 10, 500, None)];
    let cache = vec![cached("x.flac", "OLD", 9, 400)];
    let (d, new_cache) = compute_device_diff("dev", &tracks, &files, &cache).unwrap();
    assert_eq!(d.total_unchanged, 1);
    assert_eq!(new_cache[0].hash, "");
}

#[test]
fn device_diff_uses_cached_hash_when_probe_fails() {
    let tracks = vec![track("x.flac", 11, 600, Some("H2"))];
    let files = vec![stat("x.flac", 10, 500, None)];
    let cache = vec![cached("x.flac", "H1", 10, 500)];
    let (tr, fl) = device_paths_to_hash(&tracks, &files, &cache);
    assert!(tr.is_empty());
    assert!(fl.is_empty());
    let (d, new_cache) = compute_device_diff("dev", &tracks, &files, &cache).unwrap();
    assert_eq!(d.total_update, 1);
    assert_eq!(d.bytes_to_transfer, 11);
    assert_eq!(d.entries[0].target_hash, Some("H1".to_string()));
    assert_eq!(new_cache[0].hash, "H1");
}

#[test]
fn device_diff_add_remove_and_hidden_directories() {
    let tracks = vec![track("new.mp3", 3, 1, None)];
    let files = vec![
        stat("gone.flac", 4, 1, None),
        stat(".Trashes/501/x.flac", 4, 1, None),
        stat("notes.txt", 4, 1, None),
    ];
    let (d, new_cache) = compute_device_diff("dev", &tracks, &files, &vec![]).unwrap();
    assert_eq!(d.entries.len(), 2);
    assert_eq!(d.entries[0].relative_path, "gone.flac");
    assert_eq!(d.entries[0].action, DiffAction::Remove);
    assert_eq!(d.entries[1].relative_path, "new.mp3");
    assert_eq!(d.entries[1].action, DiffAction::Add);
    assert!(new_cache.is_empty());
}

#[test]
fn device_diff_missing_hash_is_io_error() {
    let tracks = vec![track("x.flac", 11, 600, None)];
    let files = vec![stat("x.flac", 10, 500, Some("H"))];
    let (tr, _) = device_paths_to_hash(&tracks, &files, &vec![]);
    assert_eq!(tr, vec!["x.flac".to_string()]);
    assert!(matches!(compute_device_diff("dev", &tracks, &files, &vec![]), Err(AppError::Io(_))));
}

#[test]
fn executor_stops_on_cancellation_after_three_files() {
    let entries: Vec<DiffEntry> = (0..10).map(|i| add_entry(&format!("f{}.flac", i), 5)).collect();
    let d = diff_of(entries);
    let mut run = SyncRun::new(&d, ExecMode::OneWay, &vec![], "/target", vec![]);
    assert!(matches!(run.started(), ProgressEvent::SyncStarted { total_files: 10, total_bytes: 50 }));
    let mut performed = 0;
    let mut progress_events = 0;
    let mut cancelled = false;
    loop {
        match run.step(cancelled, true) {
            Step::Perform { progress, .. } => {
                assert!(matches!(progress, ProgressEvent::SyncProgress { .. }));
                progress_events += 1;
                performed += 1;
                if progress_events == 3 {
                    cancelled = true;
                }
                assert!(run.complete(StepOutcome::Done { size: Some(5), modified: Some(100) }).is_none());
            },
            Step::Stopped(e) => {
                assert!(matches!(e, AppError::SyncCancelled));
                break;
            },
            Step::Finished { .. } => panic!("run finished despite cancellation"),
        }
    }
    assert_eq!(performed, 3);
    assert_eq!(run.files_completed, 3);
    assert_eq!(run.bytes_completed, 15);
}

#[test]
fn executor_reports_file_errors_and_continues() {
    let d = diff_of(vec![add_entry("a.flac", 2), add_entry("b.flac", 3)]);
    let mut run = SyncRun::new(&d, ExecMode::OneWay, &vec![], "/target", vec![]);
    assert!(matches!(run.step(false, true), Step::Perform { .. }));
    match run.complete(StepOutcome::Failed("disk full".to_string())) {
        Some(ProgressEvent::SyncError { file, error }) => {
            assert_eq!(file, "a.flac");
            assert_eq!(error, "disk full");
        },
        other => panic!("unexpected {:?}", other),
    }
    match run.step(false, true) {
        Step::Perform { progress: ProgressEvent::SyncProgress { files_completed, bytes_completed, current_file, .. }, .. } => {
            assert_eq!(files_completed, 1);
            assert_eq!(bytes_completed, 2);
            assert_eq!(current_file, "b.flac");
        },
        other => panic!("unexpected {:?}", other),
    }
    assert!(run.complete(StepOutcome::Done { size: None, modified: None }).is_none());
    assert!(matches!(run.step(false, true), Step::Finished { files_synced: 1 }));
}

#[test]
fn executor_device_disconnect_stops_run() {
    let d = diff_of(vec![add_entry("a.flac", 2)]);
    let mut run = SyncRun::new(&d, ExecMode::Device, &vec![], "/Volumes/STICK", vec![]);
    match run.step(false, false) {
        Step::Stopped(AppError::DeviceDisconnected(root)) => assert_eq!(root, "/Volumes/STICK"),
        other => panic!("unexpected {:?}", other),
    }
    assert_eq!(run.next, 0);
}

#[test]
fn executor_device_updates_cache() {
    let mut e = add_entry("a.flac", 2);
    e.source_hash = Some("HA".to_string());
    let mut rm = add_entry("old.flac", 0);
    rm.action = DiffAction::Remove;
    rm.source_size = None;
    let d = diff_of(vec![e, rm]);
    let prior = vec![cached("a.flac", "STALE", 1, 1), cached("old.flac", "HO", 7, 7), cached("keep.flac", "HK", 3, 3)];
    let mut run = SyncRun::new(&d, ExecMode::Device, &vec![], "/dev", prior);
    assert!(matches!(run.step(false, true), Step::Perform { op: FileOp::Copy { .. }, .. }));
    run.complete(StepOutcome::Done { size: Some(2), modified: Some(100) });
    assert!(matches!(run.step(false, true), Step::Perform { op: FileOp::Remove { side: Side::Target, .. }, .. }));
    run.complete(StepOutcome::Done { size: None, modified: None });
    let paths: Vec<&str> = run.cache.iter().map(|c| c.relative_path.as_str()).collect();
    assert_eq!(paths, vec!["keep.flac", "a.flac"]);
    assert_eq!(run.cache[1].hash, "HA");
    assert_eq!(run.cache[1].file_size, 2);
    assert_eq!(run.cache[1].modified_at, 100);
}

#[test]
fn two_way_directions_map_to_sides() {
    let mut up = add_entry("u.flac", 4);
    up.action = DiffAction::Update;
    up.direction = DiffDirection::TargetToSource;
    up.target_size = Some(9);
    let mut rm = add_entry("r.flac", 4);
    rm.action = DiffAction::Remove;
    rm.direction = DiffDirection::SourceToTarget;
    let d = diff_of(vec![rm, up]);
    let mut run = SyncRun::new(&d, ExecMode::TwoWay, &vec![], "/t", vec![]);
    assert_eq!(run.total_bytes, 9);
    assert!(matches!(run.step(false, true), Step::Perform { op: FileOp::Remove { side: Side::Source, .. }, .. }));
    run.complete(StepOutcome::Done { size: None, modified: None });
    assert!(matches!(run.step(false, true), Step::Perform { op: FileOp::Copy { from: Side::Target, .. }, .. }));
}

fn baseline_of(rel: &str, content: &[u8]) -> FileBaseline {
    let h = hash_content(content);
    FileBaseline {
        relative_path: rel.to_string(),
        source_hash: Some(h.clone()),
        target_hash: Some(h),
        source_modified: Some(1),
        target_modified: Some(1),
        source_size: Some(content.len() as u64),
        target_size: Some(content.len() as u64),
    }
}

#[test]
fn skipped_and_unresolved_conflicts_keep_their_baseline() {
    let prior = vec![baseline_of("s.flac", b"orig"), baseline_of("u.flac", b"orig"), baseline_of("k.flac", b"orig")];
    let source = vec![state("s.flac", b"A", 10), state("u.flac", b"A", 10), state("k.flac", b"A", 10)];
    let target = vec![state("s.flac", b"B", 10), state("u.flac", b"B", 10), state("k.flac", b"B", 10)];
    let (d, conflicts) = compute_two_way_diff("p", &source, &target, &vec![], &prior).unwrap();
    assert_eq!(conflicts.len(), 3);
    assert_eq!(d.total_conflict, 3);
    let res = vec![
        ConflictResolution { relative_path: "s.flac".to_string(), resolution: Resolution::Skip },
        ConflictResolution { relative_path: "k.flac".to_string(), resolution: Resolution::KeepSource },
    ];
    let held = held_conflict_paths(&d, &res);
    assert_eq!(held, vec!["s.flac".to_string(), "u.flac".to_string()]);
    // After the run only k.flac was mirrored; s.flac and u.flac still differ.
    let after_target = vec![state("s.flac", b"B", 10), state("u.flac", b"B", 10), state("k.flac", b"A", 10)];
    let bl = build_post_sync_baselines(&source, &after_target, &vec![], &prior, &held);
    let paths: Vec<&str> = bl.iter().map(|b| b.relative_path.as_str()).collect();
    assert_eq!(paths, vec!["k.flac", "s.flac", "u.flac"]);
    assert_eq!(bl[0].target_hash, Some(hash_content(b"A")));
    assert_eq!(bl[1].source_hash, Some(hash_content(b"orig")));
    assert_eq!(bl[2].target_hash, Some(hash_content(b"orig")));
    let (d2, c2) = compute_two_way_diff("p", &source, &after_target, &vec![], &bl).unwrap();
    assert_eq!(c2.len(), 2);
    assert_eq!(d2.total_conflict, 2);
    assert_eq!(d2.total_unchanged, 1);
}

#[test]
fn held_path_without_prior_record_stays_without_one() {
    let source = vec![state("n.flac", b"A", 10)];
    let target = vec![state("n.flac", b"B", 10)];
    let bl = build_post_sync_baselines(&source, &target, &vec![], &vec![], &vec!["n.flac".to_string()]);
    assert!(bl.is_empty());
}
