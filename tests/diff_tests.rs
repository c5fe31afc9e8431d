use orchestra_sync::content::hash_content;
use orchestra_sync::model::{ConflictType, DiffAction, DiffDirection, FileBaseline, FileStat, FileState};
use orchestra_sync::one_way::compute_one_way_diff;
use orchestra_sync::two_way::compute_two_way_diff;

fn stat(rel: &str, content: &[u8], mtime: i64) -> FileStat {
    FileStat { relative_path: rel.to_string(), size: content.len() as u64, modified: mtime, hash: None }
}

fn hashed(rel: &str, content: &[u8], mtime: i64) -> FileStat {
    FileStat {
        relative_path: rel.to_string(),
        size: content.len() as u64,
        modified: mtime,
        hash: Some(hash_content(content)),
    }
}

fn state(rel: &str, content: &[u8], mtime: i64) -> FileState {
    FileState { relative_path: rel.to_string(), hash: hash_content(content), modified: mtime, size: content.len() as u64 }
}

fn make_baseline(rel: &str, hash: &str) -> FileBaseline {
    FileBaseline {
        relative_path: rel.to_string(),
        source_hash: Some(hash.to_string()),
        target_hash: Some(hash.to_string()),
        source_modified: Some(1000),
        target_modified: Some(1000),
        source_size: Some(100),
        target_size: Some(100),
    }
}

#[test]
fn test_one_way_add() {
    let source = vec![stat("artist/album/track.flac", b"source audio data", 1700000000)];
    let target: Vec<FileStat> = vec![];
    let result = compute_one_way_diff("test", &source, &target, &vec![]).unwrap();
    assert_eq!(result.total_add, 1);
    assert_eq!(result.total_remove, 0);
    assert_eq!(result.total_update, 0);
    assert_eq!(result.entries.len(), 1);
    assert_eq!(result.entries[0].action, DiffAction::Add);
}

#[test]
fn test_one_way_remove() {
    let source: Vec<FileStat> = vec![];
    let target = vec![stat("old/track.mp3", b"old data", 1700000000)];
    let result = compute_one_way_diff("test", &source, &target, &vec![]).unwrap();
    assert_eq!(result.total_add, 0);
    assert_eq!(result.total_remove, 1);
    assert_eq!(result.entries[0].action, DiffAction::Remove);
}

#[test]
fn test_one_way_unchanged() {
    // Even though mtimes differ, content hashes match so it's unchanged
    let source = vec![hashed("track.flac", b"same data", 1700000000)];
    let target = vec![hashed("track.flac", b"same data", 1700000005)];
    let result = compute_one_way_diff("test", &source, &target, &vec![]).unwrap();
    assert_eq!(result.total_unchanged, 1);
}

#[test]
fn test_one_way_update() {
    let source = vec![hashed("track.flac", b"new version of the track", 1700000000)];
    let target = vec![hashed("track.flac", b"old version", 1700000000)];
    let result = compute_one_way_diff("test", &source, &target, &vec![]).unwrap();
    assert_eq!(result.total_update, 1);
    assert_eq!(result.entries[0].action, DiffAction::Update);
}

#[test]
fn test_non_audio_files_ignored() {
    let source = vec![stat("readme.txt", b"not audio", 1700000000), stat("track.flac", b"audio", 1700000000)];
    let target: Vec<FileStat> = vec![];
    let result = compute_one_way_diff("test", &source, &target, &vec![]).unwrap();
    assert_eq!(result.total_add, 1); // only the .flac
}

#[test]
fn test_exclude_patterns() {
    let source = vec![stat("good.flac", b"keep", 1700000000), stat("skip.flac", b"exclude", 1700000000)];
    let target: Vec<FileStat> = vec![];
    let result = compute_one_way_diff("test", &source, &target, &vec!["skip.*".to_string()]).unwrap();
    assert_eq!(result.total_add, 1);
    assert_eq!(result.entries[0].relative_path, "good.flac");
}

#[test]
fn test_two_way_new_on_source_no_baseline() {
    let source = vec![state("new.flac", b"new track", 1700000000)];
    let target: Vec<FileState> = vec![];
    let baselines: Vec<FileBaseline> = vec![];
    let (diff, conflicts) = compute_two_way_diff("test", &source, &target, &vec![], &baselines).unwrap();
    assert_eq!(diff.total_add, 1);
    assert_eq!(conflicts.len(), 0);
    let entry = diff.entries.iter().find(|e| e.relative_path == "new.flac").unwrap();
    assert_eq!(entry.action, DiffAction::Add);
    assert_eq!(entry.direction, DiffDirection::SourceToTarget);
}

#[test]
fn test_two_way_new_on_target_no_baseline() {
    let source: Vec<FileState> = vec![];
    let target = vec![state("new.flac", b"new track on target", 1700000000)];
    let baselines: Vec<FileBaseline> = vec![];
    let (diff, conflicts) = compute_two_way_diff("test", &source, &target, &vec![], &baselines).unwrap();
    assert_eq!(diff.total_add, 1);
    assert_eq!(conflicts.len(), 0);
    let entry = diff.entries.iter().find(|e| e.relative_path == "new.flac").unwrap();
    assert_eq!(entry.action, DiffAction::Add);
    assert_eq!(entry.direction, DiffDirection::TargetToSource);
}

#[test]
fn test_two_way_conflict_first_sync() {
    let source = vec![state("track.flac", b"version A", 1700000000)];
    let target = vec![state("track.flac", b"version B", 1700000000)];
    let baselines: Vec<FileBaseline> = vec![];
    let (diff, conflicts) = compute_two_way_diff("test", &source, &target, &vec![], &baselines).unwrap();
    assert_eq!(diff.total_conflict, 1);
    assert_eq!(conflicts.len(), 1);
    assert_eq!(conflicts[0].conflict_type, ConflictType::FirstSyncDiffers);
}

#[test]
fn test_two_way_identical_first_sync() {
    let source = vec![state("track.flac", b"same content", 1700000000)];
    let target = vec![state("track.flac", b"same content", 1700000000)];
    let baselines: Vec<FileBaseline> = vec![];
    let (diff, conflicts) = compute_two_way_diff("test", &source, &target, &vec![], &baselines).unwrap();
    assert_eq!(diff.total_unchanged, 1);
    assert_eq!(conflicts.len(), 0);
}

#[test]
fn test_two_way_source_changed_with_baseline() {
    let source = vec![state("track.flac", b"updated source content", 1700000000)];
    let target = vec![state("track.flac", b"original content", 1700000000)];
    // Baseline had the original hash for both
    let orig_hash = hash_content(b"original content");
    let baselines = vec![make_baseline("track.flac", &orig_hash)];
    let (diff, conflicts) = compute_two_way_diff("test", &source, &target, &vec![], &baselines).unwrap();
    assert_eq!(diff.total_update, 1);
    assert_eq!(conflicts.len(), 0);
    let entry = diff.entries.iter().find(|e| e.relative_path == "track.flac").unwrap();
    assert_eq!(entry.direction, DiffDirection::SourceToTarget);
}

#[test]
fn test_two_way_both_changed_conflict() {
    let source = vec![state("track.flac", b"source changed", 1700000000)];
    let target = vec![state("track.flac", b"target changed", 1700000000)];
    let orig_hash = hash_content(b"original");
    let baselines = vec![make_baseline("track.flac", &orig_hash)];
    let (diff, conflicts) = compute_two_way_diff("test", &source, &target, &vec![], &baselines).unwrap();
    assert_eq!(diff.total_conflict, 1);
    assert_eq!(conflicts.len(), 1);
    assert_eq!(conflicts[0].conflict_type, ConflictType::BothModified);
}

#[test]
fn test_two_way_deleted_source_unchanged_target() {
    // Only exists in target (was deleted from source)
    let source: Vec<FileState> = vec![];
    let target = vec![state("track.flac", b"original content", 1700000000)];
    let orig_hash = hash_content(b"original content");
    let baselines = vec![make_baseline("track.flac", &orig_hash)];
    let (diff, _conflicts) = compute_two_way_diff("test", &source, &target, &vec![], &baselines).unwrap();
    // Deleted from source, target unchanged → propagate delete to target
    assert_eq!(diff.total_remove, 1);
    let entry = diff.entries.iter().find(|e| e.relative_path == "track.flac").unwrap();
    assert_eq!(entry.action, DiffAction::Remove);
    assert_eq!(entry.direction, DiffDirection::TargetToSource);
}
