use orchestra_sync::baseline::build_post_sync_baselines;
use orchestra_sync::content::hash_content;
use orchestra_sync::model::{DiffAction, FileStat, FileState};
use orchestra_sync::one_way::compute_one_way_diff;
use orchestra_sync::two_way::compute_two_way_diff;

fn stat(rel: &str, size: u64, mtime: i64, hash: Option<String>) -> FileStat {
    FileStat { relative_path: rel.to_string(), size, modified: mtime, hash }
}

#[test]
fn entries_are_sorted_and_unique() {
    let source = vec![
        stat("b.flac", 1, 1, None),
        stat("a.flac", 1, 1, None),
        stat("b.flac", 2, 2, None),
        stat("Z.mp3", 3, 3, None),
    ];
    let target = vec![stat("a.flac", 1, 1, None), stat("c.ogg", 1, 1, None)];
    let d = compute_one_way_diff("p", &source, &target, &vec![]).unwrap();
    let paths: Vec<&str> = d.entries.iter().map(|e| e.relative_path.as_str()).collect();
    assert_eq!(paths, vec!["Z.mp3", "a.flac", "b.flac", "c.ogg"]);
    // the last record of a repeated path wins
    assert_eq!(d.entries[2].source_size, Some(2));
}

#[test]
fn bytes_to_transfer_sums_adds_and_updates() {
    let h1 = Some(hash_content(b"one"));
    let h2 = Some(hash_content(b"two"));
    let source = vec![stat("add.flac", 7, 1, None), stat("upd.flac", 11, 5, h1), stat("same.flac", 13, 1, None)];
    let target = vec![stat("upd.flac", 3, 1, h2), stat("same.flac", 13, 1, None), stat("rm.flac", 17, 1, None)];
    let d = compute_one_way_diff("p", &source, &target, &vec![]).unwrap();
    assert_eq!(d.total_add, 1);
    assert_eq!(d.total_update, 1);
    assert_eq!(d.total_remove, 1);
    assert_eq!(d.total_unchanged, 1);
    assert_eq!(d.bytes_to_transfer, 18);
}

#[test]
fn bytes_to_transfer_saturates() {
    let source = vec![stat("a.flac", u64::MAX, 1, None), stat("b.flac", 5, 1, None)];
    let d = compute_one_way_diff("p", &source, &vec![], &vec![]).unwrap();
    assert_eq!(d.bytes_to_transfer, u64::MAX);
}

#[test]
fn rerun_after_one_way_sync_is_all_unchanged() {
    let source = vec![stat("a.flac", 1, 10, None), stat("d/b.mp3", 2, 20, None), stat("x.txt", 3, 30, None)];
    let target = source.clone();
    let d = compute_one_way_diff("p", &source, &target, &vec![]).unwrap();
    assert_eq!(d.total_add, 0);
    assert_eq!(d.total_remove, 0);
    assert_eq!(d.total_update, 0);
    assert_eq!(d.total_unchanged, 2);
}

#[test]
fn rerun_after_two_way_sync_is_all_unchanged() {
    let side = vec![
        FileState { relative_path: "a.flac".to_string(), hash: hash_content(b"a"), modified: 1, size: 1 },
        FileState { relative_path: "b.flac".to_string(), hash: hash_content(b"b"), modified: 2, size: 1 },
    ];
    let bl = build_post_sync_baselines(&side, &side, &vec![], &vec![], &vec![]);
    let (d, conflicts) = compute_two_way_diff("p", &side, &side, &vec![], &bl).unwrap();
    assert_eq!(d.total_unchanged, 2);
    assert_eq!(d.total_add + d.total_remove + d.total_update + d.total_conflict, 0);
    assert!(conflicts.is_empty());
}

#[test]
fn empty_source_removes_every_target_file() {
    let target = vec![stat("a.flac", 1, 1, None), stat("b/c.wav", 1, 1, None)];
    let d = compute_one_way_diff("p", &vec![], &target, &vec![]).unwrap();
    assert_eq!(d.total_remove, 2);
    assert!(d.entries.iter().all(|e| e.action == DiffAction::Remove));
}

#[test]
fn same_size_different_content_updates() {
    let source = vec![stat("t.flac", 4, 2, Some(hash_content(b"AAAA")))];
    let target = vec![stat("t.flac", 4, 1, Some(hash_content(b"BBBB")))];
    let d = compute_one_way_diff("p", &source, &target, &vec![]).unwrap();
    assert_eq!(d.entries[0].action, DiffAction::Update);
}

#[test]
fn same_fingerprint_different_content_is_unchanged() {
    let source = vec![stat("t.flac", 4, 1, Some(hash_content(b"AAAA")))];
    let target = vec![stat("t.flac", 4, 1, Some(hash_content(b"BBBB")))];
    let d = compute_one_way_diff("p", &source, &target, &vec![]).unwrap();
    assert_eq!(d.entries[0].action, DiffAction::Unchanged);
    assert_eq!(d.entries[0].source_hash, None);
}

#[test]
fn two_way_baseline_only_path_is_unchanged() {
    let bl = build_post_sync_baselines(
        &vec![FileState { relative_path: "gone.flac".to_string(), hash: hash_content(b"g"), modified: 1, size: 1 }],
        &vec![],
        &vec![],
        &vec![],
        &vec![],
    );
    let (d, _) = compute_two_way_diff("p", &vec![], &vec![], &vec![], &bl).unwrap();
    assert_eq!(d.entries.len(), 1);
    assert_eq!(d.entries[0].action, DiffAction::Unchanged);
}

#[test]
fn folder_walks_skip_hidden_directories() {
    let source = vec![
        stat(".Trashes/x.flac", 1, 1, None),
        stat("music/.cache/a:b.mp3", 1, 1, None),
        stat("a\\b:c/.song.flac", 1, 1, None),
    ];
    let d = compute_one_way_diff("p", &source, &vec![], &vec![]).unwrap();
    let paths: Vec<&str> = d.entries.iter().map(|e| e.relative_path.as_str()).collect();
    assert_eq!(paths, vec!["a\\b:c/.song.flac"]);
    let states = vec![FileState { relative_path: ".hidden/t.flac".to_string(), hash: hash_content(b"h"), modified: 1, size: 1 }];
    let (d2, _) = compute_two_way_diff("p", &states, &vec![], &vec![], &vec![]).unwrap();
    assert!(d2.entries.is_empty());
}
