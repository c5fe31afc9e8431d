//! Device diff: a catalog subset against a removable device, reusing cached hashes.
use vstd::prelude::*;
use crate::model::{
    clone_opt_string, AppError, CachedFileHash, DiffAction, DiffDirection, DiffEntry, DiffResult,
    FileStat, Track,
};
use crate::order::{lemma_path_lt_transitive, path_lt};
use crate::pathmap::{
    has_key, has_key_before, index_by_path, last_with_key, lemma_has_key_before_step,
    lemma_has_key_push, lemma_push_sorted, lemma_last_with_key_has_key, lookup, merge_paths, sorted_by_key, PathKeyed,
};
use crate::paths::{is_kept_on_device, kept_on_device};
use crate::tally::{lemma_count_action_absent, summarize, tallies_hold};

verus! {

/// What a device walk denotes at `p`: the last record for `p`, if the file takes part.
pub open spec fn device_view(files: Seq<FileStat>, p: Seq<char>) -> Option<FileStat> {
    if kept_on_device(p) {
        last_with_key(files, p)
    } else {
        None
    }
}

/// The cache entry describes the live device file: same size and same mtime.
pub open spec fn cache_hit(c: Option<CachedFileHash>, f: FileStat) -> bool {
    match c {
        Some(c) => c.file_size == f.size && c.modified_at == f.modified,
        None => false,
    }
}

/// The device file's content hash: the cached one on a hit, else the one computed now.
pub open spec fn device_hash(c: Option<CachedFileHash>, f: FileStat) -> Option<String> {
    if cache_hit(c, f) {
        Some(c->0.hash)
    } else {
        f.hash
    }
}

/// The track and the device file share size and mtime.
pub open spec fn track_fingerprint_matches(tr: Track, f: FileStat) -> bool {
    tr.file_size == f.size && tr.modified_at == f.modified
}

/// Both sides hold the file, the probe fails, and one side's hash is unknown.
pub open spec fn device_hash_missing(tr: Option<Track>, f: Option<FileStat>, c: Option<CachedFileHash>) -> bool {
    match (tr, f) {
        (Some(tr), Some(f)) => !track_fingerprint_matches(tr, f) && (tr.hash is None || device_hash(c, f) is None),
        _ => false,
    }
}

pub open spec fn device_action(tr: Option<Track>, f: Option<FileStat>, c: Option<CachedFileHash>) -> DiffAction {
    match (tr, f) {
        (Some(_), None) => DiffAction::Add,
        (None, Some(_)) => DiffAction::Remove,
        (Some(tr), Some(f)) => {
            if track_fingerprint_matches(tr, f) {
                DiffAction::Unchanged
            } else if tr.hash->0@ == device_hash(c, f)->0@ {
                DiffAction::Unchanged
            } else {
                DiffAction::Update
            }
        },
        (None, None) => DiffAction::Unchanged,
    }
}

pub open spec fn track_size(o: Option<Track>) -> Option<u64> {
    match o {
        Some(t) => Some(t.file_size),
        None => None,
    }
}

pub open spec fn track_modified(o: Option<Track>) -> Option<i64> {
    match o {
        Some(t) => Some(t.modified_at),
        None => None,
    }
}

pub open spec fn file_size_of(o: Option<FileStat>) -> Option<u64> {
    match o {
        Some(f) => Some(f.size),
        None => None,
    }
}

pub open spec fn file_modified_of(o: Option<FileStat>) -> Option<i64> {
    match o {
        Some(f) => Some(f.modified),
        None => None,
    }
}

/// An entry of a device diff for a track `tr`, a device file `f` and its cache entry `c`.
pub open spec fn device_entry(e: DiffEntry, tr: Option<Track>, f: Option<FileStat>, c: Option<CachedFileHash>) -> bool {
    &&& (tr is Some || f is Some)
    &&& e.action == device_action(tr, f, c)
    &&& e.direction == DiffDirection::SourceToTarget
    &&& e.source_size == track_size(tr)
    &&& e.target_size == file_size_of(f)
    &&& e.source_modified == track_modified(tr)
    &&& e.target_modified == file_modified_of(f)
    &&& match (tr, f) {
        (Some(tr), None) => e.source_hash == tr.hash && e.target_hash is None,
        (Some(tr), Some(f)) => if track_fingerprint_matches(tr, f) {
            e.source_hash is None && e.target_hash is None
        } else {
            e.source_hash == tr.hash && e.target_hash == device_hash(c, f)
        },
        _ => e.source_hash is None && e.target_hash is None,
    }
}

/// The hash that the new cache records for a file kept on the device: on an
/// unchanged probe, the cached hash where it still describes the file, else
/// the empty string; otherwise the hash the comparison used.
pub open spec fn new_cache_hash(tr: Track, f: FileStat, c: Option<CachedFileHash>) -> Seq<char> {
    if track_fingerprint_matches(tr, f) {
        if cache_hit(c, f) {
            c->0.hash@
        } else {
            Seq::empty()
        }
    } else {
        device_hash(c, f)->0@
    }
}

/// A cache entry for a path that both the catalog subset and the device hold.
pub open spec fn new_cache_entry(n: CachedFileHash, tr: Option<Track>, f: Option<FileStat>, c: Option<CachedFileHash>) -> bool {
    &&& tr is Some && f is Some
    &&& !device_hash_missing(tr, f, c)
    &&& n.file_size == f->0.size
    &&& n.modified_at == f->0.modified
    &&& n.hash@ == new_cache_hash(tr->0, f->0, c)
}

/// `d` and `cache` are the device diff of `tracks` against the device walk
/// `files` with the prior cache `prior`: one entry per path in either, sorted;
/// and a new cache entry, sorted, for each path on both sides.
pub open spec fn device_diff_holds(
    device_id: Seq<char>,
    tracks: Seq<Track>,
    files: Seq<FileStat>,
    prior: Seq<CachedFileHash>,
    d: DiffResult,
    cache: Seq<CachedFileHash>,
) -> bool {
    &&& d.profile_id@ == device_id
    &&& sorted_by_key(d.entries@)
    &&& forall|i: int| 0 <= i < d.entries@.len() ==> device_entry(
        #[trigger] d.entries@[i],
        last_with_key(tracks, d.entries@[i].key()),
        device_view(files, d.entries@[i].key()),
        last_with_key(prior, d.entries@[i].key()),
    )
    &&& forall|p: Seq<char>| #[trigger] has_key(d.entries@, p) == (last_with_key(tracks, p) is Some
        || device_view(files, p) is Some)
    &&& tallies_hold(d)
    &&& d.total_conflict == 0
    &&& sorted_by_key(cache)
    &&& forall|k: int| 0 <= k < cache.len() ==> new_cache_entry(
        #[trigger] cache[k],
        last_with_key(tracks, cache[k].key()),
        device_view(files, cache[k].key()),
        last_with_key(prior, cache[k].key()),
    )
    &&& forall|p: Seq<char>| #[trigger] has_key(cache, p) == (last_with_key(tracks, p) is Some
        && device_view(files, p) is Some)
}

/// Some path on both sides fails the probe and lacks a hash on one side.
pub open spec fn device_diff_hash_missing(tracks: Seq<Track>, files: Seq<FileStat>, prior: Seq<CachedFileHash>) -> bool {
    exists|p: Seq<char>| #[trigger] device_hash_missing(last_with_key(tracks, p), device_view(files, p), last_with_key(prior, p))
}

/// Decides one path; `None` where a needed hash is missing.
pub fn device_decision(rel: &String, tr: Option<&Track>, f: Option<&FileStat>, c: Option<&CachedFileHash>) -> (r: Option<(DiffEntry, Option<CachedFileHash>)>)
    requires
        tr is Some || f is Some,
    ensures
        ({
            let trv = match tr {
                Some(x) => Some(*x),
                None => None,
            };
            let fv = match f {
                Some(x) => Some(*x),
                None => None,
            };
            let cv = match c {
                Some(x) => Some(*x),
                None => None,
            };
            match r {
                Some((e, n)) => {
                    &&& !device_hash_missing(trv, fv, cv)
                    &&& device_entry(e, trv, fv, cv)
                    &&& e.relative_path@ == rel@
                    &&& (n is Some) == (trv is Some && fv is Some)
                    &&& (n matches Some(n) ==> new_cache_entry(n, trv, fv, cv) && n.relative_path@ == rel@)
                },
                None => device_hash_missing(trv, fv, cv),
            }
        }),
{
    match (tr, f) {
        (Some(tr), None) => Some(
            (
                DiffEntry {
                    relative_path: rel.clone(),
                    action: DiffAction::Add,
                    direction: DiffDirection::SourceToTarget,
                    source_size: Some(tr.file_size),
                    target_size: None,
                    source_hash: clone_opt_string(&tr.hash),
                    target_hash: None,
                    source_modified: Some(tr.modified_at),
                    target_modified: None,
                },
                None,
            ),
        ),
        (None, Some(f)) => Some(
            (
                DiffEntry {
                    relative_path: rel.clone(),
                    action: DiffAction::Remove,
                    direction: DiffDirection::SourceToTarget,
                    source_size: None,
                    target_size: Some(f.size),
                    source_hash: None,
                    target_hash: None,
                    source_modified: None,
                    target_modified: Some(f.modified),
                },
                None,
            ),
        ),
        (Some(tr), Some(f)) => {
            let hit = match c {
                Some(c) => c.file_size == f.size && c.modified_at == f.modified,
                None => false,
            };
            if tr.file_size == f.size && tr.modified_at == f.modified {
                let carried = if hit {
                    c.unwrap().hash.clone()
                } else {
                    String::new()
                };
                Some(
                    (
                        DiffEntry {
                            relative_path: rel.clone(),
                            action: DiffAction::Unchanged,
                            direction: DiffDirection::SourceToTarget,
                            source_size: Some(tr.file_size),
                            target_size: Some(f.size),
                            source_hash: None,
                            target_hash: None,
                            source_modified: Some(tr.modified_at),
                            target_modified: Some(f.modified),
                        },
                        Some(
                            CachedFileHash {
                                relative_path: rel.clone(),
                                hash: carried,
                                file_size: f.size,
                                modified_at: f.modified,
                            },
                        ),
                    ),
                )
            } else {
                let src_hash = match &tr.hash {
                    Some(h) => h,
                    None => {
                        return None;
                    },
                };
                let tgt_hash = if hit {
                    &c.unwrap().hash
                } else {
                    match &f.hash {
                        Some(h) => h,
                        None => {
                            return None;
                        },
                    }
                };
                let action = if *src_hash == *tgt_hash {
                    DiffAction::Unchanged
                } else {
                    DiffAction::Update
                };
                Some(
                    (
                        DiffEntry {
                            relative_path: rel.clone(),
                            action,
                            direction: DiffDirection::SourceToTarget,
                            source_size: Some(tr.file_size),
                            target_size: Some(f.size),
                            source_hash: Some(src_hash.clone()),
                            target_hash: Some(tgt_hash.clone()),
                            source_modified: Some(tr.modified_at),
                            target_modified: Some(f.modified),
                        },
                        Some(
                            CachedFileHash {
                                relative_path: rel.clone(),
                                hash: tgt_hash.clone(),
                                file_size: f.size,
                                modified_at: f.modified,
                            },
                        ),
                    ),
                )
            }
        },
        (None, None) => None,
    }
}

/// Looks `p` up in an indexed device walk, as the walk denotes it.
fn device_lookup<'a>(idx: &'a Vec<FileStat>, p: &String, Ghost(items): Ghost<Seq<FileStat>>) -> (r: Option<&'a FileStat>)
    requires
        sorted_by_key(idx@),
        forall|q: Seq<char>| #[trigger] last_with_key(idx@, q) == last_with_key(items, q),
    ensures
        match r {
            Some(f) => device_view(items, p@) == Some(*f),
            None => device_view(items, p@) is None,
        },
{
    if is_kept_on_device(p.as_str()) {
        lookup(idx, p.as_str())
    } else {
        None
    }
}

/// Device diff of a catalog subset against the files found on a device.
/// A repeated path counts once, its last record, in every input. Only audio
/// files outside hidden directories count on the device. Where a path is on
/// both sides with a differing size or mtime, the track must carry a hash,
/// and the device file must either hit the cache or carry a hash: else the
/// diff fails with an I/O error naming the path.
pub fn compute_device_diff(
    device_id: &str,
    library_tracks: &Vec<Track>,
    device_files: &Vec<FileStat>,
    hash_cache: &Vec<CachedFileHash>,
) -> (r: Result<(DiffResult, Vec<CachedFileHash>), AppError>)
    ensures
        r is Ok <==> !device_diff_hash_missing(library_tracks@, device_files@, hash_cache@),
        match r {
            Ok((d, c)) => device_diff_holds(device_id@, library_tracks@, device_files@, hash_cache@, d, c@),
            Err(e) => e is Io,
        },
{
    let lib = index_by_path(library_tracks);
    let dev = index_by_path(device_files);
    let prior = index_by_path(hash_cache);
    let keys = merge_paths(&lib, &dev);
    let mut entries: Vec<DiffEntry> = Vec::new();
    let mut cache: Vec<CachedFileHash> = Vec::new();
    let mut k: usize = 0;
    while k < keys.len()
        invariant
            k <= keys@.len(),
            sorted_by_key(lib@),
            sorted_by_key(dev@),
            sorted_by_key(prior@),
            sorted_by_key(keys@),
            forall|q: Seq<char>| #[trigger] last_with_key(lib@, q) == last_with_key(library_tracks@, q),
            forall|q: Seq<char>| #[trigger] last_with_key(dev@, q) == last_with_key(device_files@, q),
            forall|q: Seq<char>| #[trigger] last_with_key(prior@, q) == last_with_key(hash_cache@, q),
            forall|p: Seq<char>| #[trigger] has_key(keys@, p) == (has_key(lib@, p) || has_key(dev@, p)),
            forall|i: int| 0 <= i < entries@.len() && k < keys@.len() ==> path_lt((#[trigger] entries@[i]).key(), keys@[k as int].key()),
            forall|i: int| 0 <= i < cache@.len() && k < keys@.len() ==> path_lt((#[trigger] cache@[i]).key(), keys@[k as int].key()),
            sorted_by_key(entries@),
            sorted_by_key(cache@),
            forall|i: int| 0 <= i < entries@.len() ==> device_entry(
                #[trigger] entries@[i],
                last_with_key(library_tracks@, entries@[i].key()),
                device_view(device_files@, entries@[i].key()),
                last_with_key(hash_cache@, entries@[i].key()),
            ),
            forall|i: int| 0 <= i < cache@.len() ==> new_cache_entry(
                #[trigger] cache@[i],
                last_with_key(library_tracks@, cache@[i].key()),
                device_view(device_files@, cache@[i].key()),
                last_with_key(hash_cache@, cache@[i].key()),
            ),
            forall|p: Seq<char>| #[trigger] has_key(entries@, p) == (has_key_before(keys@, k as int, p)
                && (last_with_key(library_tracks@, p) is Some || device_view(device_files@, p) is Some)),
            forall|p: Seq<char>| #[trigger] has_key(cache@, p) == (has_key_before(keys@, k as int, p)
                && (last_with_key(library_tracks@, p) is Some && device_view(device_files@, p) is Some)),
            forall|m: int| 0 <= m < k ==> !device_hash_missing(
                last_with_key(library_tracks@, #[trigger] keys@[m].key()),
                device_view(device_files@, keys@[m].key()),
                last_with_key(hash_cache@, keys@[m].key()),
            ),
        decreases keys@.len() - k,
    {
        let p = &keys[k];
        let tr = lookup(&lib, p.as_str());
        let f = device_lookup(&dev, p, Ghost(device_files@));
        let c = lookup(&prior, p.as_str());
        let ghost old_entries = entries@;
        let ghost old_cache = cache@;
        proof {
            assert forall|q: Seq<char>| has_key_before(keys@, k + 1, q) == (has_key_before(keys@, k as int, q) || keys@[k as int].key() == q) by {
                lemma_has_key_before_step(keys@, k as int, q);
            }
        }
        if tr.is_some() || f.is_some() {
            match device_decision(p, tr, f, c) {
                Some((e, n)) => {
                    entries.push(e);
                    proof {
                        assert(entries@[old_entries.len() as int] == e);
                        lemma_push_sorted(old_entries, e);
                        assert forall|i: int| 0 <= i < entries@.len() implies device_entry(
                            #[trigger] entries@[i],
                            last_with_key(library_tracks@, entries@[i].key()),
                            device_view(device_files@, entries@[i].key()),
                            last_with_key(hash_cache@, entries@[i].key()),
                        ) by {
                            if i < old_entries.len() {
                                assert(entries@[i] == old_entries[i]);
                            }
                        }
                        assert forall|q: Seq<char>| #[trigger] has_key(entries@, q) == (has_key_before(keys@, k + 1, q)
                            && (last_with_key(library_tracks@, q) is Some || device_view(device_files@, q) is Some)) by {
                            lemma_has_key_push(old_entries, e, q);
                            lemma_has_key_before_step(keys@, k as int, q);
                            assert(has_key(old_entries, q) == (has_key_before(keys@, k as int, q)
                                && (last_with_key(library_tracks@, q) is Some || device_view(device_files@, q) is Some)));
                        }
                    }
                    match n {
                        Some(n) => {
                            cache.push(n);
                            proof {
                                assert(cache@[old_cache.len() as int] == n);
                                lemma_push_sorted(old_cache, n);
                                assert forall|i: int| 0 <= i < cache@.len() implies new_cache_entry(
                                    #[trigger] cache@[i],
                                    last_with_key(library_tracks@, cache@[i].key()),
                                    device_view(device_files@, cache@[i].key()),
                                    last_with_key(hash_cache@, cache@[i].key()),
                                ) by {
                                    if i < old_cache.len() {
                                        assert(cache@[i] == old_cache[i]);
                                    }
                                }
                                assert forall|q: Seq<char>| #[trigger] has_key(cache@, q) == (has_key_before(keys@, k + 1, q)
                                    && (last_with_key(library_tracks@, q) is Some && device_view(device_files@, q) is Some)) by {
                                    lemma_has_key_push(old_cache, n, q);
                                    lemma_has_key_before_step(keys@, k as int, q);
                                    assert(has_key(old_cache, q) == (has_key_before(keys@, k as int, q)
                                        && (last_with_key(library_tracks@, q) is Some && device_view(device_files@, q) is Some)));
                                }
                            }
                        },
                        None => {
                            proof {
                                assert forall|q: Seq<char>| #[trigger] has_key(cache@, q) == (has_key_before(keys@, k + 1, q)
                                    && (last_with_key(library_tracks@, q) is Some && device_view(device_files@, q) is Some)) by {
                                    lemma_has_key_before_step(keys@, k as int, q);
                                }
                            }
                        },
                    }
                },
                None => {
                    proof {
                        assert(device_hash_missing(last_with_key(library_tracks@, p@), device_view(device_files@, p@), last_with_key(hash_cache@, p@)));
                    }
                    return Err(AppError::Io(p.clone()));
                },
            }
        }
        proof {
            assert forall|i: int| 0 <= i < entries@.len() && k + 1 < keys@.len() implies path_lt((#[trigger] entries@[i]).key(), keys@[k + 1].key()) by {
                assert(path_lt(keys@[k as int].key(), keys@[k + 1].key()));
                if i < old_entries.len() {
                    assert(entries@[i] == old_entries[i]);
                    lemma_path_lt_transitive(entries@[i].key(), keys@[k as int].key(), keys@[k + 1].key());
                }
            }
            assert forall|i: int| 0 <= i < cache@.len() && k + 1 < keys@.len() implies path_lt((#[trigger] cache@[i]).key(), keys@[k + 1].key()) by {
                assert(path_lt(keys@[k as int].key(), keys@[k + 1].key()));
                if i < old_cache.len() {
                    assert(cache@[i] == old_cache[i]);
                    lemma_path_lt_transitive(cache@[i].key(), keys@[k as int].key(), keys@[k + 1].key());
                }
            }
        }
        k = k + 1;
    }
    proof {
        assert forall|q: Seq<char>| !(#[trigger] device_hash_missing(last_with_key(library_tracks@, q), device_view(device_files@, q), last_with_key(hash_cache@, q))) by {
            if device_hash_missing(last_with_key(library_tracks@, q), device_view(device_files@, q), last_with_key(hash_cache@, q)) {
                lemma_last_with_key_has_key(lib@, q);
                assert(last_with_key(lib@, q) == last_with_key(library_tracks@, q));
                assert(has_key(keys@, q));
                let m = choose|m: int| 0 <= m < keys@.len() && #[trigger] keys@[m].key() == q;
            }
        }
        assert forall|q: Seq<char>| has_key_before(keys@, k as int, q) == (last_with_key(library_tracks@, q) is Some || device_view(device_files@, q) is Some)
            || !(last_with_key(library_tracks@, q) is Some || device_view(device_files@, q) is Some) by {
            lemma_last_with_key_has_key(lib@, q);
            lemma_last_with_key_has_key(dev@, q);
            assert(last_with_key(lib@, q) == last_with_key(library_tracks@, q));
            assert(last_with_key(dev@, q) == last_with_key(device_files@, q));
            assert(has_key_before(keys@, k as int, q) == has_key(keys@, q));
        }
        assert forall|i: int| 0 <= i < entries@.len() implies (#[trigger] entries@[i]).action != DiffAction::Conflict by {
            assert(device_entry(entries@[i], last_with_key(library_tracks@, entries@[i].key()), device_view(device_files@, entries@[i].key()), last_with_key(hash_cache@, entries@[i].key())));
        }
        lemma_count_action_absent(entries@, DiffAction::Conflict);
    }
    Ok((summarize(device_id, entries), cache))
}


/// The track needs hashing: both sides hold the path, the probe fails, and
/// the catalog has no hash for the track.
pub open spec fn track_needs_hash(tr: Option<Track>, f: Option<FileStat>) -> bool {
    match (tr, f) {
        (Some(tr), Some(f)) => !track_fingerprint_matches(tr, f) && tr.hash is None,
        _ => false,
    }
}

/// The device file needs hashing: both sides hold the path, the probe fails,
/// and the cache does not describe the live file.
pub open spec fn device_file_needs_hash(tr: Option<Track>, f: Option<FileStat>, c: Option<CachedFileHash>) -> bool {
    match (tr, f) {
        (Some(tr), Some(f)) => !track_fingerprint_matches(tr, f) && !cache_hit(c, f),
        _ => false,
    }
}

/// The paths, sorted, whose library file and whose device file the device
/// diff will need hashed: the first list names tracks without a catalog
/// hash, the second device files that the cache does not describe.
pub fn device_paths_to_hash(
    library_tracks: &Vec<Track>,
    device_files: &Vec<FileStat>,
    hash_cache: &Vec<CachedFileHash>,
) -> (r: (Vec<String>, Vec<String>))
    ensures
        sorted_by_key(r.0@),
        sorted_by_key(r.1@),
        forall|p: Seq<char>| #[trigger] has_key(r.0@, p) == track_needs_hash(last_with_key(library_tracks@, p), device_view(device_files@, p)),
        forall|p: Seq<char>| #[trigger] has_key(r.1@, p) == device_file_needs_hash(last_with_key(library_tracks@, p), device_view(device_files@, p), last_with_key(hash_cache@, p)),
{
    let lib = index_by_path(library_tracks);
    let dev = index_by_path(device_files);
    let prior = index_by_path(hash_cache);
    let keys = merge_paths(&lib, &dev);
    let mut tracks_out: Vec<String> = Vec::new();
    let mut files_out: Vec<String> = Vec::new();
    let mut k: usize = 0;
    while k < keys.len()
        invariant
            k <= keys@.len(),
            sorted_by_key(lib@),
            sorted_by_key(dev@),
            sorted_by_key(prior@),
            sorted_by_key(keys@),
            forall|q: Seq<char>| #[trigger] last_with_key(lib@, q) == last_with_key(library_tracks@, q),
            forall|q: Seq<char>| #[trigger] last_with_key(dev@, q) == last_with_key(device_files@, q),
            forall|q: Seq<char>| #[trigger] last_with_key(prior@, q) == last_with_key(hash_cache@, q),
            forall|p: Seq<char>| #[trigger] has_key(keys@, p) == (has_key(lib@, p) || has_key(dev@, p)),
            forall|i: int| 0 <= i < tracks_out@.len() && k < keys@.len() ==> path_lt((#[trigger] tracks_out@[i]).key(), keys@[k as int].key()),
            forall|i: int| 0 <= i < files_out@.len() && k < keys@.len() ==> path_lt((#[trigger] files_out@[i]).key(), keys@[k as int].key()),
            sorted_by_key(tracks_out@),
            sorted_by_key(files_out@),
            forall|p: Seq<char>| #[trigger] has_key(tracks_out@, p) == (has_key_before(keys@, k as int, p)
                && track_needs_hash(last_with_key(library_tracks@, p), device_view(device_files@, p))),
            forall|p: Seq<char>| #[trigger] has_key(files_out@, p) == (has_key_before(keys@, k as int, p)
                && device_file_needs_hash(last_with_key(library_tracks@, p), device_view(device_files@, p), last_with_key(hash_cache@, p))),
        decreases keys@.len() - k,
    {
        let p = &keys[k];
        let tr = lookup(&lib, p.as_str());
        let f = device_lookup(&dev, p, Ghost(device_files@));
        let c = lookup(&prior, p.as_str());
        let ghost old_t = tracks_out@;
        let ghost old_f = files_out@;
        proof {
            assert forall|q: Seq<char>| has_key_before(keys@, k + 1, q) == (has_key_before(keys@, k as int, q) || keys@[k as int].key() == q) by {
                lemma_has_key_before_step(keys@, k as int, q);
            }
        }
        let (want_track, want_file) = match (tr, f) {
            (Some(tr), Some(f)) => {
                let probe_fails = !(tr.file_size == f.size && tr.modified_at == f.modified);
                let hit = match c {
                    Some(c) => c.file_size == f.size && c.modified_at == f.modified,
                    None => false,
                };
                (probe_fails && tr.hash.is_none(), probe_fails && !hit)
            },
            _ => (false, false),
        };
        if want_track {
            let x = p.clone();
            tracks_out.push(x);
            proof {
                assert(tracks_out@[old_t.len() as int] == x);
                lemma_push_sorted(old_t, x);
                assert forall|q: Seq<char>| #[trigger] has_key(tracks_out@, q) == (has_key_before(keys@, k + 1, q)
                    && track_needs_hash(last_with_key(library_tracks@, q), device_view(device_files@, q))) by {
                    lemma_has_key_push(old_t, x, q);
                    lemma_has_key_before_step(keys@, k as int, q);
                    assert(has_key(old_t, q) == (has_key_before(keys@, k as int, q)
                        && track_needs_hash(last_with_key(library_tracks@, q), device_view(device_files@, q))));
                }
            }
        }
        if want_file {
            let x = p.clone();
            files_out.push(x);
            proof {
                assert(files_out@[old_f.len() as int] == x);
                lemma_push_sorted(old_f, x);
                assert forall|q: Seq<char>| #[trigger] has_key(files_out@, q) == (has_key_before(keys@, k + 1, q)
                    && device_file_needs_hash(last_with_key(library_tracks@, q), device_view(device_files@, q), last_with_key(hash_cache@, q))) by {
                    lemma_has_key_push(old_f, x, q);
                    lemma_has_key_before_step(keys@, k as int, q);
                    assert(has_key(old_f, q) == (has_key_before(keys@, k as int, q)
                        && device_file_needs_hash(last_with_key(library_tracks@, q), device_view(device_files@, q), last_with_key(hash_cache@, q))));
                }
            }
        }
        proof {
            assert forall|i: int| 0 <= i < tracks_out@.len() && k + 1 < keys@.len() implies path_lt((#[trigger] tracks_out@[i]).key(), keys@[k + 1].key()) by {
                assert(path_lt(keys@[k as int].key(), keys@[k + 1].key()));
                if i < old_t.len() {
                    assert(tracks_out@[i] == old_t[i]);
                    lemma_path_lt_transitive(tracks_out@[i].key(), keys@[k as int].key(), keys@[k + 1].key());
                }
            }
            assert forall|i: int| 0 <= i < files_out@.len() && k + 1 < keys@.len() implies path_lt((#[trigger] files_out@[i]).key(), keys@[k + 1].key()) by {
                assert(path_lt(keys@[k as int].key(), keys@[k + 1].key()));
                if i < old_f.len() {
                    assert(files_out@[i] == old_f[i]);
                    lemma_path_lt_transitive(files_out@[i].key(), keys@[k as int].key(), keys@[k + 1].key());
                }
            }
        }
        k = k + 1;
    }
    proof {
        assert forall|q: Seq<char>| has_key_before(keys@, k as int, q) == track_needs_hash(last_with_key(library_tracks@, q), device_view(device_files@, q))
            || !track_needs_hash(last_with_key(library_tracks@, q), device_view(device_files@, q)) by {
            lemma_last_with_key_has_key(lib@, q);
            assert(last_with_key(lib@, q) == last_with_key(library_tracks@, q));
            assert(has_key_before(keys@, k as int, q) == has_key(keys@, q));
        }
        assert forall|q: Seq<char>| has_key_before(keys@, k as int, q) == device_file_needs_hash(last_with_key(library_tracks@, q), device_view(device_files@, q), last_with_key(hash_cache@, q))
            || !device_file_needs_hash(last_with_key(library_tracks@, q), device_view(device_files@, q), last_with_key(hash_cache@, q)) by {
            lemma_last_with_key_has_key(lib@, q);
            assert(last_with_key(lib@, q) == last_with_key(library_tracks@, q));
            assert(has_key_before(keys@, k as int, q) == has_key(keys@, q));
        }
    }
    (tracks_out, files_out)
}

} // verus!
