//! Properties that hold of every diff, stated over the diff functions' contracts.
use vstd::prelude::*;
use crate::baseline::{baseline_record, baselines_hold};
use crate::device::{cache_hit, device_diff_holds, device_view, new_cache_entry};
use crate::model::{CachedFileHash, Conflict, DiffAction, DiffResult, FileBaseline, FileStat, FileState, Track};
use crate::one_way::{fingerprint_matches, one_way_action, one_way_diff_holds, one_way_entry, walk_view};
use crate::order::lemma_path_lt_asymmetric;
use crate::pathmap::{has_key, last_with_key, lemma_last_with_key_at, sorted_by_key, PathKeyed};
use crate::tally::{count_action, lemma_count_action_uniform};
use crate::two_way::{state_view, two_way_diff_holds, two_way_entry, two_way_present};

verus! {

/// No two records of a path-sorted sequence share a path: each relative
/// path occurs at most once among a diff's entries.
pub proof fn lemma_sorted_paths_unique<T: PathKeyed>(s: Seq<T>)
    requires
        sorted_by_key(s),
    ensures
        forall|i: int, j: int| 0 <= i < s.len() && 0 <= j < s.len() && i != j ==> #[trigger] s[i].key() != #[trigger] s[j].key(),
{
    assert forall|i: int, j: int| 0 <= i < s.len() && 0 <= j < s.len() && i != j implies #[trigger] s[i].key() != #[trigger] s[j].key() by {
        if i < j {
            lemma_path_lt_asymmetric(s[i].key(), s[j].key());
        } else {
            lemma_path_lt_asymmetric(s[j].key(), s[i].key());
        }
    }
}

/// Executing a one-way diff leaves the target with exactly the source's
/// paths: every source path has an entry, and an entry removes its path
/// exactly when the source lacks it. Every kept path already matched the
/// source by fingerprint or by hash; an add or update copies the source's bytes.
pub proof fn lemma_one_way_sync_reproduces_source(
    profile_id: Seq<char>,
    src: Seq<FileStat>,
    tgt: Seq<FileStat>,
    patterns: Seq<String>,
    d: DiffResult,
)
    requires
        one_way_diff_holds(profile_id, src, tgt, patterns, d),
    ensures
        forall|p: Seq<char>| walk_view(src, patterns, p) is Some ==> #[trigger] has_key(d.entries@, p),
        forall|i: int| 0 <= i < d.entries@.len() ==> ((#[trigger] d.entries@[i]).action != DiffAction::Remove
            <==> walk_view(src, patterns, d.entries@[i].key()) is Some),
        forall|i: int| 0 <= i < d.entries@.len() && (#[trigger] d.entries@[i]).action == DiffAction::Unchanged ==> ({
            let s = walk_view(src, patterns, d.entries@[i].key())->0;
            let t = walk_view(tgt, patterns, d.entries@[i].key())->0;
            fingerprint_matches(s, t) || s.hash->0@ == t.hash->0@
        }),
{
    assert forall|i: int| 0 <= i < d.entries@.len() implies ((#[trigger] d.entries@[i]).action != DiffAction::Remove
        <==> walk_view(src, patterns, d.entries@[i].key()) is Some) by {
        assert(one_way_entry(d.entries@[i], walk_view(src, patterns, d.entries@[i].key()), walk_view(tgt, patterns, d.entries@[i].key())));
    }
    assert forall|i: int| 0 <= i < d.entries@.len() && (#[trigger] d.entries@[i]).action == DiffAction::Unchanged implies ({
        let s = walk_view(src, patterns, d.entries@[i].key())->0;
        let t = walk_view(tgt, patterns, d.entries@[i].key())->0;
        fingerprint_matches(s, t) || s.hash->0@ == t.hash->0@
    }) by {
        assert(one_way_entry(d.entries@[i], walk_view(src, patterns, d.entries@[i].key()), walk_view(tgt, patterns, d.entries@[i].key())));
    }
}

/// Diffing again right after a one-way sync changes nothing: where the target
/// holds the same paths as the source with the same sizes and mtimes (copies
/// keep the source's mtime), every entry is unchanged, there is one per source
/// path, and nothing is added, removed or updated.
pub proof fn lemma_one_way_rerun_is_unchanged(
    profile_id: Seq<char>,
    src: Seq<FileStat>,
    tgt: Seq<FileStat>,
    patterns: Seq<String>,
    d: DiffResult,
)
    requires
        forall|p: Seq<char>| (#[trigger] walk_view(src, patterns, p) is Some) == (walk_view(tgt, patterns, p) is Some),
        forall|p: Seq<char>| #[trigger] walk_view(src, patterns, p) is Some ==> fingerprint_matches(
            walk_view(src, patterns, p)->0,
            walk_view(tgt, patterns, p)->0,
        ),
        one_way_diff_holds(profile_id, src, tgt, patterns, d),
    ensures
        d.total_add == 0,
        d.total_remove == 0,
        d.total_update == 0,
        d.total_unchanged == d.entries@.len(),
        forall|p: Seq<char>| #[trigger] has_key(d.entries@, p) == (walk_view(src, patterns, p) is Some),
{
    let es = d.entries@;
    assert forall|i: int| 0 <= i < es.len() implies (#[trigger] es[i]).action == DiffAction::Unchanged by {
        assert(one_way_entry(es[i], walk_view(src, patterns, es[i].key()), walk_view(tgt, patterns, es[i].key())));
        assert(walk_view(src, patterns, es[i].key()) is Some || walk_view(tgt, patterns, es[i].key()) is Some);
    }
    lemma_count_action_uniform(es, DiffAction::Unchanged, DiffAction::Add);
    lemma_count_action_uniform(es, DiffAction::Unchanged, DiffAction::Remove);
    lemma_count_action_uniform(es, DiffAction::Unchanged, DiffAction::Update);
    assert forall|p: Seq<char>| #[trigger] has_key(d.entries@, p) == (walk_view(src, patterns, p) is Some) by {
        assert(walk_view(src, patterns, p) is Some == walk_view(tgt, patterns, p) is Some);
    }
}

/// With an empty source, a one-way diff removes every target file and nothing else.
pub proof fn lemma_one_way_empty_source_removes_all(
    profile_id: Seq<char>,
    src: Seq<FileStat>,
    tgt: Seq<FileStat>,
    patterns: Seq<String>,
    d: DiffResult,
)
    requires
        src.len() == 0,
        one_way_diff_holds(profile_id, src, tgt, patterns, d),
    ensures
        forall|i: int| 0 <= i < d.entries@.len() ==> (#[trigger] d.entries@[i]).action == DiffAction::Remove,
        forall|p: Seq<char>| #[trigger] has_key(d.entries@, p) == (walk_view(tgt, patterns, p) is Some),
        d.total_remove == d.entries@.len(),
{
    let es = d.entries@;
    assert forall|i: int| 0 <= i < es.len() implies (#[trigger] es[i]).action == DiffAction::Remove by {
        assert(one_way_entry(es[i], walk_view(src, patterns, es[i].key()), walk_view(tgt, patterns, es[i].key())));
    }
    lemma_count_action_uniform(es, DiffAction::Remove, DiffAction::Add);
}

/// Same size, different mtime and different content: the file is updated.
pub proof fn lemma_one_way_same_size_new_content_updates(s: FileStat, t: FileStat)
    requires
        s.size == t.size,
        s.modified != t.modified,
        s.hash is Some,
        t.hash is Some,
        s.hash->0@ != t.hash->0@,
    ensures
        one_way_action(Some(s), Some(t)) == DiffAction::Update,
{
}

/// Same size and same mtime: the file counts as unchanged whatever its
/// content, the documented limit of the cheap probe.
pub proof fn lemma_one_way_same_fingerprint_unchanged(s: FileStat, t: FileStat)
    requires
        s.size == t.size,
        s.modified == t.modified,
    ensures
        one_way_action(Some(s), Some(t)) == DiffAction::Unchanged,
{
}

/// Diffing two ways right after a successful two-way sync, with the baseline
/// rebuilt from both trees and no conflict held back, finds nothing to do:
/// where both sides hold the same paths with the same content, every entry
/// is unchanged and there is no conflict.
pub proof fn lemma_two_way_rerun_is_unchanged(
    profile_id: Seq<char>,
    src: Seq<FileState>,
    tgt: Seq<FileState>,
    patterns: Seq<String>,
    prior: Seq<FileBaseline>,
    held: Seq<String>,
    bl: Seq<FileBaseline>,
    d: DiffResult,
    conflicts: Seq<Conflict>,
)
    requires
        held.len() == 0,
        forall|p: Seq<char>| (#[trigger] state_view(src, patterns, p) is Some) == (state_view(tgt, patterns, p) is Some),
        forall|p: Seq<char>| #[trigger] state_view(src, patterns, p) is Some ==> state_view(src, patterns, p)->0.hash@
            == state_view(tgt, patterns, p)->0.hash@,
        baselines_hold(src, tgt, patterns, prior, held, bl),
        two_way_diff_holds(profile_id, src, tgt, patterns, bl, d, conflicts),
    ensures
        forall|i: int| 0 <= i < d.entries@.len() ==> (#[trigger] d.entries@[i]).action == DiffAction::Unchanged,
        d.total_add == 0,
        d.total_remove == 0,
        d.total_update == 0,
        d.total_conflict == 0,
        conflicts.len() == 0,
{
    let es = d.entries@;
    assert forall|i: int| 0 <= i < es.len() implies (#[trigger] es[i]).action == DiffAction::Unchanged by {
        let p = es[i].key();
        assert(two_way_entry(es[i], state_view(src, patterns, p), state_view(tgt, patterns, p), last_with_key(bl, p)));
        if state_view(src, patterns, p) is None && state_view(tgt, patterns, p) is None {
        } else {
            assert(!has_key(held, p));
            assert(has_key(bl, p));
            let k = choose|k: int| 0 <= k < bl.len() && #[trigger] bl[k].key() == p;
            lemma_last_with_key_at(bl, k);
            assert(!has_key(held, bl[k].key()));
            assert(baseline_record(bl[k], state_view(src, patterns, p), state_view(tgt, patterns, p)));
        }
    }
    lemma_count_action_uniform(es, DiffAction::Unchanged, DiffAction::Add);
    lemma_count_action_uniform(es, DiffAction::Unchanged, DiffAction::Remove);
    lemma_count_action_uniform(es, DiffAction::Unchanged, DiffAction::Update);
    lemma_count_action_uniform(es, DiffAction::Unchanged, DiffAction::Conflict);
    if conflicts.len() > 0 {
        let p = conflicts[0].key();
        assert(has_key(conflicts, p));
        assert(two_way_present(src, tgt, patterns, bl, p));
        assert(has_key(es, p));
        let i = choose|i: int| 0 <= i < es.len() && #[trigger] es[i].key() == p;
        assert(es[i].action == DiffAction::Unchanged);
        assert(two_way_entry(es[i], state_view(src, patterns, p), state_view(tgt, patterns, p), last_with_key(bl, p)));
    }
}

/// Every hash in a device diff's new cache is empty, or was computed in this
/// run for the device file, or comes from a cache entry whose size and mtime
/// match the live file.
pub proof fn lemma_device_cache_consistent(
    device_id: Seq<char>,
    tracks: Seq<Track>,
    files: Seq<FileStat>,
    prior: Seq<CachedFileHash>,
    d: DiffResult,
    cache: Seq<CachedFileHash>,
)
    requires
        device_diff_holds(device_id, tracks, files, prior, d, cache),
    ensures
        forall|k: int| 0 <= k < cache.len() ==> {
            let p = (#[trigger] cache[k]).key();
            let f = device_view(files, p)->0;
            let c = last_with_key(prior, p);
            ||| cache[k].hash@.len() == 0
            ||| (f.hash is Some && cache[k].hash@ == f.hash->0@)
            ||| (cache_hit(c, f) && cache[k].hash@ == c->0.hash@)
        },
{
    assert forall|k: int| 0 <= k < cache.len() implies {
        let p = (#[trigger] cache[k]).key();
        let f = device_view(files, p)->0;
        let c = last_with_key(prior, p);
        ||| cache[k].hash@.len() == 0
        ||| (f.hash is Some && cache[k].hash@ == f.hash->0@)
        ||| (cache_hit(c, f) && cache[k].hash@ == c->0.hash@)
    } by {
        let p = cache[k].key();
        assert(new_cache_entry(cache[k], last_with_key(tracks, p), device_view(files, p), last_with_key(prior, p)));
    }
}

} // verus!
