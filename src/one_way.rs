//! One-way diff: the source is authoritative.
use vstd::prelude::*;
use crate::model::{AppError, DiffAction, DiffDirection, DiffEntry, DiffResult, FileStat};
use crate::order::{lemma_path_lt_transitive, path_lt};
use crate::pathmap::{
    has_key, has_key_before, index_by_path, last_with_key, lemma_has_key_before_step,
    lemma_has_key_push, lemma_push_sorted, lemma_last_with_key_has_key, lookup, merge_paths, sorted_by_key, PathKeyed,
};
use crate::paths::{is_kept_in_walk, kept_in_walk};
use crate::tally::{lemma_count_action_absent, summarize, tallies_hold};
use crate::model::clone_opt_string;

verus! {

/// What a walk denotes at `p`: the last record for `p`, if the file takes part.
pub open spec fn walk_view(items: Seq<FileStat>, patterns: Seq<String>, p: Seq<char>) -> Option<FileStat> {
    if kept_in_walk(p, patterns) {
        last_with_key(items, p)
    } else {
        None
    }
}

/// The cheap equivalence probe: same size and same modification time.
pub open spec fn fingerprint_matches(s: FileStat, t: FileStat) -> bool {
    s.size == t.size && s.modified == t.modified
}

/// Both sides hold the file, the probe fails, and a content hash is missing.
pub open spec fn hash_missing(s: Option<FileStat>, t: Option<FileStat>) -> bool {
    match (s, t) {
        (Some(a), Some(b)) => !fingerprint_matches(a, b) && (a.hash is None || b.hash is None),
        _ => false,
    }
}

/// The action a one-way diff takes on a path with these observations.
pub open spec fn one_way_action(s: Option<FileStat>, t: Option<FileStat>) -> DiffAction {
    match (s, t) {
        (Some(_), None) => DiffAction::Add,
        (None, Some(_)) => DiffAction::Remove,
        (Some(a), Some(b)) => {
            if fingerprint_matches(a, b) {
                DiffAction::Unchanged
            } else if a.hash->0@ == b.hash->0@ {
                DiffAction::Unchanged
            } else {
                DiffAction::Update
            }
        },
        (None, None) => DiffAction::Unchanged,
    }
}

pub open spec fn opt_size(o: Option<FileStat>) -> Option<u64> {
    match o {
        Some(f) => Some(f.size),
        None => None,
    }
}

pub open spec fn opt_modified(o: Option<FileStat>) -> Option<i64> {
    match o {
        Some(f) => Some(f.modified),
        None => None,
    }
}

/// An entry of a one-way diff for observations `s` (source) and `t` (target).
/// Hashes are reported where the diff compared them, and the source's for an add.
pub open spec fn one_way_entry(e: DiffEntry, s: Option<FileStat>, t: Option<FileStat>) -> bool {
    &&& (s is Some || t is Some)
    &&& e.action == one_way_action(s, t)
    &&& e.direction == DiffDirection::SourceToTarget
    &&& e.source_size == opt_size(s)
    &&& e.target_size == opt_size(t)
    &&& e.source_modified == opt_modified(s)
    &&& e.target_modified == opt_modified(t)
    &&& match (s, t) {
        (Some(a), None) => e.source_hash == a.hash && e.target_hash is None,
        (Some(a), Some(b)) => if fingerprint_matches(a, b) {
            e.source_hash is None && e.target_hash is None
        } else {
            e.source_hash == a.hash && e.target_hash == b.hash
        },
        _ => e.source_hash is None && e.target_hash is None,
    }
}

/// `d` is the one-way diff of the walks `src` and `tgt` under `patterns`:
/// one entry per path present on either side, sorted by path, each decided
/// by the observations at its path, with counters that match the entries.
pub open spec fn one_way_diff_holds(
    profile_id: Seq<char>,
    src: Seq<FileStat>,
    tgt: Seq<FileStat>,
    patterns: Seq<String>,
    d: DiffResult,
) -> bool {
    &&& d.profile_id@ == profile_id
    &&& sorted_by_key(d.entries@)
    &&& forall|i: int| 0 <= i < d.entries@.len() ==> one_way_entry(
        #[trigger] d.entries@[i],
        walk_view(src, patterns, d.entries@[i].key()),
        walk_view(tgt, patterns, d.entries@[i].key()),
    )
    &&& forall|p: Seq<char>| #[trigger] has_key(d.entries@, p) == (walk_view(src, patterns, p) is Some
        || walk_view(tgt, patterns, p) is Some)
    &&& tallies_hold(d)
    &&& d.total_conflict == 0
}

/// Some path present on both sides fails the probe and lacks a content hash.
pub open spec fn one_way_hash_missing(src: Seq<FileStat>, tgt: Seq<FileStat>, patterns: Seq<String>) -> bool {
    exists|p: Seq<char>| #[trigger] hash_missing(walk_view(src, patterns, p), walk_view(tgt, patterns, p))
}

fn stat_size(o: Option<&FileStat>) -> (r: Option<u64>)
    ensures
        r == opt_size(match o {
            Some(f) => Some(*f),
            None => None,
        }),
{
    match o {
        Some(f) => Some(f.size),
        None => None,
    }
}

fn stat_modified(o: Option<&FileStat>) -> (r: Option<i64>)
    ensures
        r == opt_modified(match o {
            Some(f) => Some(*f),
            None => None,
        }),
{
    match o {
        Some(f) => Some(f.modified),
        None => None,
    }
}

/// Decides one path present on at least one side; `None` where a needed hash is missing.
pub fn one_way_decision(rel: &String, s: Option<&FileStat>, t: Option<&FileStat>) -> (r: Option<DiffEntry>)
    requires
        s is Some || t is Some,
    ensures
        ({
            let sv = match s {
                Some(f) => Some(*f),
                None => None,
            };
            let tv = match t {
                Some(f) => Some(*f),
                None => None,
            };
            match r {
                Some(e) => !hash_missing(sv, tv) && one_way_entry(e, sv, tv) && e.relative_path@ == rel@,
                None => hash_missing(sv, tv),
            }
        }),
{
    let source_size = stat_size(s);
    let target_size = stat_size(t);
    let source_modified = stat_modified(s);
    let target_modified = stat_modified(t);
    let (action, source_hash, target_hash) = match (s, t) {
        (Some(a), None) => (DiffAction::Add, clone_opt_string(&a.hash), None),
        (None, Some(_)) => (DiffAction::Remove, None, None),
        (Some(a), Some(b)) => {
            if a.size == b.size && a.modified == b.modified {
                (DiffAction::Unchanged, None, None)
            } else {
                match (&a.hash, &b.hash) {
                    (Some(ha), Some(hb)) => {
                        let action = if *ha == *hb {
                            DiffAction::Unchanged
                        } else {
                            DiffAction::Update
                        };
                        (action, Some(ha.clone()), Some(hb.clone()))
                    },
                    _ => {
                        return None;
                    },
                }
            }
        },
        (None, None) => (DiffAction::Unchanged, None, None),
    };
    Some(
        DiffEntry {
            relative_path: rel.clone(),
            action,
            direction: DiffDirection::SourceToTarget,
            source_size,
            target_size,
            source_hash,
            target_hash,
            source_modified,
            target_modified,
        },
    )
}

/// Looks `p` up in an indexed walk, as the walk denotes it.
fn walk_lookup<'a>(idx: &'a Vec<FileStat>, p: &String, patterns: &Vec<String>, Ghost(items): Ghost<Seq<FileStat>>) -> (r: Option<&'a FileStat>)
    requires
        sorted_by_key(idx@),
        forall|q: Seq<char>| #[trigger] last_with_key(idx@, q) == last_with_key(items, q),
    ensures
        match r {
            Some(f) => walk_view(items, patterns@, p@) == Some(*f),
            None => walk_view(items, patterns@, p@) is None,
        },
{
    if is_kept_in_walk(p.as_str(), patterns) {
        lookup(idx, p.as_str())
    } else {
        None
    }
}

/// One-way diff of two walks. Each walk lists `(path, size, mtime, hash?)`; a
/// repeated path counts once, its last record. Only audio files outside
/// hidden directories that no exclusion pattern matches take part. Where a
/// path is on both sides with a differing size or mtime, both records must
/// carry a content hash: else the diff fails with an I/O error naming the path.
pub fn compute_one_way_diff(
    profile_id: &str,
    source: &Vec<FileStat>,
    target: &Vec<FileStat>,
    exclude_patterns: &Vec<String>,
) -> (r: Result<DiffResult, AppError>)
    ensures
        r is Ok <==> !one_way_hash_missing(source@, target@, exclude_patterns@),
        match r {
            Ok(d) => one_way_diff_holds(profile_id@, source@, target@, exclude_patterns@, d),
            Err(e) => e is Io,
        },
{
    let src = index_by_path(source);
    let tgt = index_by_path(target);
    let keys = merge_paths(&src, &tgt);
    let mut entries: Vec<DiffEntry> = Vec::new();
    let mut k: usize = 0;
    while k < keys.len()
        invariant
            k <= keys@.len(),
            sorted_by_key(src@),
            sorted_by_key(tgt@),
            sorted_by_key(keys@),
            forall|q: Seq<char>| #[trigger] last_with_key(src@, q) == last_with_key(source@, q),
            forall|q: Seq<char>| #[trigger] last_with_key(tgt@, q) == last_with_key(target@, q),
            forall|p: Seq<char>| #[trigger] has_key(keys@, p) == (has_key(src@, p) || has_key(tgt@, p)),
            forall|i: int| 0 <= i < entries@.len() && k < keys@.len() ==> path_lt((#[trigger] entries@[i]).key(), keys@[k as int].key()),
            sorted_by_key(entries@),
            forall|i: int| 0 <= i < entries@.len() ==> one_way_entry(
                #[trigger] entries@[i],
                walk_view(source@, exclude_patterns@, entries@[i].key()),
                walk_view(target@, exclude_patterns@, entries@[i].key()),
            ),
            forall|p: Seq<char>| #[trigger] has_key(entries@, p) == (has_key_before(keys@, k as int, p) && (walk_view(source@, exclude_patterns@, p) is Some
                || walk_view(target@, exclude_patterns@, p) is Some)),
            forall|m: int| 0 <= m < k ==> !hash_missing(walk_view(source@, exclude_patterns@, #[trigger] keys@[m].key()), walk_view(target@, exclude_patterns@, keys@[m].key())),
        decreases keys@.len() - k,
    {
        let p = &keys[k];
        let s = walk_lookup(&src, p, exclude_patterns, Ghost(source@));
        let t = walk_lookup(&tgt, p, exclude_patterns, Ghost(target@));
        let ghost old_entries = entries@;
        let ghost sv = walk_view(source@, exclude_patterns@, p@);
        let ghost tv = walk_view(target@, exclude_patterns@, p@);
        proof {
            assert forall|q: Seq<char>| has_key_before(keys@, k + 1, q) == (has_key_before(keys@, k as int, q) || keys@[k as int].key() == q) by {
                lemma_has_key_before_step(keys@, k as int, q);
            }
        }
        if s.is_some() || t.is_some() {
            match one_way_decision(p, s, t) {
                Some(e) => {
                    entries.push(e);
                    proof {
                        assert(entries@[old_entries.len() as int] == e);
                        lemma_push_sorted(old_entries, e);
                        assert forall|i: int| 0 <= i < entries@.len() implies one_way_entry(
                            #[trigger] entries@[i],
                            walk_view(source@, exclude_patterns@, entries@[i].key()),
                            walk_view(target@, exclude_patterns@, entries@[i].key()),
                        ) by {
                            if i < old_entries.len() {
                                assert(entries@[i] == old_entries[i]);
                            }
                        }
                        assert forall|q: Seq<char>| #[trigger] has_key(entries@, q) == (has_key_before(keys@, k + 1, q) && (walk_view(source@, exclude_patterns@, q) is Some
                            || walk_view(target@, exclude_patterns@, q) is Some)) by {
                            lemma_has_key_push(old_entries, e, q);
                            lemma_has_key_before_step(keys@, k as int, q);
                            assert(has_key(old_entries, q) == (has_key_before(keys@, k as int, q) && (walk_view(source@, exclude_patterns@, q) is Some
                                || walk_view(target@, exclude_patterns@, q) is Some)));
                            assert(sv is Some || tv is Some);
                        }
                    }
                },
                None => {
                    proof {
                        assert(hash_missing(walk_view(source@, exclude_patterns@, p@), walk_view(target@, exclude_patterns@, p@)));
                    }
                    return Err(AppError::Io(p.clone()));
                },
            }
        }
        proof {
            assert forall|i: int| 0 <= i < entries@.len() && k + 1 < keys@.len() implies path_lt((#[trigger] entries@[i]).key(), keys@[k + 1].key()) by {
                assert(path_lt(keys@[k as int].key(), keys@[k + 1].key()));
                if i < old_entries.len() {
                    assert(entries@[i] == old_entries[i]);
                    lemma_path_lt_transitive(entries@[i].key(), keys@[k as int].key(), keys@[k + 1].key());
                }
            }
        }
        k = k + 1;
    }
    proof {
        assert forall|q: Seq<char>| !(#[trigger] hash_missing(walk_view(source@, exclude_patterns@, q), walk_view(target@, exclude_patterns@, q))) by {
            if hash_missing(walk_view(source@, exclude_patterns@, q), walk_view(target@, exclude_patterns@, q)) {
                lemma_last_with_key_has_key(src@, q);
                assert(has_key(keys@, q));
                let m = choose|m: int| 0 <= m < keys@.len() && #[trigger] keys@[m].key() == q;
            }
        }
        assert forall|q: Seq<char>| #[trigger] has_key(entries@, q) == (walk_view(source@, exclude_patterns@, q) is Some
            || walk_view(target@, exclude_patterns@, q) is Some) by {
            lemma_last_with_key_has_key(src@, q);
            lemma_last_with_key_has_key(tgt@, q);
            assert(last_with_key(src@, q) == last_with_key(source@, q));
            assert(last_with_key(tgt@, q) == last_with_key(target@, q));
            assert(has_key_before(keys@, k as int, q) == has_key(keys@, q));
            assert(has_key(keys@, q) == (has_key(src@, q) || has_key(tgt@, q)));
        }
        assert forall|i: int| 0 <= i < entries@.len() implies (#[trigger] entries@[i]).action != DiffAction::Conflict by {
            assert(one_way_entry(entries@[i], walk_view(source@, exclude_patterns@, entries@[i].key()), walk_view(target@, exclude_patterns@, entries@[i].key())));
        }
        lemma_count_action_absent(entries@, DiffAction::Conflict);
    }
    Ok(summarize(profile_id, entries))
}


/// Both sides hold the file and the cheap probe fails: the diff compares hashes.
pub open spec fn needs_hash(s: Option<FileStat>, t: Option<FileStat>) -> bool {
    match (s, t) {
        (Some(a), Some(b)) => !fingerprint_matches(a, b),
        _ => false,
    }
}

/// The paths, sorted, whose files the one-way diff will compare by content
/// hash, on both sides: those present on both sides whose size or mtime differ.
pub fn one_way_paths_to_hash(
    source: &Vec<FileStat>,
    target: &Vec<FileStat>,
    exclude_patterns: &Vec<String>,
) -> (r: Vec<String>)
    ensures
        sorted_by_key(r@),
        forall|p: Seq<char>| #[trigger] has_key(r@, p) == needs_hash(walk_view(source@, exclude_patterns@, p), walk_view(target@, exclude_patterns@, p)),
{
    let src = index_by_path(source);
    let tgt = index_by_path(target);
    let keys = merge_paths(&src, &tgt);
    let mut out: Vec<String> = Vec::new();
    let ghost pats = exclude_patterns@;
    let mut k: usize = 0;
    while k < keys.len()
        invariant
            k <= keys@.len(),
            pats == exclude_patterns@,
            sorted_by_key(src@),
            sorted_by_key(tgt@),
            sorted_by_key(keys@),
            forall|q: Seq<char>| #[trigger] last_with_key(src@, q) == last_with_key(source@, q),
            forall|q: Seq<char>| #[trigger] last_with_key(tgt@, q) == last_with_key(target@, q),
            forall|p: Seq<char>| #[trigger] has_key(keys@, p) == (has_key(src@, p) || has_key(tgt@, p)),
            forall|i: int| 0 <= i < out@.len() && k < keys@.len() ==> path_lt((#[trigger] out@[i]).key(), keys@[k as int].key()),
            sorted_by_key(out@),
            forall|p: Seq<char>| #[trigger] has_key(out@, p) == (has_key_before(keys@, k as int, p)
                && needs_hash(walk_view(source@, pats, p), walk_view(target@, pats, p))),
        decreases keys@.len() - k,
    {
        let p = &keys[k];
        let s = walk_lookup(&src, p, exclude_patterns, Ghost(source@));
        let t = walk_lookup(&tgt, p, exclude_patterns, Ghost(target@));
        let ghost old_out = out@;
        proof {
            assert forall|q: Seq<char>| has_key_before(keys@, k + 1, q) == (has_key_before(keys@, k as int, q) || keys@[k as int].key() == q) by {
                lemma_has_key_before_step(keys@, k as int, q);
            }
        }
        let wanted = match (s, t) {
            (Some(a), Some(b)) => !(a.size == b.size && a.modified == b.modified),
            _ => false,
        };
        if wanted {
            let x = p.clone();
            out.push(x);
            proof {
                assert(out@[old_out.len() as int] == x);
                lemma_push_sorted(old_out, x);
                assert forall|q: Seq<char>| #[trigger] has_key(out@, q) == (has_key_before(keys@, k + 1, q)
                    && needs_hash(walk_view(source@, pats, q), walk_view(target@, pats, q))) by {
                    lemma_has_key_push(old_out, x, q);
                    lemma_has_key_before_step(keys@, k as int, q);
                    assert(has_key(old_out, q) == (has_key_before(keys@, k as int, q)
                        && needs_hash(walk_view(source@, pats, q), walk_view(target@, pats, q))));
                }
            }
        }
        proof {
            assert forall|i: int| 0 <= i < out@.len() && k + 1 < keys@.len() implies path_lt((#[trigger] out@[i]).key(), keys@[k + 1].key()) by {
                assert(path_lt(keys@[k as int].key(), keys@[k + 1].key()));
                if i < old_out.len() {
                    assert(out@[i] == old_out[i]);
                    lemma_path_lt_transitive(out@[i].key(), keys@[k as int].key(), keys@[k + 1].key());
                }
            }
        }
        k = k + 1;
    }
    proof {
        assert forall|q: Seq<char>| has_key_before(keys@, k as int, q) == needs_hash(walk_view(source@, pats, q), walk_view(target@, pats, q))
            || !needs_hash(walk_view(source@, pats, q), walk_view(target@, pats, q)) by {
            lemma_last_with_key_has_key(src@, q);
            lemma_last_with_key_has_key(tgt@, q);
            assert(last_with_key(src@, q) == last_with_key(source@, q));
            assert(last_with_key(tgt@, q) == last_with_key(target@, q));
            assert(has_key_before(keys@, k as int, q) == has_key(keys@, q));
        }
    }
    out
}

} // verus!
