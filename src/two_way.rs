//! Two-way diff against a baseline: a three-way merge that reports conflicts.
use vstd::prelude::*;
use crate::model::{
    AppError, Conflict, ConflictType, DiffAction, DiffDirection, DiffEntry, DiffResult,
    FileBaseline, FileState,
};
use crate::order::{lemma_path_lt_transitive, path_lt};
use crate::pathmap::{
    has_key, has_key_before, index_by_path, last_with_key, lemma_has_key_before_step,
    lemma_has_key_push, lemma_push_sorted, lemma_last_with_key_has_key, lookup, merge_paths, sorted_by_key, PathKeyed,
};
use crate::paths::{is_kept_in_walk, kept_in_walk};
use crate::tally::{count_action, summarize, tallies_hold};

verus! {

/// What a hashed walk denotes at `p`: the last record for `p`, if the file takes part.
pub open spec fn state_view(items: Seq<FileState>, patterns: Seq<String>, p: Seq<char>) -> Option<FileState> {
    if kept_in_walk(p, patterns) {
        last_with_key(items, p)
    } else {
        None
    }
}

/// The source's content differs from what the baseline recorded for it.
pub open spec fn source_changed(b: FileBaseline, s: FileState) -> bool {
    match b.source_hash {
        Some(h) => h@ != s.hash@,
        None => true,
    }
}

/// The target's content differs from what the baseline recorded for it.
pub open spec fn target_changed(b: FileBaseline, t: FileState) -> bool {
    match b.target_hash {
        Some(h) => h@ != t.hash@,
        None => true,
    }
}

/// The three-way merge table: action, direction and, for a conflict, its kind.
pub open spec fn two_way_outcome(s: Option<FileState>, t: Option<FileState>, b: Option<FileBaseline>) -> (DiffAction, DiffDirection, Option<ConflictType>) {
    match (s, t, b) {
        (Some(s), Some(t), Some(b)) => {
            let sc = source_changed(b, s);
            let tc = target_changed(b, t);
            if !sc && !tc {
                (DiffAction::Unchanged, DiffDirection::Both, None)
            } else if sc && !tc {
                (DiffAction::Update, DiffDirection::SourceToTarget, None)
            } else if !sc && tc {
                (DiffAction::Update, DiffDirection::TargetToSource, None)
            } else if s.hash@ == t.hash@ {
                (DiffAction::Unchanged, DiffDirection::Both, None)
            } else {
                (DiffAction::Conflict, DiffDirection::Both, Some(ConflictType::BothModified))
            }
        },
        (Some(s), Some(t), None) => {
            if s.hash@ == t.hash@ {
                (DiffAction::Unchanged, DiffDirection::Both, None)
            } else {
                (DiffAction::Conflict, DiffDirection::Both, Some(ConflictType::FirstSyncDiffers))
            }
        },
        (Some(_), None, None) => (DiffAction::Add, DiffDirection::SourceToTarget, None),
        (None, Some(_), None) => (DiffAction::Add, DiffDirection::TargetToSource, None),
        (Some(s), None, Some(b)) => {
            if source_changed(b, s) {
                (DiffAction::Conflict, DiffDirection::Both, Some(ConflictType::DeletedAndModified))
            } else {
                (DiffAction::Remove, DiffDirection::SourceToTarget, None)
            }
        },
        (None, Some(t), Some(b)) => {
            if target_changed(b, t) {
                (DiffAction::Conflict, DiffDirection::Both, Some(ConflictType::DeletedAndModified))
            } else {
                (DiffAction::Remove, DiffDirection::TargetToSource, None)
            }
        },
        (None, None, _) => (DiffAction::Unchanged, DiffDirection::Both, None),
    }
}

pub open spec fn state_size(o: Option<FileState>) -> Option<u64> {
    match o {
        Some(f) => Some(f.size),
        None => None,
    }
}

pub open spec fn state_modified(o: Option<FileState>) -> Option<i64> {
    match o {
        Some(f) => Some(f.modified),
        None => None,
    }
}

pub open spec fn state_hash(o: Option<FileState>) -> Option<String> {
    match o {
        Some(f) => Some(f.hash),
        None => None,
    }
}

/// An entry of a two-way diff: the merge table's decision with both sides' observations.
pub open spec fn two_way_entry(e: DiffEntry, s: Option<FileState>, t: Option<FileState>, b: Option<FileBaseline>) -> bool {
    &&& (s is Some || t is Some || b is Some)
    &&& e.action == two_way_outcome(s, t, b).0
    &&& e.direction == two_way_outcome(s, t, b).1
    &&& e.source_size == state_size(s)
    &&& e.target_size == state_size(t)
    &&& e.source_hash == state_hash(s)
    &&& e.target_hash == state_hash(t)
    &&& e.source_modified == state_modified(s)
    &&& e.target_modified == state_modified(t)
}

/// The conflict record of a path on which the merge table reports a conflict.
pub open spec fn conflict_record(c: Conflict, s: Option<FileState>, t: Option<FileState>, b: Option<FileBaseline>) -> bool {
    &&& two_way_outcome(s, t, b).2 == Some(c.conflict_type)
    &&& c.source_size == state_size(s)
    &&& c.target_size == state_size(t)
    &&& c.source_hash == state_hash(s)
    &&& c.target_hash == state_hash(t)
    &&& c.source_modified == state_modified(s)
    &&& c.target_modified == state_modified(t)
}

/// A path takes part in a two-way diff: it is on a side or in the baseline.
pub open spec fn two_way_present(src: Seq<FileState>, tgt: Seq<FileState>, patterns: Seq<String>, bl: Seq<FileBaseline>, p: Seq<char>) -> bool {
    state_view(src, patterns, p) is Some || state_view(tgt, patterns, p) is Some || last_with_key(bl, p) is Some
}

/// `d` and `conflicts` are the two-way diff of hashed walks `src`, `tgt`
/// against baselines `bl`: one entry per path on either side or in the
/// baseline, sorted, each decided by the merge table; one conflict record,
/// in the same order, per entry whose action is a conflict.
pub open spec fn two_way_diff_holds(
    profile_id: Seq<char>,
    src: Seq<FileState>,
    tgt: Seq<FileState>,
    patterns: Seq<String>,
    bl: Seq<FileBaseline>,
    d: DiffResult,
    conflicts: Seq<Conflict>,
) -> bool {
    &&& d.profile_id@ == profile_id
    &&& sorted_by_key(d.entries@)
    &&& forall|i: int| 0 <= i < d.entries@.len() ==> two_way_entry(
        #[trigger] d.entries@[i],
        state_view(src, patterns, d.entries@[i].key()),
        state_view(tgt, patterns, d.entries@[i].key()),
        last_with_key(bl, d.entries@[i].key()),
    )
    &&& forall|p: Seq<char>| #[trigger] has_key(d.entries@, p) == two_way_present(src, tgt, patterns, bl, p)
    &&& tallies_hold(d)
    &&& sorted_by_key(conflicts)
    &&& conflicts.len() == d.total_conflict
    &&& forall|k: int| 0 <= k < conflicts.len() ==> conflict_record(
        #[trigger] conflicts[k],
        state_view(src, patterns, conflicts[k].key()),
        state_view(tgt, patterns, conflicts[k].key()),
        last_with_key(bl, conflicts[k].key()),
    )
    &&& forall|p: Seq<char>| #[trigger] has_key(conflicts, p) == (two_way_present(src, tgt, patterns, bl, p)
        && two_way_outcome(state_view(src, patterns, p), state_view(tgt, patterns, p), last_with_key(bl, p)).0
        == DiffAction::Conflict)
}

fn opt_state_size(o: Option<&FileState>) -> (r: Option<u64>)
    ensures
        r == state_size(match o {
            Some(f) => Some(*f),
            None => None,
        }),
{
    match o {
        Some(f) => Some(f.size),
        None => None,
    }
}

fn opt_state_modified(o: Option<&FileState>) -> (r: Option<i64>)
    ensures
        r == state_modified(match o {
            Some(f) => Some(*f),
            None => None,
        }),
{
    match o {
        Some(f) => Some(f.modified),
        None => None,
    }
}

fn opt_state_hash(o: Option<&FileState>) -> (r: Option<String>)
    ensures
        r == state_hash(match o {
            Some(f) => Some(*f),
            None => None,
        }),
{
    match o {
        Some(f) => Some(f.hash.clone()),
        None => None,
    }
}

fn hash_differs(recorded: &Option<String>, now: &String) -> (r: bool)
    ensures
        r == match recorded {
            Some(h) => h@ != now@,
            None => true,
        },
{
    match recorded {
        Some(h) => !(*h == *now),
        None => true,
    }
}

/// Runs the merge table on one path.
pub fn two_way_decision(rel: &String, s: Option<&FileState>, t: Option<&FileState>, b: Option<&FileBaseline>) -> (r: (DiffEntry, Option<Conflict>))
    requires
        s is Some || t is Some || b is Some,
    ensures
        ({
            let sv = match s {
                Some(f) => Some(*f),
                None => None,
            };
            let tv = match t {
                Some(f) => Some(*f),
                None => None,
            };
            let bv = match b {
                Some(f) => Some(*f),
                None => None,
            };
            &&& two_way_entry(r.0, sv, tv, bv)
            &&& r.0.relative_path@ == rel@
            &&& (r.1 is Some) == (two_way_outcome(sv, tv, bv).0 == DiffAction::Conflict)
            &&& (r.1 matches Some(c) ==> conflict_record(c, sv, tv, bv) && c.relative_path@ == rel@)
        }),
{
    let (action, direction, kind) = match (s, t, b) {
        (Some(s), Some(t), Some(b)) => {
            let sc = hash_differs(&b.source_hash, &s.hash);
            let tc = hash_differs(&b.target_hash, &t.hash);
            if !sc && !tc {
                (DiffAction::Unchanged, DiffDirection::Both, None)
            } else if sc && !tc {
                (DiffAction::Update, DiffDirection::SourceToTarget, None)
            } else if !sc && tc {
                (DiffAction::Update, DiffDirection::TargetToSource, None)
            } else if s.hash == t.hash {
                (DiffAction::Unchanged, DiffDirection::Both, None)
            } else {
                (DiffAction::Conflict, DiffDirection::Both, Some(ConflictType::BothModified))
            }
        },
        (Some(s), Some(t), None) => {
            if s.hash == t.hash {
                (DiffAction::Unchanged, DiffDirection::Both, None)
            } else {
                (DiffAction::Conflict, DiffDirection::Both, Some(ConflictType::FirstSyncDiffers))
            }
        },
        (Some(_), None, None) => (DiffAction::Add, DiffDirection::SourceToTarget, None),
        (None, Some(_), None) => (DiffAction::Add, DiffDirection::TargetToSource, None),
        (Some(s), None, Some(b)) => {
            if hash_differs(&b.source_hash, &s.hash) {
                (DiffAction::Conflict, DiffDirection::Both, Some(ConflictType::DeletedAndModified))
            } else {
                (DiffAction::Remove, DiffDirection::SourceToTarget, None)
            }
        },
        (None, Some(t), Some(b)) => {
            if hash_differs(&b.target_hash, &t.hash) {
                (DiffAction::Conflict, DiffDirection::Both, Some(ConflictType::DeletedAndModified))
            } else {
                (DiffAction::Remove, DiffDirection::TargetToSource, None)
            }
        },
        (None, None, _) => (DiffAction::Unchanged, DiffDirection::Both, None),
    };
    let entry = DiffEntry {
        relative_path: rel.clone(),
        action,
        direction,
        source_size: opt_state_size(s),
        target_size: opt_state_size(t),
        source_hash: opt_state_hash(s),
        target_hash: opt_state_hash(t),
        source_modified: opt_state_modified(s),
        target_modified: opt_state_modified(t),
    };
    let conflict = match kind {
        Some(k) => Some(
            Conflict {
                relative_path: rel.clone(),
                conflict_type: k,
                source_hash: opt_state_hash(s),
                target_hash: opt_state_hash(t),
                source_modified: opt_state_modified(s),
                target_modified: opt_state_modified(t),
                source_size: opt_state_size(s),
                target_size: opt_state_size(t),
            },
        ),
        None => None,
    };
    (entry, conflict)
}

/// Looks `p` up in an indexed hashed walk, as the walk denotes it.
fn state_lookup<'a>(idx: &'a Vec<FileState>, p: &String, patterns: &Vec<String>, Ghost(items): Ghost<Seq<FileState>>) -> (r: Option<&'a FileState>)
    requires
        sorted_by_key(idx@),
        forall|q: Seq<char>| #[trigger] last_with_key(idx@, q) == last_with_key(items, q),
    ensures
        match r {
            Some(f) => state_view(items, patterns@, p@) == Some(*f),
            None => state_view(items, patterns@, p@) is None,
        },
{
    if is_kept_in_walk(p.as_str(), patterns) {
        lookup(idx, p.as_str())
    } else {
        None
    }
}

/// Two-way diff of two hashed walks against the baselines of the previous
/// sync. A repeated path counts once, its last record, in the walks and in
/// the baselines alike. Exclusion patterns, the audio rule and the
/// hidden-directory rule apply to the walks, not to the baselines.
pub fn compute_two_way_diff(
    profile_id: &str,
    source: &Vec<FileState>,
    target: &Vec<FileState>,
    exclude_patterns: &Vec<String>,
    baselines: &Vec<FileBaseline>,
) -> (r: Result<(DiffResult, Vec<Conflict>), AppError>)
    ensures
        match r {
            Ok((d, c)) => two_way_diff_holds(profile_id@, source@, target@, exclude_patterns@, baselines@, d, c@),
            Err(_) => false,
        },
{
    let src = index_by_path(source);
    let tgt = index_by_path(target);
    let bl = index_by_path(baselines);
    let walked = merge_paths(&src, &tgt);
    let keys = merge_paths(&walked, &bl);
    let mut entries: Vec<DiffEntry> = Vec::new();
    let mut conflicts: Vec<Conflict> = Vec::new();
    let ghost pats = exclude_patterns@;
    let mut k: usize = 0;
    while k < keys.len()
        invariant
            k <= keys@.len(),
            pats == exclude_patterns@,
            sorted_by_key(src@),
            sorted_by_key(tgt@),
            sorted_by_key(bl@),
            sorted_by_key(keys@),
            forall|q: Seq<char>| #[trigger] last_with_key(src@, q) == last_with_key(source@, q),
            forall|q: Seq<char>| #[trigger] last_with_key(tgt@, q) == last_with_key(target@, q),
            forall|q: Seq<char>| #[trigger] last_with_key(bl@, q) == last_with_key(baselines@, q),
            forall|p: Seq<char>| #[trigger] has_key(walked@, p) == (has_key(src@, p) || has_key(tgt@, p)),
            forall|p: Seq<char>| #[trigger] has_key(keys@, p) == (has_key(walked@, p) || has_key(bl@, p)),
            forall|i: int| 0 <= i < entries@.len() && k < keys@.len() ==> path_lt((#[trigger] entries@[i]).key(), keys@[k as int].key()),
            forall|i: int| 0 <= i < conflicts@.len() && k < keys@.len() ==> path_lt((#[trigger] conflicts@[i]).key(), keys@[k as int].key()),
            sorted_by_key(entries@),
            sorted_by_key(conflicts@),
            conflicts@.len() == count_action(entries@, DiffAction::Conflict),
            forall|i: int| 0 <= i < entries@.len() ==> two_way_entry(
                #[trigger] entries@[i],
                state_view(source@, pats, entries@[i].key()),
                state_view(target@, pats, entries@[i].key()),
                last_with_key(baselines@, entries@[i].key()),
            ),
            forall|i: int| 0 <= i < conflicts@.len() ==> conflict_record(
                #[trigger] conflicts@[i],
                state_view(source@, pats, conflicts@[i].key()),
                state_view(target@, pats, conflicts@[i].key()),
                last_with_key(baselines@, conflicts@[i].key()),
            ),
            forall|p: Seq<char>| #[trigger] has_key(entries@, p) == (has_key_before(keys@, k as int, p)
                && two_way_present(source@, target@, pats, baselines@, p)),
            forall|p: Seq<char>| #[trigger] has_key(conflicts@, p) == (has_key_before(keys@, k as int, p)
                && two_way_present(source@, target@, pats, baselines@, p)
                && two_way_outcome(state_view(source@, pats, p), state_view(target@, pats, p), last_with_key(baselines@, p)).0
                == DiffAction::Conflict),
        decreases keys@.len() - k,
    {
        let p = &keys[k];
        let s = state_lookup(&src, p, exclude_patterns, Ghost(source@));
        let t = state_lookup(&tgt, p, exclude_patterns, Ghost(target@));
        let b = lookup(&bl, p.as_str());
        let ghost old_entries = entries@;
        let ghost old_conflicts = conflicts@;
        proof {
            assert forall|q: Seq<char>| has_key_before(keys@, k + 1, q) == (has_key_before(keys@, k as int, q) || keys@[k as int].key() == q) by {
                lemma_has_key_before_step(keys@, k as int, q);
            }
        }
        if s.is_some() || t.is_some() || b.is_some() {
            let (e, c) = two_way_decision(p, s, t, b);
            entries.push(e);
            proof {
                assert(entries@.drop_last() =~= old_entries);
                assert(entries@[old_entries.len() as int] == e);
                lemma_push_sorted(old_entries, e);
                assert forall|i: int| 0 <= i < entries@.len() implies two_way_entry(
                    #[trigger] entries@[i],
                    state_view(source@, pats, entries@[i].key()),
                    state_view(target@, pats, entries@[i].key()),
                    last_with_key(baselines@, entries@[i].key()),
                ) by {
                    if i < old_entries.len() {
                        assert(entries@[i] == old_entries[i]);
                    }
                }
                assert forall|q: Seq<char>| #[trigger] has_key(entries@, q) == (has_key_before(keys@, k + 1, q)
                    && two_way_present(source@, target@, pats, baselines@, q)) by {
                    lemma_has_key_push(old_entries, e, q);
                    lemma_has_key_before_step(keys@, k as int, q);
                    assert(has_key(old_entries, q) == (has_key_before(keys@, k as int, q)
                        && two_way_present(source@, target@, pats, baselines@, q)));
                }
            }
            match c {
                Some(c) => {
                    conflicts.push(c);
                    proof {
                        assert(conflicts@[old_conflicts.len() as int] == c);
                        lemma_push_sorted(old_conflicts, c);
                        assert forall|i: int| 0 <= i < conflicts@.len() implies conflict_record(
                            #[trigger] conflicts@[i],
                            state_view(source@, pats, conflicts@[i].key()),
                            state_view(target@, pats, conflicts@[i].key()),
                            last_with_key(baselines@, conflicts@[i].key()),
                        ) by {
                            if i < old_conflicts.len() {
                                assert(conflicts@[i] == old_conflicts[i]);
                            }
                        }
                        assert forall|q: Seq<char>| #[trigger] has_key(conflicts@, q) == (has_key_before(keys@, k + 1, q)
                            && two_way_present(source@, target@, pats, baselines@, q)
                            && two_way_outcome(state_view(source@, pats, q), state_view(target@, pats, q), last_with_key(baselines@, q)).0
                            == DiffAction::Conflict) by {
                            lemma_has_key_push(old_conflicts, c, q);
                            lemma_has_key_before_step(keys@, k as int, q);
                            assert(has_key(old_conflicts, q) == (has_key_before(keys@, k as int, q)
                                && two_way_present(source@, target@, pats, baselines@, q)
                                && two_way_outcome(state_view(source@, pats, q), state_view(target@, pats, q), last_with_key(baselines@, q)).0
                                == DiffAction::Conflict));
                        }
                    }
                },
                None => {
                    proof {
                        assert forall|q: Seq<char>| #[trigger] has_key(conflicts@, q) == (has_key_before(keys@, k + 1, q)
                            && two_way_present(source@, target@, pats, baselines@, q)
                            && two_way_outcome(state_view(source@, pats, q), state_view(target@, pats, q), last_with_key(baselines@, q)).0
                            == DiffAction::Conflict) by {
                            lemma_has_key_before_step(keys@, k as int, q);
                        }
                    }
                },
            }
        }
        proof {
            assert forall|i: int| 0 <= i < entries@.len() && k + 1 < keys@.len() implies path_lt((#[trigger] entries@[i]).key(), keys@[k + 1].key()) by {
                assert(path_lt(keys@[k as int].key(), keys@[k + 1].key()));
                if i < old_entries.len() {
                    assert(entries@[i] == old_entries[i]);
                    lemma_path_lt_transitive(entries@[i].key(), keys@[k as int].key(), keys@[k + 1].key());
                }
            }
            assert forall|i: int| 0 <= i < conflicts@.len() && k + 1 < keys@.len() implies path_lt((#[trigger] conflicts@[i]).key(), keys@[k + 1].key()) by {
                assert(path_lt(keys@[k as int].key(), keys@[k + 1].key()));
                if i < old_conflicts.len() {
                    assert(conflicts@[i] == old_conflicts[i]);
                    lemma_path_lt_transitive(conflicts@[i].key(), keys@[k as int].key(), keys@[k + 1].key());
                }
            }
        }
        k = k + 1;
    }
    proof {
        assert forall|q: Seq<char>| has_key_before(keys@, k as int, q) == two_way_present(source@, target@, pats, baselines@, q)
            || !two_way_present(source@, target@, pats, baselines@, q) by {
            lemma_last_with_key_has_key(src@, q);
            lemma_last_with_key_has_key(tgt@, q);
            lemma_last_with_key_has_key(bl@, q);
            assert(last_with_key(src@, q) == last_with_key(source@, q));
            assert(last_with_key(tgt@, q) == last_with_key(target@, q));
            assert(last_with_key(bl@, q) == last_with_key(baselines@, q));
            assert(has_key_before(keys@, k as int, q) == has_key(keys@, q));
            assert(has_key(keys@, q) == (has_key(walked@, q) || has_key(bl@, q)));
            assert(has_key(walked@, q) == (has_key(src@, q) || has_key(tgt@, q)));
        }
    }
    Ok((summarize(profile_id, entries), conflicts))
}

} // verus!
