//! The baseline written after a two-way sync: both trees as they now are.
use vstd::prelude::*;
use crate::executor::resolution_at;
use crate::model::{ConflictResolution, DiffAction, DiffEntry, DiffResult, FileBaseline, FileState, Resolution};
use crate::order::{lemma_path_lt_transitive, path_lt};
use crate::pathmap::{
    has_key, has_key_before, index_by_path, last_with_key, lemma_has_key_before_step,
    lemma_has_key_push, lemma_push_sorted, lemma_last_with_key_at, lemma_last_with_key_has_key, lemma_last_with_key_none,
    lemma_last_with_key_some, lookup, merge_paths, sorted_by_key, PathKeyed,
};
use crate::paths::is_kept_in_walk;
use crate::two_way::{state_hash, state_modified, state_size, state_view};

verus! {

/// A baseline record holds both sides' observations at its path.
pub open spec fn baseline_record(b: FileBaseline, s: Option<FileState>, t: Option<FileState>) -> bool {
    &&& (s is Some || t is Some)
    &&& b.source_hash == state_hash(s)
    &&& b.target_hash == state_hash(t)
    &&& b.source_modified == state_modified(s)
    &&& b.target_modified == state_modified(t)
    &&& b.source_size == state_size(s)
    &&& b.target_size == state_size(t)
}

/// A baseline for the next two-way diff: for a held path (a conflict that
/// was skipped or left unresolved) the prior record, or none as before; for
/// every other path a record of both sides' observations, sorted, for each
/// path on either side of the hashed walks `src` and `tgt`.
pub open spec fn baselines_hold(
    src: Seq<FileState>,
    tgt: Seq<FileState>,
    patterns: Seq<String>,
    prior: Seq<FileBaseline>,
    held: Seq<String>,
    bl: Seq<FileBaseline>,
) -> bool {
    &&& sorted_by_key(bl)
    &&& forall|p: Seq<char>| has_key(held, p) ==> #[trigger] last_with_key(bl, p) == last_with_key(prior, p)
    &&& forall|k: int| 0 <= k < bl.len() && !has_key(held, bl[k].key()) ==> baseline_record(
        #[trigger] bl[k],
        state_view(src, patterns, bl[k].key()),
        state_view(tgt, patterns, bl[k].key()),
    )
    &&& forall|p: Seq<char>| !has_key(held, p) ==> (#[trigger] has_key(bl, p) == (state_view(src, patterns, p) is Some
        || state_view(tgt, patterns, p) is Some))
}

/// A conflict entry whose baseline is kept: its resolution is `Skip`, or it has none.
pub open spec fn holds_baseline(e: DiffEntry, res: Seq<ConflictResolution>) -> bool {
    &&& e.action == DiffAction::Conflict
    &&& match resolution_at(res, e.key()) {
        Some(r) => r == Resolution::Skip,
        None => true,
    }
}

/// The paths of the conflicts of `diff` that were skipped or left
/// unresolved: their baselines stay as they were.
pub fn held_conflict_paths(diff: &DiffResult, resolutions: &Vec<ConflictResolution>) -> (r: Vec<String>)
    ensures
        forall|p: Seq<char>| #[trigger] has_key(r@, p) == exists|i: int|
            0 <= i < diff.entries@.len() && #[trigger] diff.entries@[i].key() == p && holds_baseline(diff.entries@[i], resolutions@),
{
    let res = index_by_path(resolutions);
    let entries = &diff.entries;
    let mut out: Vec<String> = Vec::new();
    let mut k: usize = 0;
    while k < entries.len()
        invariant
            k <= entries@.len(),
            entries@ == diff.entries@,
            sorted_by_key(res@),
            forall|q: Seq<char>| #[trigger] last_with_key(res@, q) == last_with_key(resolutions@, q),
            forall|p: Seq<char>| #[trigger] has_key(out@, p) == exists|i: int|
                0 <= i < k && #[trigger] entries@[i].key() == p && holds_baseline(entries@[i], resolutions@),
        decreases entries@.len() - k,
    {
        let e = &entries[k];
        let take = match e.action {
            DiffAction::Conflict => match lookup(&res, e.relative_path.as_str()) {
                Some(c) => c.resolution == Resolution::Skip,
                None => true,
            },
            _ => false,
        };
        let ghost old_out = out@;
        if take {
            let x = e.relative_path.clone();
            out.push(x);
            proof {
                assert forall|q: Seq<char>| #[trigger] has_key(out@, q) == exists|i: int|
                    0 <= i < k + 1 && #[trigger] entries@[i].key() == q && holds_baseline(entries@[i], resolutions@) by {
                    lemma_has_key_push(old_out, x, q);
                    if has_key(old_out, q) {
                        let i = choose|i: int| 0 <= i < k && #[trigger] entries@[i].key() == q && holds_baseline(entries@[i], resolutions@);
                        assert(0 <= i < k + 1 && entries@[i].key() == q);
                    }
                    if x.key() == q {
                        assert(entries@[k as int].key() == q);
                    }
                    if exists|i: int| 0 <= i < k + 1 && #[trigger] entries@[i].key() == q && holds_baseline(entries@[i], resolutions@) {
                        let i = choose|i: int| 0 <= i < k + 1 && #[trigger] entries@[i].key() == q && holds_baseline(entries@[i], resolutions@);
                        if i < k {
                            assert(has_key(old_out, q));
                        }
                    }
                }
            }
        } else {
            proof {
                assert forall|q: Seq<char>| #[trigger] has_key(out@, q) == exists|i: int|
                    0 <= i < k + 1 && #[trigger] entries@[i].key() == q && holds_baseline(entries@[i], resolutions@) by {
                    if has_key(old_out, q) {
                        let i = choose|i: int| 0 <= i < k && #[trigger] entries@[i].key() == q && holds_baseline(entries@[i], resolutions@);
                        assert(0 <= i < k + 1 && entries@[i].key() == q);
                    }
                    if exists|i: int| 0 <= i < k + 1 && #[trigger] entries@[i].key() == q && holds_baseline(entries@[i], resolutions@) {
                        let i = choose|i: int| 0 <= i < k + 1 && #[trigger] entries@[i].key() == q && holds_baseline(entries@[i], resolutions@);
                        if i < k {
                            assert(has_key(old_out, q));
                        }
                    }
                }
            }
        }
        k = k + 1;
    }
    out
}

fn record_of(rel: &String, s: Option<&FileState>, t: Option<&FileState>) -> (r: FileBaseline)
    requires
        s is Some || t is Some,
    ensures
        r.relative_path@ == rel@,
        baseline_record(
            r,
            match s {
                Some(f) => Some(*f),
                None => None,
            },
            match t {
                Some(f) => Some(*f),
                None => None,
            },
        ),
{
    FileBaseline {
        relative_path: rel.clone(),
        source_hash: match s {
            Some(f) => Some(f.hash.clone()),
            None => None,
        },
        target_hash: match t {
            Some(f) => Some(f.hash.clone()),
            None => None,
        },
        source_modified: match s {
            Some(f) => Some(f.modified),
            None => None,
        },
        target_modified: match t {
            Some(f) => Some(f.modified),
            None => None,
        },
        source_size: match s {
            Some(f) => Some(f.size),
            None => None,
        },
        target_size: match t {
            Some(f) => Some(f.size),
            None => None,
        },
    }
}

/// Builds the baseline of both trees as rewalked and hashed after a sync.
/// A repeated path counts once, its last record; only audio files outside
/// hidden directories that no exclusion pattern matches take part. The
/// `held` paths keep their `prior` record, or stay without one.
pub fn build_post_sync_baselines(
    source: &Vec<FileState>,
    target: &Vec<FileState>,
    exclude_patterns: &Vec<String>,
    prior: &Vec<FileBaseline>,
    held: &Vec<String>,
) -> (r: Vec<FileBaseline>)
    ensures
        baselines_hold(source@, target@, exclude_patterns@, prior@, held@, r@),
{
    let src = index_by_path(source);
    let tgt = index_by_path(target);
    let old = index_by_path(prior);
    let kept = index_by_path(held);
    let walked = merge_paths(&src, &tgt);
    let keys = merge_paths(&walked, &old);
    let mut out: Vec<FileBaseline> = Vec::new();
    let ghost pats = exclude_patterns@;
    let ghost want = |p: Seq<char>| if has_key(held@, p) {
        last_with_key(prior@, p) is Some
    } else {
        state_view(source@, pats, p) is Some || state_view(target@, pats, p) is Some
    };
    let mut k: usize = 0;
    while k < keys.len()
        invariant
            k <= keys@.len(),
            pats == exclude_patterns@,
            want == (|p: Seq<char>| if has_key(held@, p) {
                last_with_key(prior@, p) is Some
            } else {
                state_view(source@, pats, p) is Some || state_view(target@, pats, p) is Some
            }),
            sorted_by_key(src@),
            sorted_by_key(tgt@),
            sorted_by_key(old@),
            sorted_by_key(kept@),
            sorted_by_key(keys@),
            forall|q: Seq<char>| #[trigger] last_with_key(src@, q) == last_with_key(source@, q),
            forall|q: Seq<char>| #[trigger] last_with_key(tgt@, q) == last_with_key(target@, q),
            forall|q: Seq<char>| #[trigger] last_with_key(old@, q) == last_with_key(prior@, q),
            forall|q: Seq<char>| #[trigger] last_with_key(kept@, q) == last_with_key(held@, q),
            forall|p: Seq<char>| #[trigger] has_key(walked@, p) == (has_key(src@, p) || has_key(tgt@, p)),
            forall|p: Seq<char>| #[trigger] has_key(keys@, p) == (has_key(walked@, p) || has_key(old@, p)),
            forall|i: int| 0 <= i < out@.len() && k < keys@.len() ==> path_lt((#[trigger] out@[i]).key(), keys@[k as int].key()),
            sorted_by_key(out@),
            forall|i: int| 0 <= i < out@.len() ==> {
                &&& has_key(held@, (#[trigger] out@[i]).key()) ==> last_with_key(prior@, out@[i].key()) == Some(out@[i])
                &&& !has_key(held@, out@[i].key()) ==> baseline_record(
                    out@[i],
                    state_view(source@, pats, out@[i].key()),
                    state_view(target@, pats, out@[i].key()),
                )
            },
            forall|p: Seq<char>| #[trigger] has_key(out@, p) == (has_key_before(keys@, k as int, p) && want(p)),
        decreases keys@.len() - k,
    {
        let p = &keys[k];
        let is_held = lookup(&kept, p.as_str()).is_some();
        proof {
            lemma_last_with_key_has_key(held@, p@);
        }
        let ghost old_out = out@;
        proof {
            assert forall|q: Seq<char>| has_key_before(keys@, k + 1, q) == (has_key_before(keys@, k as int, q) || keys@[k as int].key() == q) by {
                lemma_has_key_before_step(keys@, k as int, q);
            }
        }
        let rec: Option<FileBaseline> = if is_held {
            match lookup(&old, p.as_str()) {
                Some(b) => {
                    proof {
                        lemma_last_with_key_some(old@, p@);
                    }
                    Some(b.duplicate())
                },
                None => None,
            }
        } else {
            let live = is_kept_in_walk(p.as_str(), exclude_patterns);
            let s = if live {
                lookup(&src, p.as_str())
            } else {
                None
            };
            let t = if live {
                lookup(&tgt, p.as_str())
            } else {
                None
            };
            if s.is_some() || t.is_some() {
                Some(record_of(p, s, t))
            } else {
                None
            }
        };
        assert(rec is Some == want(p@));
        match rec {
            Some(b) => {
                assert(b.key() == p@);
                out.push(b);
                proof {
                    assert(out@[old_out.len() as int] == b);
                    lemma_push_sorted(old_out, b);
                    assert forall|i: int| 0 <= i < out@.len() implies {
                        &&& has_key(held@, (#[trigger] out@[i]).key()) ==> last_with_key(prior@, out@[i].key()) == Some(out@[i])
                        &&& !has_key(held@, out@[i].key()) ==> baseline_record(
                            out@[i],
                            state_view(source@, pats, out@[i].key()),
                            state_view(target@, pats, out@[i].key()),
                        )
                    } by {
                        if i < old_out.len() {
                            assert(out@[i] == old_out[i]);
                        }
                    }
                    assert forall|q: Seq<char>| #[trigger] has_key(out@, q) == (has_key_before(keys@, k + 1, q) && want(q)) by {
                        lemma_has_key_push(old_out, b, q);
                        lemma_has_key_before_step(keys@, k as int, q);
                        assert(has_key(old_out, q) == (has_key_before(keys@, k as int, q) && want(q)));
                    }
                }
            },
            None => {},
        }
        proof {
            assert forall|i: int| 0 <= i < out@.len() && k + 1 < keys@.len() implies path_lt((#[trigger] out@[i]).key(), keys@[k + 1].key()) by {
                assert(path_lt(keys@[k as int].key(), keys@[k + 1].key()));
                if i < old_out.len() {
                    assert(out@[i] == old_out[i]);
                    lemma_path_lt_transitive(out@[i].key(), keys@[k as int].key(), keys@[k + 1].key());
                }
            }
        }
        k = k + 1;
    }
    proof {
        assert forall|q: Seq<char>| has_key_before(keys@, k as int, q) == want(q) || !want(q) by {
            lemma_last_with_key_has_key(src@, q);
            lemma_last_with_key_has_key(tgt@, q);
            lemma_last_with_key_has_key(old@, q);
            assert(last_with_key(src@, q) == last_with_key(source@, q));
            assert(last_with_key(tgt@, q) == last_with_key(target@, q));
            assert(last_with_key(old@, q) == last_with_key(prior@, q));
            assert(has_key_before(keys@, k as int, q) == has_key(keys@, q));
        }
        assert forall|q: Seq<char>| has_key(held@, q) implies #[trigger] last_with_key(out@, q) == last_with_key(prior@, q) by {
            if has_key(out@, q) {
                let m = choose|m: int| 0 <= m < out@.len() && #[trigger] out@[m].key() == q;
                lemma_last_with_key_at(out@, m);
            } else {
                lemma_last_with_key_none(out@, q);
                assert(has_key_before(keys@, k as int, q) == want(q) || !want(q));
            }
        }
    }
    out
}

} // verus!
