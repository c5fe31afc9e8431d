//! Counters of a diff and the bytes it will move.
use vstd::prelude::*;
use crate::model::{DiffAction, DiffDirection, DiffEntry, DiffResult};

verus! {

/// How many entries carry action `a`.
pub open spec fn count_action(es: Seq<DiffEntry>, a: DiffAction) -> nat
    decreases es.len(),
{
    if es.len() == 0 {
        0
    } else {
        count_action(es.drop_last(), a) + if es.last().action == a {
            1nat
        } else {
            0nat
        }
    }
}

pub open spec fn size_or_zero(o: Option<u64>) -> nat {
    match o {
        Some(n) => n as nat,
        None => 0,
    }
}

/// Bytes an entry moves: the sending side's size, for an add or an update.
pub open spec fn transfer_size(e: DiffEntry) -> nat {
    if e.action == DiffAction::Add || e.action == DiffAction::Update {
        match e.direction {
            DiffDirection::SourceToTarget => size_or_zero(e.source_size),
            DiffDirection::TargetToSource => size_or_zero(e.target_size),
            DiffDirection::Both => 0,
        }
    } else {
        0
    }
}

pub open spec fn transfer_sum(es: Seq<DiffEntry>) -> nat
    decreases es.len(),
{
    if es.len() == 0 {
        0
    } else {
        transfer_sum(es.drop_last()) + transfer_size(es.last())
    }
}

/// `n`, or `u64::MAX` where it does not fit.
pub open spec fn clamp_u64(n: nat) -> nat {
    if n > u64::MAX {
        u64::MAX as nat
    } else {
        n
    }
}

/// The counters of `d` are those of its entries; the byte total saturates at `u64::MAX`.
pub open spec fn tallies_hold(d: DiffResult) -> bool {
    &&& d.total_add == count_action(d.entries@, DiffAction::Add)
    &&& d.total_remove == count_action(d.entries@, DiffAction::Remove)
    &&& d.total_update == count_action(d.entries@, DiffAction::Update)
    &&& d.total_conflict == count_action(d.entries@, DiffAction::Conflict)
    &&& d.total_unchanged == count_action(d.entries@, DiffAction::Unchanged)
    &&& d.bytes_to_transfer as nat == clamp_u64(transfer_sum(d.entries@))
}

pub proof fn lemma_count_action_bound(es: Seq<DiffEntry>, a: DiffAction)
    ensures
        count_action(es, a) <= es.len(),
    decreases es.len(),
{
    if es.len() > 0 {
        lemma_count_action_bound(es.drop_last(), a);
    }
}

/// Where every entry carries action `a`, no entry carries another.
pub proof fn lemma_count_action_uniform(es: Seq<DiffEntry>, a: DiffAction, b: DiffAction)
    requires
        forall|i: int| 0 <= i < es.len() ==> (#[trigger] es[i]).action == a,
    ensures
        count_action(es, a) == es.len(),
        a != b ==> count_action(es, b) == 0,
    decreases es.len(),
{
    if es.len() > 0 {
        assert(es.last() == es[es.len() - 1]);
        lemma_count_action_uniform(es.drop_last(), a, b);
    }
}

/// Where no entry carries action `a`, its count is zero.
pub proof fn lemma_count_action_absent(es: Seq<DiffEntry>, a: DiffAction)
    requires
        forall|i: int| 0 <= i < es.len() ==> (#[trigger] es[i]).action != a,
    ensures
        count_action(es, a) == 0,
    decreases es.len(),
{
    if es.len() > 0 {
        assert(es.last() == es[es.len() - 1]);
        lemma_count_action_absent(es.drop_last(), a);
    }
}

fn entry_transfer_size(e: &DiffEntry) -> (r: u64)
    ensures
        r as nat == transfer_size(*e),
{
    match e.action {
        DiffAction::Add | DiffAction::Update => match e.direction {
            DiffDirection::SourceToTarget => match e.source_size {
                Some(n) => n,
                None => 0,
            },
            DiffDirection::TargetToSource => match e.target_size {
                Some(n) => n,
                None => 0,
            },
            DiffDirection::Both => 0,
        },
        _ => 0,
    }
}

/// Wraps entries into a result, counting actions and transferred bytes.
pub fn summarize(profile_id: &str, entries: Vec<DiffEntry>) -> (d: DiffResult)
    ensures
        d.profile_id@ == profile_id@,
        d.entries@ == entries@,
        tallies_hold(d),
{
    let mut add: usize = 0;
    let mut remove: usize = 0;
    let mut update: usize = 0;
    let mut conflict: usize = 0;
    let mut unchanged: usize = 0;
    let mut bytes: u64 = 0;
    let mut i: usize = 0;
    while i < entries.len()
        invariant
            i <= entries@.len(),
            add == count_action(entries@.subrange(0, i as int), DiffAction::Add),
            remove == count_action(entries@.subrange(0, i as int), DiffAction::Remove),
            update == count_action(entries@.subrange(0, i as int), DiffAction::Update),
            conflict == count_action(entries@.subrange(0, i as int), DiffAction::Conflict),
            unchanged == count_action(entries@.subrange(0, i as int), DiffAction::Unchanged),
            bytes as nat == clamp_u64(transfer_sum(entries@.subrange(0, i as int))),
        decreases entries@.len() - i,
    {
        let ghost pre = entries@.subrange(0, i as int);
        let ghost post = entries@.subrange(0, i + 1);
        proof {
            assert(post.drop_last() =~= pre);
            lemma_count_action_bound(pre, DiffAction::Add);
            lemma_count_action_bound(pre, DiffAction::Remove);
            lemma_count_action_bound(pre, DiffAction::Update);
            lemma_count_action_bound(pre, DiffAction::Conflict);
            lemma_count_action_bound(pre, DiffAction::Unchanged);
        }
        let e = &entries[i];
        match e.action {
            DiffAction::Add => add = add + 1,
            DiffAction::Remove => remove = remove + 1,
            DiffAction::Update => update = update + 1,
            DiffAction::Conflict => conflict = conflict + 1,
            DiffAction::Unchanged => unchanged = unchanged + 1,
        }
        bytes = bytes.saturating_add(entry_transfer_size(e));
        i = i + 1;
    }
    assert(entries@.subrange(0, i as int) =~= entries@);
    DiffResult {
        profile_id: profile_id.to_string(),
        entries,
        total_add: add,
        total_remove: remove,
        total_update: update,
        total_conflict: conflict,
        total_unchanged: unchanged,
        bytes_to_transfer: bytes,
    }
}

} // verus!
