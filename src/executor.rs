//! The executor as a state machine. It plans the filesystem operations of a
//! diff, hands them out one at a time, and keeps the counters and the device
//! hash cache in step with what the caller reports back. The caller performs
//! each operation, polls the cancellation flag and checks that the target is
//! still there.
use vstd::prelude::*;
use crate::model::{
    clone_opt_string, AppError, CachedFileHash, ConflictResolution, DiffAction, DiffDirection,
    DiffEntry, DiffResult, ProgressEvent, Resolution,
};
use crate::pathmap::{index_by_path, last_with_key, lookup, sorted_by_key, PathKeyed};
use crate::paths::{conflict_name, conflict_path};
use crate::tally::{clamp_u64, size_or_zero, transfer_size};

verus! {

/// One side of a folder pair; for a device, the library is the source.
#[derive(Clone, Copy, Debug, PartialEq, Eq, Structural)]
pub enum Side {
    Source,
    Target,
}

/// Which executor runs: each reads directions and keeps the cache its own way.
#[derive(Clone, Copy, Debug, PartialEq, Eq, Structural)]
pub enum ExecMode {
    OneWay,
    TwoWay,
    Device,
}

/// A filesystem operation on one relative path.
#[derive(Clone, Debug)]
pub enum FileOp {
    /// Copy `rel` from side `from` onto the other side atomically: write a
    /// `.tmp_sync` sibling, fsync it, rename it over the destination, then set
    /// the destination's mtime to the source's.
    Copy { from: Side, rel: String },
    /// Delete `rel` on `side` if it is there, then remove parent directories
    /// that became empty, up to the root.
    Remove { side: Side, rel: String },
    /// Make the other side match side `from` at `rel`: copy where `from` holds
    /// the file, delete where it does not.
    Mirror { from: Side, rel: String },
    /// Where both sides hold `rel`: rename the target's file to `conflict_rel`,
    /// copy the source's file to `rel` on the target, and copy the renamed
    /// file to `conflict_rel` on the source.
    KeepBoth { rel: String, conflict_rel: String },
    /// Leave both sides as they are.
    Skip,
}

impl FileOp {
    pub fn duplicate(&self) -> (r: FileOp)
        ensures
            r == *self,
    {
        match self {
            FileOp::Copy { from, rel } => FileOp::Copy { from: *from, rel: rel.clone() },
            FileOp::Remove { side, rel } => FileOp::Remove { side: *side, rel: rel.clone() },
            FileOp::Mirror { from, rel } => FileOp::Mirror { from: *from, rel: rel.clone() },
            FileOp::KeepBoth { rel, conflict_rel } => FileOp::KeepBoth {
                rel: rel.clone(),
                conflict_rel: conflict_rel.clone(),
            },
            FileOp::Skip => FileOp::Skip,
        }
    }
}

/// One actionable entry of a diff, with what executing it needs.
#[derive(Clone, Debug)]
pub struct PlannedStep {
    pub relative_path: String,
    pub action: DiffAction,
    pub op: FileOp,
    pub bytes: u64,
    pub source_hash: Option<String>,
    pub source_size: Option<u64>,
    pub source_modified: Option<i64>,
}

/// What the caller does next.
#[derive(Clone, Debug)]
pub enum Step {
    /// Emit `progress`, then perform `op` and report its outcome.
    Perform { progress: ProgressEvent, op: FileOp },
    /// Every step ran: emit the completion event and return `files_synced`.
    Finished { files_synced: usize },
    /// Stop the job with this error.
    Stopped(AppError),
}

/// How a performed operation went. For a copy, `size` and `modified` are the
/// destination's as read back after writing, where that read succeeded.
#[derive(Clone, Debug)]
pub enum StepOutcome {
    Done { size: Option<u64>, modified: Option<i64> },
    Failed(String),
}

/// The resolution given for `p`; the last one wins.
pub open spec fn resolution_at(res: Seq<ConflictResolution>, p: Seq<char>) -> Option<Resolution> {
    match last_with_key(res, p) {
        Some(r) => Some(r.resolution),
        None => None,
    }
}

/// Adds, updates, removes and resolved conflicts are executed; unchanged
/// entries and unresolved conflicts are not.
pub open spec fn is_actionable(e: DiffEntry, res: Seq<ConflictResolution>) -> bool {
    match e.action {
        DiffAction::Add | DiffAction::Update | DiffAction::Remove => true,
        DiffAction::Conflict => resolution_at(res, e.key()) is Some,
        DiffAction::Unchanged => false,
    }
}

/// The actionable entries, in order.
pub open spec fn actionable(es: Seq<DiffEntry>, res: Seq<ConflictResolution>) -> Seq<DiffEntry>
    decreases es.len(),
{
    if es.len() == 0 {
        Seq::empty()
    } else if is_actionable(es.last(), res) {
        actionable(es.drop_last(), res).push(es.last())
    } else {
        actionable(es.drop_last(), res)
    }
}

pub open spec fn is_copy(op: FileOp, from: Side, p: Seq<char>) -> bool {
    match op {
        FileOp::Copy { from: f, rel } => f == from && rel@ == p,
        _ => false,
    }
}

pub open spec fn is_remove(op: FileOp, side: Side, p: Seq<char>) -> bool {
    match op {
        FileOp::Remove { side: s, rel } => s == side && rel@ == p,
        _ => false,
    }
}

pub open spec fn is_mirror(op: FileOp, from: Side, p: Seq<char>) -> bool {
    match op {
        FileOp::Mirror { from: f, rel } => f == from && rel@ == p,
        _ => false,
    }
}

pub open spec fn is_keep_both(op: FileOp, p: Seq<char>) -> bool {
    match op {
        FileOp::KeepBoth { rel, conflict_rel } => rel@ == p && conflict_rel@ == conflict_path(p),
        _ => false,
    }
}

/// The operation for an entry. One-way and device runs copy the source over
/// the target and delete on the target. A two-way update copies from the side
/// its direction names; a two-way remove deletes on the side that still holds
/// the file (`SourceToTarget`: the target already lost it). A conflict follows
/// its resolution.
pub open spec fn op_for(op: FileOp, e: DiffEntry, mode: ExecMode, r: Option<Resolution>) -> bool {
    let p = e.relative_path@;
    match e.action {
        DiffAction::Add | DiffAction::Update => {
            if mode == ExecMode::TwoWay {
                match e.direction {
                    DiffDirection::SourceToTarget => is_copy(op, Side::Source, p),
                    DiffDirection::TargetToSource => is_copy(op, Side::Target, p),
                    DiffDirection::Both => op is Skip,
                }
            } else {
                is_copy(op, Side::Source, p)
            }
        },
        DiffAction::Remove => {
            if mode == ExecMode::TwoWay {
                match e.direction {
                    DiffDirection::SourceToTarget => is_remove(op, Side::Source, p),
                    DiffDirection::TargetToSource => is_remove(op, Side::Target, p),
                    DiffDirection::Both => op is Skip,
                }
            } else {
                is_remove(op, Side::Target, p)
            }
        },
        DiffAction::Conflict => match r {
            Some(Resolution::KeepSource) => is_mirror(op, Side::Source, p),
            Some(Resolution::KeepTarget) => is_mirror(op, Side::Target, p),
            Some(Resolution::KeepBoth) => is_keep_both(op, p),
            _ => op is Skip,
        },
        DiffAction::Unchanged => op is Skip,
    }
}

/// Bytes a step moves: the sending side's size for an add or update, the
/// source's (else the target's) size for a resolved conflict, nothing for a removal.
pub open spec fn run_size(e: DiffEntry) -> nat {
    match e.action {
        DiffAction::Add | DiffAction::Update => transfer_size(e),
        DiffAction::Conflict => match e.source_size {
            Some(n) => n as nat,
            None => size_or_zero(e.target_size),
        },
        _ => 0,
    }
}

/// The step planned for entry `e`.
pub open spec fn step_for(st: PlannedStep, e: DiffEntry, mode: ExecMode, res: Seq<ConflictResolution>) -> bool {
    &&& st.relative_path@ == e.relative_path@
    &&& st.action == e.action
    &&& op_for(st.op, e, mode, resolution_at(res, e.key()))
    &&& st.bytes as nat == run_size(e)
    &&& st.source_hash == e.source_hash
    &&& st.source_size == e.source_size
    &&& st.source_modified == e.source_modified
}

pub open spec fn steps_bytes(s: Seq<PlannedStep>) -> nat
    decreases s.len(),
{
    if s.len() == 0 {
        0
    } else {
        steps_bytes(s.drop_last()) + s.last().bytes as nat
    }
}

/// `s` without its records for `p`.
pub open spec fn without_path(s: Seq<CachedFileHash>, p: Seq<char>) -> Seq<CachedFileHash>
    decreases s.len(),
{
    if s.len() == 0 {
        s
    } else if s.last().key() == p {
        without_path(s.drop_last(), p)
    } else {
        without_path(s.drop_last(), p).push(s.last())
    }
}

/// The cache record written after a copy onto the device: the source's hash
/// (empty where unknown) and the destination's size and mtime as read back,
/// else the source's, else zero.
pub open spec fn written_record(c: CachedFileHash, st: PlannedStep, size: Option<u64>, modified: Option<i64>) -> bool {
    &&& c.relative_path@ == st.relative_path@
    &&& c.hash@ == match st.source_hash {
        Some(h) => h@,
        None => Seq::empty(),
    }
    &&& c.file_size == match size {
        Some(n) => n,
        None => match st.source_size {
            Some(n) => n,
            None => 0,
        },
    }
    &&& c.modified_at == match (size, modified) {
        (Some(_), Some(m)) => m,
        (Some(_), None) => 0,
        (None, _) => match st.source_modified {
            Some(m) => m,
            None => 0,
        },
    }
}

/// A run of the executor over one diff.
pub struct SyncRun {
    pub mode: ExecMode,
    pub target_root: String,
    pub steps: Vec<PlannedStep>,
    pub next: usize,
    pub files_completed: usize,
    pub files_synced: usize,
    pub bytes_completed: u64,
    pub total_files: usize,
    pub total_bytes: u64,
    pub cache: Vec<CachedFileHash>,
    pub in_flight: bool,
}

fn without_cached(cache: &Vec<CachedFileHash>, p: &str) -> (r: Vec<CachedFileHash>)
    ensures
        r@ == without_path(cache@, p@),
{
    let mut r: Vec<CachedFileHash> = Vec::new();
    let mut i: usize = 0;
    while i < cache.len()
        invariant
            i <= cache@.len(),
            r@ == without_path(cache@.subrange(0, i as int), p@),
        decreases cache@.len() - i,
    {
        assert(cache@.subrange(0, i + 1).drop_last() =~= cache@.subrange(0, i as int));
        if !crate::order::paths_equal(cache[i].path().as_str(), p) {
            r.push(cache[i].duplicate());
        }
        i = i + 1;
    }
    assert(cache@.subrange(0, i as int) =~= cache@);
    r
}

fn plan_op(e: &DiffEntry, mode: ExecMode, r: Option<Resolution>) -> (op: FileOp)
    ensures
        op_for(op, *e, mode, r),
{
    let rel = e.relative_path.clone();
    match e.action {
        DiffAction::Add | DiffAction::Update => {
            if mode == ExecMode::TwoWay {
                match e.direction {
                    DiffDirection::SourceToTarget => FileOp::Copy { from: Side::Source, rel },
                    DiffDirection::TargetToSource => FileOp::Copy { from: Side::Target, rel },
                    DiffDirection::Both => FileOp::Skip,
                }
            } else {
                FileOp::Copy { from: Side::Source, rel }
            }
        },
        DiffAction::Remove => {
            if mode == ExecMode::TwoWay {
                match e.direction {
                    DiffDirection::SourceToTarget => FileOp::Remove { side: Side::Source, rel },
                    DiffDirection::TargetToSource => FileOp::Remove { side: Side::Target, rel },
                    DiffDirection::Both => FileOp::Skip,
                }
            } else {
                FileOp::Remove { side: Side::Target, rel }
            }
        },
        DiffAction::Conflict => match r {
            Some(Resolution::KeepSource) => FileOp::Mirror { from: Side::Source, rel },
            Some(Resolution::KeepTarget) => FileOp::Mirror { from: Side::Target, rel },
            Some(Resolution::KeepBoth) => {
                let conflict_rel = conflict_name(rel.as_str());
                FileOp::KeepBoth { rel, conflict_rel }
            },
            _ => FileOp::Skip,
        },
        DiffAction::Unchanged => FileOp::Skip,
    }
}

fn step_size(e: &DiffEntry) -> (r: u64)
    ensures
        r as nat == run_size(*e),
{
    match e.action {
        DiffAction::Add | DiffAction::Update => match e.direction {
            DiffDirection::SourceToTarget => match e.source_size {
                Some(n) => n,
                None => 0,
            },
            DiffDirection::TargetToSource => match e.target_size {
                Some(n) => n,
                None => 0,
            },
            DiffDirection::Both => 0,
        },
        DiffAction::Conflict => match e.source_size {
            Some(n) => n,
            None => match e.target_size {
                Some(n) => n,
                None => 0,
            },
        },
        _ => 0,
    }
}

impl SyncRun {
    /// Counters and the in-flight flag agree with the position in the plan.
    pub open spec fn wf(&self) -> bool {
        &&& self.next <= self.steps@.len()
        &&& self.total_files == self.steps@.len()
        &&& self.total_bytes as nat == clamp_u64(steps_bytes(self.steps@))
        &&& self.in_flight ==> self.next > 0
        &&& self.files_completed == self.next - if self.in_flight {
            1int
        } else {
            0int
        }
        &&& self.files_synced <= self.files_completed
        &&& self.bytes_completed as nat == clamp_u64(steps_bytes(self.steps@.subrange(0, self.files_completed as int)))
    }

    /// Plans a run: one step per actionable entry of `diff`, in order, with
    /// the totals announced at the start.
    pub fn new(
        diff: &DiffResult,
        mode: ExecMode,
        resolutions: &Vec<ConflictResolution>,
        target_root: &str,
        cache: Vec<CachedFileHash>,
    ) -> (r: SyncRun)
        ensures
            r.wf(),
            r.mode == mode,
            r.target_root@ == target_root@,
            r.steps@.len() == actionable(diff.entries@, resolutions@).len(),
            forall|i: int| 0 <= i < r.steps@.len() ==> step_for(
                #[trigger] r.steps@[i],
                actionable(diff.entries@, resolutions@)[i],
                mode,
                resolutions@,
            ),
            r.next == 0,
            r.files_synced == 0,
            !r.in_flight,
            r.cache@ == cache@,
    {
        let res = index_by_path(resolutions);
        let entries = &diff.entries;
        let mut steps: Vec<PlannedStep> = Vec::new();
        let mut total: u64 = 0;
        let mut i: usize = 0;
        while i < entries.len()
            invariant
                i <= entries@.len(),
                entries@ == diff.entries@,
                sorted_by_key(res@),
                forall|q: Seq<char>| #[trigger] last_with_key(res@, q) == last_with_key(resolutions@, q),
                steps@.len() == actionable(entries@.subrange(0, i as int), resolutions@).len(),
                forall|j: int| 0 <= j < steps@.len() ==> step_for(
                    #[trigger] steps@[j],
                    actionable(entries@.subrange(0, i as int), resolutions@)[j],
                    mode,
                    resolutions@,
                ),
                total as nat == clamp_u64(steps_bytes(steps@)),
            decreases entries@.len() - i,
        {
            let e = &entries[i];
            let ghost pre = entries@.subrange(0, i as int);
            let ghost post = entries@.subrange(0, i + 1);
            assert(post.drop_last() =~= pre);
            assert(post.last() == *e);
            let r = match lookup(&res, e.relative_path.as_str()) {
                Some(c) => Some(c.resolution),
                None => None,
            };
            let take = match e.action {
                DiffAction::Add | DiffAction::Update | DiffAction::Remove => true,
                DiffAction::Conflict => r.is_some(),
                DiffAction::Unchanged => false,
            };
            if take {
                let st = PlannedStep {
                    relative_path: e.relative_path.clone(),
                    action: e.action,
                    op: plan_op(e, mode, r),
                    bytes: step_size(e),
                    source_hash: clone_opt_string(&e.source_hash),
                    source_size: e.source_size,
                    source_modified: e.source_modified,
                };
                let ghost old_steps = steps@;
                total = total.saturating_add(st.bytes);
                steps.push(st);
                proof {
                    assert(steps@.drop_last() =~= old_steps);
                    assert forall|j: int| 0 <= j < steps@.len() implies step_for(
                        #[trigger] steps@[j],
                        actionable(post, resolutions@)[j],
                        mode,
                        resolutions@,
                    ) by {
                        if j < old_steps.len() {
                            assert(steps@[j] == old_steps[j]);
                        }
                    }
                }
            }
            i = i + 1;
        }
        assert(entries@.subrange(0, i as int) =~= entries@);
        assert(steps@.subrange(0, 0) =~= Seq::<PlannedStep>::empty());
        SyncRun {
            mode,
            target_root: target_root.to_string(),
            total_files: steps.len(),
            steps,
            next: 0,
            files_completed: 0,
            files_synced: 0,
            bytes_completed: 0,
            total_bytes: total,
            cache,
            in_flight: false,
        }
    }

    /// The event that opens the run.
    pub fn started(&self) -> (r: ProgressEvent)
        ensures
            r == (ProgressEvent::SyncStarted { total_files: self.total_files, total_bytes: self.total_bytes }),
    {
        ProgressEvent::SyncStarted { total_files: self.total_files, total_bytes: self.total_bytes }
    }

    /// Decides what to do next. With steps left, a raised cancellation flag
    /// stops the run before any further operation, as does a device that is
    /// gone; neither changes the run.
    pub fn step(&mut self, cancelled: bool, target_present: bool) -> (r: Step)
        requires
            old(self).wf(),
            !old(self).in_flight,
        ensures
            final(self).wf(),
            old(self).next == old(self).steps@.len() ==> r == (Step::Finished { files_synced: old(self).files_synced }) && *final(self) == *old(self),
            old(self).next < old(self).steps@.len() && cancelled ==> r == Step::Stopped(AppError::SyncCancelled) && *final(self) == *old(self),
            old(self).next < old(self).steps@.len() && !cancelled && old(self).mode == ExecMode::Device && !target_present ==> (match r {
                Step::Stopped(AppError::DeviceDisconnected(root)) => root@ == old(self).target_root@,
                _ => false,
            }) && *final(self) == *old(self),
            old(self).next < old(self).steps@.len() && !cancelled && (old(self).mode != ExecMode::Device || target_present) ==> {
                &&& final(self).next == old(self).next + 1
                &&& final(self).in_flight
                &&& final(self).steps == old(self).steps
                &&& final(self).files_completed == old(self).files_completed
                &&& final(self).files_synced == old(self).files_synced
                &&& final(self).bytes_completed == old(self).bytes_completed
                &&& final(self).total_files == old(self).total_files
                &&& final(self).total_bytes == old(self).total_bytes
                &&& final(self).cache == old(self).cache
                &&& final(self).mode == old(self).mode
                &&& final(self).target_root == old(self).target_root
                &&& match r {
                    Step::Perform { progress, op } => {
                        &&& op == old(self).steps@[old(self).next as int].op
                        &&& match progress {
                            ProgressEvent::SyncProgress { files_completed, total_files, bytes_completed, total_bytes, current_file } => {
                                &&& files_completed == old(self).files_completed
                                &&& total_files == old(self).total_files
                                &&& bytes_completed == old(self).bytes_completed
                                &&& total_bytes == old(self).total_bytes
                                &&& current_file@ == old(self).steps@[old(self).next as int].relative_path@
                            },
                            _ => false,
                        }
                    },
                    _ => false,
                }
            },
    {
        if self.next == self.steps.len() {
            return Step::Finished { files_synced: self.files_synced };
        }
        if cancelled {
            return Step::Stopped(AppError::SyncCancelled);
        }
        if self.mode == ExecMode::Device && !target_present {
            return Step::Stopped(AppError::DeviceDisconnected(self.target_root.clone()));
        }
        let st = &self.steps[self.next];
        let progress = ProgressEvent::SyncProgress {
            files_completed: self.files_completed,
            total_files: self.total_files,
            bytes_completed: self.bytes_completed,
            total_bytes: self.total_bytes,
            current_file: st.relative_path.clone(),
        };
        let op = st.op.duplicate();
        self.next = self.next + 1;
        self.in_flight = true;
        Step::Perform { progress, op }
    }

    /// Records how the operation handed out last went. A failure yields the
    /// error event for the file; the run goes on either way. A device run
    /// updates its cache to what the operation left on the device.
    pub fn complete(&mut self, outcome: StepOutcome) -> (r: Option<ProgressEvent>)
        requires
            old(self).wf(),
            old(self).in_flight,
        ensures
            final(self).wf(),
            !final(self).in_flight,
            final(self).next == old(self).next,
            final(self).steps == old(self).steps,
            final(self).mode == old(self).mode,
            final(self).target_root == old(self).target_root,
            final(self).files_completed == old(self).files_completed + 1,
            final(self).bytes_completed as nat == clamp_u64(old(self).bytes_completed as nat + old(self).steps@[old(self).next - 1].bytes as nat),
            ({
                let st = old(self).steps@[old(self).next - 1];
                match outcome {
                    StepOutcome::Failed(msg) => {
                        &&& final(self).files_synced == old(self).files_synced
                        &&& final(self).cache == old(self).cache
                        &&& match r {
                            Some(ProgressEvent::SyncError { file, error }) => file@ == st.relative_path@ && error@ == msg@,
                            _ => false,
                        }
                    },
                    StepOutcome::Done { size, modified } => {
                        &&& final(self).files_synced == old(self).files_synced + 1
                        &&& r is None
                        &&& if old(self).mode == ExecMode::Device && st.op is Copy {
                            let w = without_path(old(self).cache@, st.relative_path@);
                            &&& final(self).cache@.len() == w.len() + 1
                            &&& final(self).cache@.drop_last() == w
                            &&& written_record(final(self).cache@.last(), st, size, modified)
                        } else if old(self).mode == ExecMode::Device && st.op is Remove {
                            final(self).cache@ == without_path(old(self).cache@, st.relative_path@)
                        } else {
                            final(self).cache == old(self).cache
                        }
                    },
                }
            }),
    {
        let k = self.next - 1;
        let ghost old_completed = self.files_completed;
        proof {
            let s = self.steps@;
            assert(s.subrange(0, old_completed + 1).drop_last() =~= s.subrange(0, old_completed as int));
            assert(s.subrange(0, old_completed + 1).last() == s[k as int]);
        }
        let bytes = self.steps[k].bytes;
        self.files_completed = self.files_completed + 1;
        self.bytes_completed = self.bytes_completed.saturating_add(bytes);
        self.in_flight = false;
        match outcome {
            StepOutcome::Failed(msg) => {
                Some(ProgressEvent::SyncError { file: self.steps[k].relative_path.clone(), error: msg })
            },
            StepOutcome::Done { size, modified } => {
                self.files_synced = self.files_synced + 1;
                if self.mode == ExecMode::Device {
                    let is_copy = match self.steps[k].op {
                        FileOp::Copy { .. } => true,
                        _ => false,
                    };
                    let is_remove = match self.steps[k].op {
                        FileOp::Remove { .. } => true,
                        _ => false,
                    };
                    if is_copy || is_remove {
                        let mut kept = without_cached(&self.cache, self.steps[k].relative_path.as_str());
                        if is_copy {
                            let st = &self.steps[k];
                            let hash = match &st.source_hash {
                                Some(h) => h.clone(),
                                None => String::new(),
                            };
                            let (file_size, modified_at) = match size {
                                Some(n) => (n, match modified {
                                    Some(m) => m,
                                    None => 0,
                                }),
                                None => (
                                    match st.source_size {
                                        Some(n) => n,
                                        None => 0,
                                    },
                                    match st.source_modified {
                                        Some(m) => m,
                                        None => 0,
                                    },
                                ),
                            };
                            kept.push(CachedFileHash { relative_path: st.relative_path.clone(), hash, file_size, modified_at });
                        }
                        self.cache = kept;
                    }
                }
                None
            },
        }
    }
}

} // verus!
