//! Reconciliation core of a music-library synchronizer: path-keyed snapshots,
//! one-way, two-way (three-way merge) and device diffs, conflict resolution
//! planning and a cancellable executor state machine.

pub mod order;
pub mod model;
pub mod profile;
pub mod pathmap;
pub mod paths;
pub mod tally;
pub mod one_way;
pub mod two_way;
pub mod device;
pub mod baseline;
pub mod content;
pub mod cancel;
pub mod executor;
pub mod laws;
pub mod naming;
