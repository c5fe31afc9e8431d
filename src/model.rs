//! The records that the diff engine consumes and produces.
use vstd::prelude::*;
use crate::pathmap::PathKeyed;

verus! {

/// What a diff decides for one relative path.
#[derive(Clone, Copy, Debug, PartialEq, Eq, Structural)]
pub enum DiffAction {
    Add,
    Remove,
    Update,
    Unchanged,
    Conflict,
}

/// Which side of the pair receives the action.
#[derive(Clone, Copy, Debug, PartialEq, Eq, Structural)]
pub enum DiffDirection {
    SourceToTarget,
    TargetToSource,
    Both,
}

/// One reconciled decision about one relative path, with both sides' observations.
#[derive(Clone, Debug)]
pub struct DiffEntry {
    pub relative_path: String,
    pub action: DiffAction,
    pub direction: DiffDirection,
    pub source_size: Option<u64>,
    pub target_size: Option<u64>,
    pub source_hash: Option<String>,
    pub target_hash: Option<String>,
    pub source_modified: Option<i64>,
    pub target_modified: Option<i64>,
}

/// The entries of a diff, sorted by relative path, with their tallies.
#[derive(Clone, Debug)]
pub struct DiffResult {
    pub profile_id: String,
    pub entries: Vec<DiffEntry>,
    pub total_add: usize,
    pub total_remove: usize,
    pub total_update: usize,
    pub total_conflict: usize,
    pub total_unchanged: usize,
    pub bytes_to_transfer: u64,
}

/// Why a two-way diff could not decide a path by itself.
#[derive(Clone, Copy, Debug, PartialEq, Eq, Structural)]
pub enum ConflictType {
    BothModified,
    DeletedAndModified,
    FirstSyncDiffers,
}

/// A path on which both sides disagree, with both sides' observations.
#[derive(Clone, Debug)]
pub struct Conflict {
    pub relative_path: String,
    pub conflict_type: ConflictType,
    pub source_hash: Option<String>,
    pub target_hash: Option<String>,
    pub source_modified: Option<i64>,
    pub target_modified: Option<i64>,
    pub source_size: Option<u64>,
    pub target_size: Option<u64>,
}

/// How the user settles a conflict.
#[derive(Clone, Copy, Debug, PartialEq, Eq, Structural)]
pub enum Resolution {
    KeepSource,
    KeepTarget,
    KeepBoth,
    Skip,
}

/// A resolution for the conflict at one relative path.
#[derive(Clone, Debug)]
pub struct ConflictResolution {
    pub relative_path: String,
    pub resolution: Resolution,
}

/// The state of one path at the end of the previous two-way sync.
/// A `None` side was absent then.
#[derive(Clone, Debug)]
pub struct FileBaseline {
    pub relative_path: String,
    pub source_hash: Option<String>,
    pub target_hash: Option<String>,
    pub source_modified: Option<i64>,
    pub target_modified: Option<i64>,
    pub source_size: Option<u64>,
    pub target_size: Option<u64>,
}

/// The last known content of a file on a device. An empty `hash` means the
/// file was seen but not hashed.
#[derive(Clone, Debug)]
pub struct CachedFileHash {
    pub relative_path: String,
    pub hash: String,
    pub file_size: u64,
    pub modified_at: i64,
}

/// A catalog track, as far as synchronization reads it.
#[derive(Clone, Debug)]
pub struct Track {
    pub id: Option<i64>,
    pub file_path: String,
    pub relative_path: String,
    pub library_root: String,
    pub title: Option<String>,
    pub artist: Option<String>,
    pub album_artist: Option<String>,
    pub album: Option<String>,
    pub track_number: Option<u32>,
    pub disc_number: Option<u32>,
    pub year: Option<i32>,
    pub genre: Option<String>,
    pub format: String,
    pub file_size: u64,
    pub modified_at: i64,
    pub hash: Option<String>,
}

/// A walked file: relative path, size, modification time in unix seconds,
/// and its content hash where one was computed.
#[derive(Clone, Debug)]
pub struct FileStat {
    pub relative_path: String,
    pub size: u64,
    pub modified: i64,
    pub hash: Option<String>,
}

/// A walked and hashed file.
#[derive(Clone, Debug)]
pub struct FileState {
    pub relative_path: String,
    pub hash: String,
    pub modified: i64,
    pub size: u64,
}

/// Failure kinds of the synchronization core.
#[derive(Clone, Debug)]
pub enum AppError {
    Io(String),
    Metadata(String),
    SyncCancelled,
    ProfileNotFound(String),
    DeviceNotFound(String),
    DeviceDisconnected(String),
    PathNotAccessible(String),
    General(String),
}

/// Events sent to observers, in order, on one channel.
#[derive(Clone, Debug)]
pub enum ProgressEvent {
    ScanStarted { path: String },
    ScanProgress { files_found: usize, files_processed: usize, current_file: String },
    ScanComplete { total_files: usize, duration_ms: u64 },
    DiffProgress { files_compared: usize, total_files: usize, current_file: String },
    DiffComplete { total_entries: usize },
    SyncStarted { total_files: usize, total_bytes: u64 },
    SyncProgress {
        files_completed: usize,
        total_files: usize,
        bytes_completed: u64,
        total_bytes: u64,
        current_file: String,
    },
    SyncComplete { files_synced: usize, duration_ms: u64 },
    SyncError { file: String, error: String },
    HashStarted { total: usize },
    HashProgress { files_hashed: usize, total_files: usize, current_file: String },
}


/// A copy of an optional string.
pub fn clone_opt_string(o: &Option<String>) -> (r: Option<String>)
    ensures
        r == *o,
{
    match o {
        Some(s) => Some(s.clone()),
        None => None,
    }
}

impl PathKeyed for FileStat {
    open spec fn key(&self) -> Seq<char> {
        self.relative_path@
    }

    fn path(&self) -> (r: &String) {
        &self.relative_path
    }

    fn duplicate(&self) -> (r: Self) {
        FileStat {
            relative_path: self.relative_path.clone(),
            size: self.size,
            modified: self.modified,
            hash: clone_opt_string(&self.hash),
        }
    }
}

impl PathKeyed for FileState {
    open spec fn key(&self) -> Seq<char> {
        self.relative_path@
    }

    fn path(&self) -> (r: &String) {
        &self.relative_path
    }

    fn duplicate(&self) -> (r: Self) {
        FileState {
            relative_path: self.relative_path.clone(),
            hash: self.hash.clone(),
            modified: self.modified,
            size: self.size,
        }
    }
}

impl PathKeyed for FileBaseline {
    open spec fn key(&self) -> Seq<char> {
        self.relative_path@
    }

    fn path(&self) -> (r: &String) {
        &self.relative_path
    }

    fn duplicate(&self) -> (r: Self) {
        FileBaseline {
            relative_path: self.relative_path.clone(),
            source_hash: clone_opt_string(&self.source_hash),
            target_hash: clone_opt_string(&self.target_hash),
            source_modified: self.source_modified,
            target_modified: self.target_modified,
            source_size: self.source_size,
            target_size: self.target_size,
        }
    }
}

impl PathKeyed for CachedFileHash {
    open spec fn key(&self) -> Seq<char> {
        self.relative_path@
    }

    fn path(&self) -> (r: &String) {
        &self.relative_path
    }

    fn duplicate(&self) -> (r: Self) {
        CachedFileHash {
            relative_path: self.relative_path.clone(),
            hash: self.hash.clone(),
            file_size: self.file_size,
            modified_at: self.modified_at,
        }
    }
}

impl PathKeyed for Track {
    open spec fn key(&self) -> Seq<char> {
        self.relative_path@
    }

    fn path(&self) -> (r: &String) {
        &self.relative_path
    }

    fn duplicate(&self) -> (r: Self) {
        Track {
            id: self.id,
            file_path: self.file_path.clone(),
            relative_path: self.relative_path.clone(),
            library_root: self.library_root.clone(),
            title: clone_opt_string(&self.title),
            artist: clone_opt_string(&self.artist),
            album_artist: clone_opt_string(&self.album_artist),
            album: clone_opt_string(&self.album),
            track_number: self.track_number,
            disc_number: self.disc_number,
            year: self.year,
            genre: clone_opt_string(&self.genre),
            format: self.format.clone(),
            file_size: self.file_size,
            modified_at: self.modified_at,
            hash: clone_opt_string(&self.hash),
        }
    }
}

impl PathKeyed for DiffEntry {
    open spec fn key(&self) -> Seq<char> {
        self.relative_path@
    }

    fn path(&self) -> (r: &String) {
        &self.relative_path
    }

    fn duplicate(&self) -> (r: Self) {
        DiffEntry {
            relative_path: self.relative_path.clone(),
            action: self.action,
            direction: self.direction,
            source_size: self.source_size,
            target_size: self.target_size,
            source_hash: clone_opt_string(&self.source_hash),
            target_hash: clone_opt_string(&self.target_hash),
            source_modified: self.source_modified,
            target_modified: self.target_modified,
        }
    }
}

impl PathKeyed for Conflict {
    open spec fn key(&self) -> Seq<char> {
        self.relative_path@
    }

    fn path(&self) -> (r: &String) {
        &self.relative_path
    }

    fn duplicate(&self) -> (r: Self) {
        Conflict {
            relative_path: self.relative_path.clone(),
            conflict_type: self.conflict_type,
            source_hash: clone_opt_string(&self.source_hash),
            target_hash: clone_opt_string(&self.target_hash),
            source_modified: self.source_modified,
            target_modified: self.target_modified,
            source_size: self.source_size,
            target_size: self.target_size,
        }
    }
}

impl PathKeyed for ConflictResolution {
    open spec fn key(&self) -> Seq<char> {
        self.relative_path@
    }

    fn path(&self) -> (r: &String) {
        &self.relative_path
    }

    fn duplicate(&self) -> (r: Self) {
        ConflictResolution { relative_path: self.relative_path.clone(), resolution: self.resolution }
    }
}

} // verus!
