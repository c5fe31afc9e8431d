//! Sync profiles and registered devices: the configuration the core recognizes.
use vstd::prelude::*;

verus! {

#[derive(Clone, Copy, Debug, PartialEq, Eq, Structural)]
pub enum SyncMode {
    OneWay,
    TwoWay,
}

/// A recurring synchronization between a source and a target folder.
#[derive(Clone, Debug)]
pub struct SyncProfile {
    pub id: String,
    pub name: String,
    pub source_path: String,
    pub target_path: String,
    pub sync_mode: SyncMode,
    pub exclude_patterns: Vec<String>,
    pub created_at: i64,
    pub last_synced_at: Option<i64>,
}

#[derive(Clone, Debug)]
pub struct CreateProfileRequest {
    pub name: String,
    pub source_path: String,
    pub target_path: String,
    pub sync_mode: SyncMode,
    pub exclude_patterns: Vec<String>,
}

#[derive(Clone, Debug)]
pub struct UpdateProfileRequest {
    pub id: String,
    pub name: Option<String>,
    pub source_path: Option<String>,
    pub target_path: Option<String>,
    pub sync_mode: Option<SyncMode>,
    pub exclude_patterns: Option<Vec<String>>,
}

/// A removable volume registered as a sync target.
#[derive(Clone, Debug)]
pub struct Device {
    pub id: String,
    pub name: String,
    pub volume_uuid: String,
    pub volume_name: String,
    pub mount_path: Option<String>,
    pub capacity_bytes: Option<u64>,
    pub music_folder: String,
    pub created_at: i64,
    pub last_synced_at: Option<i64>,
}

#[derive(Clone, Debug)]
pub struct AlbumSelection {
    pub artist_name: String,
    pub album_name: String,
}

#[derive(Clone, Debug)]
pub struct AlbumSummary {
    pub artist_name: String,
    pub album_name: String,
    pub track_count: usize,
    pub total_size: u64,
    pub year: Option<i32>,
}

#[derive(Clone, Debug)]
pub struct ArtistSummary {
    pub name: String,
    pub album_count: usize,
    pub track_count: usize,
    pub total_size: u64,
}

#[derive(Clone, Debug)]
pub struct DeviceWithStatus {
    pub device: Device,
    pub connected: bool,
    pub selected_artists: Vec<String>,
    pub selected_albums: Vec<AlbumSelection>,
}

#[derive(Clone, Debug)]
pub struct DetectedVolume {
    pub volume_uuid: String,
    pub volume_name: String,
    pub mount_path: String,
    pub capacity_bytes: u64,
    pub free_bytes: u64,
    pub bus_protocol: String,
    pub already_registered: bool,
}

#[derive(Clone, Debug)]
pub struct RegisterDeviceRequest {
    pub name: String,
    pub volume_uuid: String,
    pub volume_name: String,
    pub mount_path: String,
    pub capacity_bytes: Option<u64>,
    pub music_folder: String,
}

} // verus!
