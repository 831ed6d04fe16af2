//! The records that the catcher exchanges with its front end.
use vstd::prelude::*;

verus! {

/// What kind of media a captured link points at.
#[derive(Debug, Clone, Copy, PartialEq, Eq, Structural)]
pub enum MediaKind {
    Mp4,
    M3u8,
    Ts,
    Dash,
    /// An audio-only stream.
    Audio,
    Other,
}

/// A media link found on a page or in proxied traffic.
#[derive(Debug)]
pub struct MediaItem {
    pub id: String,
    pub url: String,
    pub title: String,
    pub source: String,
    pub kind: MediaKind,
    pub quality: String,
    pub size_bytes: i64,
    pub status: String,
}

impl Clone for MediaItem {
    fn clone(&self) -> (r: Self)
        ensures
            r == *self,
    {
        MediaItem {
            id: self.id.clone(),
            url: self.url.clone(),
            title: self.title.clone(),
            source: self.source.clone(),
            kind: self.kind,
            quality: self.quality.clone(),
            size_bytes: self.size_bytes,
            status: self.status.clone(),
        }
    }
}

/// Where a download task stands.
#[derive(Debug, Clone, Copy, PartialEq, Eq, Structural)]
pub enum TaskStatus {
    Queued,
    Downloading,
    Merging,
    Done,
    Failed,
    Paused,
    Cancelled,
}

/// A download task.
///
/// The progress fraction (an `f32` in `0.0..=1.0`) and the speed in bytes per
/// second (an `f64`) are kept as their IEEE-754 bit patterns: this library
/// stores and hands them back unchanged and never computes with them.
#[derive(Debug)]
pub struct DownloadTask {
    pub id: String,
    pub url: String,
    pub title: String,
    pub out_path: String,
    pub status: TaskStatus,
    pub progress_bits: u32,
    pub speed_bits: u64,
    pub downloaded: i64,
    pub total: i64,
    pub error: String,
    /// The format that the user asked for.
    pub format: Option<String>,
    /// The finished file on disk, once there is one.
    pub file_path: String,
    /// For a merge task, the URL of the second stream.
    pub pair_url: String,
}

pub fn clone_opt(s: &Option<String>) -> (r: Option<String>)
    ensures
        r == *s,
{
    match s {
        Some(x) => Some(x.clone()),
        None => None,
    }
}

impl Clone for DownloadTask {
    fn clone(&self) -> (r: Self)
        ensures
            r == *self,
    {
        DownloadTask {
            id: self.id.clone(),
            url: self.url.clone(),
            title: self.title.clone(),
            out_path: self.out_path.clone(),
            status: self.status,
            progress_bits: self.progress_bits,
            speed_bits: self.speed_bits,
            downloaded: self.downloaded,
            total: self.total,
            error: self.error.clone(),
            format: clone_opt(&self.format),
            file_path: self.file_path.clone(),
            pair_url: self.pair_url.clone(),
        }
    }
}

/// What the user picked in the download dialog.
#[derive(Debug)]
pub struct DownloadOptions {
    pub format: String,
    pub quality: String,
    pub out_dir: String,
}

/// Which external tools are installed.
#[derive(Debug)]
pub struct EngineInfo {
    pub yt_dlp: bool,
    pub ffmpeg: bool,
    pub yt_dlp_version: String,
}

/// The state of the capture proxy.
#[derive(Debug)]
pub struct ProxyStatus {
    pub running: bool,
    pub addr: String,
    pub ca_installed: bool,
}

/// A message in both of the front end's languages; the front end shows one.
#[derive(Debug)]
pub struct BiText {
    pub zh: String,
    pub en: String,
}

/// An error text for the front end: bilingual, or one text shown as it is.
#[derive(Debug)]
pub enum Notice {
    Bilingual(BiText),
    Plain(String),
}

} // verus!
