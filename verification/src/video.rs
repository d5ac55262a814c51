//! A tracked video and the rules of its download life cycle.

use vstd::prelude::*;
use crate::text::{i64_to_text, signed_decimal_seq};

verus! {

/// How many failed downloads pause a video.
pub const MAX_DOWNLOAD_FAILURES: u8 = 5;

/// The extension of every downloaded video file.
pub const VIDEO_EXT: &'static str = "mp4";

/// Where a video stands with its download.
#[derive(Debug, Clone, Copy, PartialEq, Eq, Structural)]
pub enum DownloadStatus {
    Downloaded,
    NotDownloaded,
    /// The number of downloads that have failed so far.
    DownloadFailed(u8),
}

/// A local date and time, field by field.
#[derive(Debug, Clone, Copy, PartialEq, Eq, Structural)]
pub struct DownloadDate {
    pub year: i32,
    pub month: u32,
    pub day: u32,
    pub hour: u32,
    pub minute: u32,
    pub second: u32,
    pub nanosecond: u32,
}

/// A stored video with no `source_available` entry counts as available.
pub fn default_source_available() -> (r: bool)
    ensures
        r,
{
    true
}

/// A video that discovery found, with its download state.
#[derive(Debug)]
pub struct Video {
    pub url: String,
    pub id: i64,
    pub username: String,
    pub is_fav: bool,
    pub download_status: DownloadStatus,
    pub source_available: bool,
    pub download_date: Option<DownloadDate>,
}

impl Clone for Video {
    fn clone(&self) -> (r: Self)
        ensures
            r == *self,
    {
        Video {
            url: self.url.clone(),
            id: self.id,
            username: self.username.clone(),
            is_fav: self.is_fav,
            download_status: self.download_status,
            source_available: self.source_available,
            download_date: self.download_date,
        }
    }
}

/// A video is owed a download while its source is available, it is not yet
/// downloaded, and it has failed fewer than five times.
pub open spec fn pending_spec(v: Video) -> bool {
    v.source_available && match v.download_status {
        DownloadStatus::Downloaded => false,
        DownloadStatus::NotDownloaded => true,
        DownloadStatus::DownloadFailed(n) => n < MAX_DOWNLOAD_FAILURES,
    }
}

/// The status after one more failed download.
pub open spec fn status_after_failure(s: DownloadStatus) -> DownloadStatus {
    match s {
        DownloadStatus::DownloadFailed(n) => DownloadStatus::DownloadFailed((n + 1) as u8),
        _ => DownloadStatus::DownloadFailed(1),
    }
}

/// Whether a failure count pauses the video.
pub open spec fn pauses(s: DownloadStatus) -> bool {
    match s {
        DownloadStatus::DownloadFailed(n) => n >= MAX_DOWNLOAD_FAILURES,
        _ => false,
    }
}

/// The video after one more failed download: the counter goes up, and at
/// five failures the source is marked unavailable.
pub open spec fn after_failure(v: Video) -> Video {
    let s = status_after_failure(v.download_status);
    Video {
        download_status: s,
        source_available: if pauses(s) {
            false
        } else {
            v.source_available
        },
        ..v
    }
}

/// Whether a download failure may be recorded for `v`: a failure of a video
/// that is already downloaded is a critical inconsistency, and the counter
/// must not overflow.
pub open spec fn failure_allowed(v: Video) -> bool {
    match v.download_status {
        DownloadStatus::Downloaded => false,
        DownloadStatus::NotDownloaded => true,
        DownloadStatus::DownloadFailed(n) => n < 255,
    }
}

/// The canonical address of a video.
pub open spec fn video_url_seq(username: Seq<char>, id: i64) -> Seq<char> {
    "https://www.tiktok.com/@"@ + username + "/video/"@ + signed_decimal_seq(id as int)
}

/// The folder a video's file goes to under the download directory.
pub open spec fn folder_seq(v: Video) -> Seq<char> {
    if v.is_fav {
        "favs"@
    } else {
        v.username@
    }
}

/// The file name of a video: its id and the video extension.
pub open spec fn file_name_seq(id: i64) -> Seq<char> {
    signed_decimal_seq(id as int) + "."@ + VIDEO_EXT@
}

impl Video {
    pub fn new(url: String, video_id: i64, username: String) -> (r: Self)
        ensures
            r.url == url,
            r.id == video_id,
            r.username == username,
            !r.is_fav,
            r.download_status == DownloadStatus::NotDownloaded,
            r.source_available,
            r.download_date is None,
    {
        Video {
            url,
            id: video_id,
            username,
            is_fav: false,
            download_status: DownloadStatus::NotDownloaded,
            source_available: true,
            download_date: None,
        }
    }

    pub fn is_pending(&self) -> (r: bool)
        ensures
            r == pending_spec(*self),
    {
        if !self.source_available {
            return false;
        }
        match self.download_status {
            DownloadStatus::Downloaded => false,
            DownloadStatus::NotDownloaded => true,
            DownloadStatus::DownloadFailed(failed_count) => failed_count < MAX_DOWNLOAD_FAILURES,
        }
    }

    /// Records a failed download. Returns whether this failure paused the
    /// video (the caller reports that).
    pub fn download_failed(&mut self) -> (paused: bool)
        requires
            failure_allowed(*old(self)),
        ensures
            *final(self) == after_failure(*old(self)),
            paused == pauses(final(self).download_status),
    {
        self.download_status = match self.download_status {
            DownloadStatus::DownloadFailed(n) => DownloadStatus::DownloadFailed(n + 1),
            _ => DownloadStatus::DownloadFailed(1),
        };
        let mut paused = false;
        if let DownloadStatus::DownloadFailed(n) = self.download_status {
            if n >= MAX_DOWNLOAD_FAILURES {
                self.source_available = false;
                paused = true;
            }
        }
        paused
    }

    /// Records a finished download at `date`.
    pub fn mark_downloaded(&mut self, date: DownloadDate)
        ensures
            *final(self) == (Video {
                download_status: DownloadStatus::Downloaded,
                download_date: Some(date),
                ..*old(self)
            }),
    {
        self.download_status = DownloadStatus::Downloaded;
        self.download_date = Some(date);
    }

    /// The folder under the download directory: `favs` for a favorite,
    /// else the author's name.
    pub fn folder(&self) -> (r: String)
        ensures
            r@ == folder_seq(*self),
    {
        if self.is_fav {
            proof {
                reveal_strlit("favs");
            }
            String::from_str("favs")
        } else {
            self.username.clone()
        }
    }

    /// The file name: `<id>.mp4`.
    pub fn file_name(&self) -> (r: String)
        ensures
            r@ == file_name_seq(self.id),
    {
        let mut s = i64_to_text(self.id);
        s.append(".");
        s.append(VIDEO_EXT);
        proof {
            reveal_strlit(".");
        }
        s
    }
}

/// The canonical address of video `id` by `username`.
pub fn video_url(username: &str, id: i64) -> (r: String)
    ensures
        r@ == video_url_seq(username@, id),
{
    let mut s = String::from_str("https://www.tiktok.com/@");
    s.append(username);
    s.append("/video/");
    s.append(i64_to_text(id).as_str());
    s
}

/// The failed-download counter after `k` failures in a row.
pub open spec fn after_failures(v: Video, k: nat) -> Video
    decreases k,
{
    if k == 0 {
        v
    } else {
        after_failure(after_failures(v, (k - 1) as nat))
    }
}

/// A video that has never been tried stays pending through four failed
/// downloads and is paused, no longer pending, after the fifth.
pub proof fn law_five_failures_pause(v: Video, k: nat)
    requires
        v.source_available,
        v.download_status == DownloadStatus::NotDownloaded,
        k <= 5,
    ensures
        after_failures(v, k).download_status == (if k == 0 {
            DownloadStatus::NotDownloaded
        } else {
            DownloadStatus::DownloadFailed(k as u8)
        }),
        pending_spec(after_failures(v, k)) == (k < 5),
    decreases k,
{
    if k > 0 {
        law_five_failures_pause(v, (k - 1) as nat);
    }
}

/// A downloaded video is never pending again, whatever else holds of it.
pub proof fn law_downloaded_not_pending(v: Video, date: DownloadDate)
    ensures
        !pending_spec(
            Video { download_status: DownloadStatus::Downloaded, download_date: Some(date), ..v },
        ),
{
}

/// A recorded failure never makes a video pending that was not.
pub proof fn law_failure_never_revives(v: Video)
    requires
        failure_allowed(v),
        !pending_spec(v),
    ensures
        !pending_spec(after_failure(v)),
{
}

} // verus!
