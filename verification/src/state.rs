//! The files the watcher keeps in its state directory, and what a missing
//! one starts out as.

use vstd::prelude::*;

verus! {

/// The state directory's name, beside the program or the project.
pub const STATE_DIR_NAME: &'static str = "state";

/// The seen-videos database.
pub const SEEN_VIDEOS_FILE: &'static str = "seen_videos.json";

/// The saved browser cookies.
pub const COOKIES_FILE: &'static str = "saved_cookies.json";

/// The tracked accounts and their counts.
pub const ACCOUNTS_FILE: &'static str = "accounts.json";

/// The record of failed poll cycles.
pub const POLL_HEALTH_FILE: &'static str = "poll_health.json";

/// The flag that a critical recovery is pending.
pub const CRITICAL_RECOVERY_FILE: &'static str = "critical_recovery.json";

/// The browser profile directory.
pub const PROFILE_DIR: &'static str = "tiktok_profile";

/// The file whose appearance acknowledges a critical alert.
pub const ATTENTION_ACK_FILE: &'static str = "attention_ack";

/// The cookie file handed to the downloader.
pub const YTDLP_COOKIES_FILE: &'static str = "ytdlp_cookies.txt";

/// The downloader's program name.
pub const YTDLP_PROGRAM: &'static str = "yt-dlp.exe";

/// The user's configuration, beside the program.
pub const CONFIG_FILE: &'static str = "config.yaml";

/// A cookie file with no cookies.
pub const EMPTY_COOKIES_JSON: &'static str = "{\n  \"cookies\": []\n}\n";

/// An empty JSON object, for the seen-videos database.
pub const EMPTY_OBJECT_JSON: &'static str = "{}\n";

/// An empty JSON list, for the accounts file.
pub const EMPTY_LIST_JSON: &'static str = "[]\n";

/// A state file is (re)written with its default contents when it is missing
/// or empty; one with contents is left alone.
pub fn needs_default_contents(present: bool, len: u64) -> (r: bool)
    ensures
        r == (!present || len == 0),
{
    !present || len == 0
}

} // verus!
