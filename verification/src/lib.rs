//! A TikTok account watcher: the rules that decide which videos are new,
//! which are still owed a download, how account counts are reconciled and
//! when repeated failures become critical.

pub mod text;
pub mod video;
pub mod buckets;
pub mod seen;
pub mod api;
pub mod encoding;
pub mod config;
pub mod account;
pub mod discover;
pub mod cookies;
pub mod poll_health;
pub mod critical;
pub mod dates;
pub mod logger;
pub mod seen_video;
pub mod download;
pub mod browser;
pub mod run;
pub mod state;
pub mod cycle;
pub mod binary64;
