//! Log records: their levels, where each level is written, and the text of
//! a log line.

use vstd::prelude::*;
use crate::dates::{chrono_format, format_log_time, log_time_text, valid_date_time, LOG_TIME_FORMAT};
use crate::video::DownloadDate;

verus! {

/// How serious a log record is.
#[derive(Debug, Clone, Copy, PartialEq, Eq, Structural)]
pub enum LogLevel {
    CriticalFail,
    Error,
    Info,
    Console,
    Dev,
}

pub open spec fn level_name(level: LogLevel) -> Seq<char> {
    match level {
        LogLevel::CriticalFail => "CriticalFail"@,
        LogLevel::Error => "Error"@,
        LogLevel::Info => "Info"@,
        LogLevel::Console => "Console"@,
        LogLevel::Dev => "Dev"@,
    }
}

impl LogLevel {
    /// The level's name as log lines show it.
    pub fn name(&self) -> (r: &'static str)
        ensures
            r@ == level_name(*self),
    {
        match self {
            LogLevel::CriticalFail => "CriticalFail",
            LogLevel::Error => "Error",
            LogLevel::Info => "Info",
            LogLevel::Console => "Console",
            LogLevel::Dev => "Dev",
        }
    }
}

/// The file (in the state directory) that records of a level go to; console
/// records go to none.
pub fn level_log_file(level: LogLevel) -> (r: Option<&'static str>)
    ensures
        match level {
            LogLevel::Info => r matches Some(f) && f@ == "info.log"@,
            LogLevel::Error => r matches Some(f) && f@ == "error.log"@,
            LogLevel::CriticalFail => r matches Some(f) && f@ == "criticalfail.log"@,
            LogLevel::Dev => r matches Some(f) && f@ == "diagnostic.log"@,
            LogLevel::Console => r is None,
        },
{
    match level {
        LogLevel::Info => Some("info.log"),
        LogLevel::Error => Some("error.log"),
        LogLevel::CriticalFail => Some("criticalfail.log"),
        LogLevel::Dev => Some("diagnostic.log"),
        LogLevel::Console => None,
    }
}

/// A standard stream of the process.
#[derive(Debug, Clone, Copy, PartialEq, Eq, Structural)]
pub enum ConsoleStream {
    Stdout,
    Stderr,
}

/// Where a record is echoed: info and console records to standard output,
/// diagnostics to standard error in dev mode only, the rest to standard
/// error.
pub fn console_stream(level: LogLevel, dev_mode: bool) -> (r: Option<ConsoleStream>)
    ensures
        r == match level {
            LogLevel::Info | LogLevel::Console => Some(ConsoleStream::Stdout),
            LogLevel::Dev => if dev_mode {
                Some(ConsoleStream::Stderr)
            } else {
                None
            },
            _ => Some(ConsoleStream::Stderr),
        },
{
    match level {
        LogLevel::Info | LogLevel::Console => Some(ConsoleStream::Stdout),
        LogLevel::Dev => if dev_mode {
            Some(ConsoleStream::Stderr)
        } else {
            None
        },
        _ => Some(ConsoleStream::Stderr),
    }
}

/// Dev mode is on only when it was switched on.
pub fn dev_mode_enabled(setting: Option<bool>) -> (r: bool)
    ensures
        r == (setting == Some(true)),
{
    match setting {
        Some(b) => b,
        None => false,
    }
}

/// A log record.
#[derive(Debug)]
pub struct Log {
    pub message: String,
    pub level: LogLevel,
    pub timestamp: DownloadDate,
}

impl Log {
    pub fn new(message: String, level: LogLevel, timestamp: DownloadDate) -> (r: Self)
        ensures
            r.message == message,
            r.level == level,
            r.timestamp == timestamp,
    {
        Log { message, level, timestamp }
    }

    /// The console line: `[<level>](<time>): <message>`.
    pub fn console_line(&self) -> (r: Option<String>)
        ensures
            r.deep_view() == match chrono_format(self.timestamp, LOG_TIME_FORMAT@) {
                Some(t) => Some("["@ + level_name(self.level) + "]("@ + t + "): "@ + self.message@),
                None => None,
            },
        valid_date_time(self.timestamp) && self.timestamp.nanosecond < 1_000_000_000 ==> (r matches Some(
            l,
        ) && l@ == "["@ + level_name(self.level) + "]("@ + log_time_text(self.timestamp) + "): "@
            + self.message@),
    {
        let t = match format_log_time(self.timestamp) {
            Some(t) => t,
            None => return None,
        };
        let mut s = String::from_str("[");
        s.append(self.level.name());
        s.append("](");
        s.append(t.as_str());
        s.append("): ");
        s.append(self.message.as_str());
        Some(s)
    }

    /// The line in the level's file: `[<time>]: <message>`.
    pub fn file_line(&self) -> (r: Option<String>)
        ensures
            r.deep_view() == match chrono_format(self.timestamp, LOG_TIME_FORMAT@) {
                Some(t) => Some("["@ + t + "]: "@ + self.message@),
                None => None,
            },
        valid_date_time(self.timestamp) && self.timestamp.nanosecond < 1_000_000_000 ==> (r matches Some(
            l,
        ) && l@ == "["@ + log_time_text(self.timestamp) + "]: "@ + self.message@),
    {
        let t = match format_log_time(self.timestamp) {
            Some(t) => t,
            None => return None,
        };
        let mut s = String::from_str("[");
        s.append(t.as_str());
        s.append("]: ");
        s.append(self.message.as_str());
        Some(s)
    }
}

} // verus!
