//! Browser sessions: when the browser runs without a window, and how far
//! scrolling goes.

use vstd::prelude::*;

verus! {

/// Whether a browser profile keeps cookies between runs.
#[derive(Debug, Clone, Copy, PartialEq, Eq, Structural)]
pub enum CookiesMode {
    /// A profile directory that keeps the login.
    Persistent,
    /// No profile: nothing is kept.
    Ephemeral,
}

/// The browser runs without a window except in debug builds and dev mode.
pub fn is_headless(debug_build: bool, dev_mode: bool) -> (r: bool)
    ensures
        r == !(debug_build || dev_mode),
{
    if debug_build || dev_mode {
        false
    } else {
        true
    }
}

/// Whether scrolling goes on after `loop_count` steps of a budget of `x`:
/// at most `x + 1` steps are taken.
pub fn should_scroll(loop_count: u32, x: u32) -> (r: bool)
    ensures
        r == (loop_count <= x),
{
    loop_count <= x
}

} // verus!
