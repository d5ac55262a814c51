//! How the program is run.

use vstd::prelude::*;
use crate::text::str_eq;

verus! {

/// The program's modes.
#[derive(Debug, Clone, Copy, PartialEq, Eq, Structural)]
pub enum RunMode {
    /// Run the login flow.
    Login,
    /// Poll and download.
    Default,
    /// Poll and download with a visible browser and verbose tracing.
    Dev,
}

/// The mode the first command-line argument selects; `None` for an unknown
/// argument (the program then shows its usage).
pub fn parse_run_mode(arg: Option<&str>) -> (r: Option<RunMode>)
    ensures
        r == match arg {
            None => Some(RunMode::Default),
            Some(a) => if a@ == "login"@ {
                Some(RunMode::Login)
            } else if a@ == "dev"@ {
                Some(RunMode::Dev)
            } else {
                None
            },
        },
{
    match arg {
        None => Some(RunMode::Default),
        Some(a) => {
            if str_eq(a, "login") {
                Some(RunMode::Login)
            } else if str_eq(a, "dev") {
                Some(RunMode::Dev)
            } else {
                None
            }
        },
    }
}

} // verus!
