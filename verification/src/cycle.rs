//! One poll cycle: which steps it takes, in which order, and when it counts
//! as a success.

use vstd::prelude::*;

verus! {

/// A step of a poll cycle.
#[derive(Debug, Clone, Copy, PartialEq, Eq, Structural)]
pub enum CycleStep {
    /// Start the browser session with the saved login.
    LaunchBrowser,
    /// Read the signed-in account's favorites.
    FetchFavorites,
    /// Read each watched account.
    PollAccounts,
    /// Download every video still owed a download.
    DownloadPending,
}

/// The steps of a cycle: the browser is started only when favorites or
/// accounts are read; favorites come first, then the accounts; pending
/// downloads are always made, last.
pub open spec fn cycle_steps_spec(download_fav: bool, poll_accounts: bool) -> Seq<CycleStep> {
    (if download_fav || poll_accounts {
        seq![CycleStep::LaunchBrowser]
    } else {
        Seq::empty()
    }) + (if download_fav {
        seq![CycleStep::FetchFavorites]
    } else {
        Seq::empty()
    }) + (if poll_accounts {
        seq![CycleStep::PollAccounts]
    } else {
        Seq::empty()
    }) + seq![CycleStep::DownloadPending]
}

/// The steps of a cycle for the configuration's `download_fav` and
/// `poll_accounts`.
pub fn cycle_steps(download_fav: bool, poll_accounts: bool) -> (r: Vec<CycleStep>)
    ensures
        r@ == cycle_steps_spec(download_fav, poll_accounts),
{
    let mut r: Vec<CycleStep> = Vec::new();
    if download_fav || poll_accounts {
        r.push(CycleStep::LaunchBrowser);
    }
    if download_fav {
        r.push(CycleStep::FetchFavorites);
    }
    if poll_accounts {
        r.push(CycleStep::PollAccounts);
    }
    r.push(CycleStep::DownloadPending);
    assert(r@ =~= cycle_steps_spec(download_fav, poll_accounts));
    r
}

/// A cycle succeeds when none of its steps recorded an error; otherwise it
/// fails with all of them, in order.
pub fn cycle_outcome(errors: Vec<String>) -> (r: Result<(), Vec<String>>)
    ensures
        r is Ok <==> errors@.len() == 0,
        r matches Err(e) ==> e.deep_view() == errors.deep_view(),
{
    if errors.len() == 0 {
        Ok(())
    } else {
        Err(errors)
    }
}

/// Every cycle ends with the pending downloads, and starts the browser
/// exactly when it reads favorites or accounts.
pub proof fn law_cycle_always_downloads(download_fav: bool, poll_accounts: bool)
    ensures
        cycle_steps_spec(download_fav, poll_accounts).last() == CycleStep::DownloadPending,
        cycle_steps_spec(download_fav, poll_accounts).contains(CycleStep::LaunchBrowser) <==> (
        download_fav || poll_accounts),
        cycle_steps_spec(download_fav, poll_accounts).contains(CycleStep::FetchFavorites)
            <==> download_fav,
        cycle_steps_spec(download_fav, poll_accounts).contains(CycleStep::PollAccounts)
            <==> poll_accounts,
{
    let s = cycle_steps_spec(download_fav, poll_accounts);
    if download_fav || poll_accounts {
        assert(s[0] == CycleStep::LaunchBrowser);
    }
    if download_fav {
        let i = if download_fav || poll_accounts { 1int } else { 0int };
        assert(s[i] == CycleStep::FetchFavorites);
    }
    if poll_accounts {
        let i = (if download_fav || poll_accounts { 1int } else { 0int }) + (if download_fav { 1int } else { 0int });
        assert(s[i] == CycleStep::PollAccounts);
    }
}

} // verus!
