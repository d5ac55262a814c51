//! The user's configuration: which accounts to watch and where downloads go.

use vstd::prelude::*;
use crate::text::{ends_with, ends_with_seq, is_ws, trim, trim_end_seq, trim_seq, trim_start_seq};

verus! {

/// The settings of `config.yaml`.
#[derive(Debug)]
pub struct Config {
    /// Watched usernames; an entry ending in `:false` is switched off.
    pub accounts: Vec<String>,
    pub download_dir: String,
    pub download_fav: bool,
    pub poll_accounts: bool,
}

/// Accounts are polled unless the configuration says otherwise.
pub fn default_poll_accounts() -> (r: bool)
    ensures
        r,
{
    true
}

/// An entry is watched unless it ends in `:false` (after trimming).
pub open spec fn is_tracked_spec(entry: Seq<char>) -> bool {
    !ends_with_seq(trim_seq(entry), ":false"@)
}

/// Whether a configured account entry is watched.
pub fn is_tracked(entry: &str) -> (r: bool)
    ensures
        r == is_tracked_spec(entry@),
{
    !ends_with(trim(entry), ":false")
}

/// The watched entries among `entries`, in order.
pub open spec fn tracked_entries(entries: Seq<Seq<char>>) -> Seq<Seq<char>>
    decreases entries.len(),
{
    if entries.len() == 0 {
        Seq::empty()
    } else {
        let prev = tracked_entries(entries.drop_last());
        if is_tracked_spec(entries.last()) {
            prev.push(entries.last())
        } else {
            prev
        }
    }
}

/// The watched account entries of the configuration, in order.
pub fn load_tracked_accounts(config: &Config) -> (r: Vec<String>)
    ensures
        r.deep_view() == tracked_entries(config.accounts.deep_view()),
{
    let ghost all = config.accounts.deep_view();
    let mut r: Vec<String> = Vec::new();
    let mut k: usize = 0;
    while k < config.accounts.len()
        invariant
            all == config.accounts.deep_view(),
            k <= all.len(),
            r.deep_view() == tracked_entries(all.take(k as int)),
        decreases all.len() - k,
    {
        proof {
            assert(all.take(k + 1).drop_last() == all.take(k as int));
            assert(all.take(k + 1).last() == config.accounts@[k as int]@);
        }
        if is_tracked(config.accounts[k].as_str()) {
            let ghost before = r.deep_view();
            r.push(config.accounts[k].clone());
            assert(r.deep_view() =~= before.push(config.accounts@[k as int]@));
        }
        k = k + 1;
    }
    assert(all.take(all.len() as int) == all);
    r
}

/// Why a configuration cannot be used.
#[derive(Debug, Clone, Copy, PartialEq, Eq, Structural)]
pub enum ConfigError {
    /// No account is configured: every entry is blank.
    NoAccounts,
}

/// Every entry is blank after trimming.
pub open spec fn all_blank(entries: Seq<Seq<char>>) -> bool {
    forall|i: int| 0 <= i < entries.len() ==> trim_seq(#[trigger] entries[i]).len() == 0
}

/// The configuration names at least one account.
pub fn general_check(config: &Config) -> (r: Result<(), ConfigError>)
    ensures
        r is Err <==> all_blank(config.accounts.deep_view()),
{
    let ghost all = config.accounts.deep_view();
    let mut k: usize = 0;
    while k < config.accounts.len()
        invariant
            all == config.accounts.deep_view(),
            k <= all.len(),
            forall|i: int| 0 <= i < k ==> trim_seq(#[trigger] all[i]).len() == 0,
        decreases all.len() - k,
    {
        assert(all[k as int] == config.accounts@[k as int]@);
        if trim(config.accounts[k].as_str()).unicode_len() != 0 {
            return Ok(());
        }
        k = k + 1;
    }
    Err(ConfigError::NoAccounts)
}

/// Leading whitespace is all that `trim_start_seq` drops.
proof fn lemma_trim_start_drops_whitespace(x: Seq<char>) -> (j: int)
    ensures
        0 <= j <= x.len(),
        trim_start_seq(x) == x.skip(j),
        forall|i: int| 0 <= i < j ==> is_ws(#[trigger] x[i]),
    decreases x.len(),
{
    if x.len() > 0 && is_ws(x[0]) {
        let k = lemma_trim_start_drops_whitespace(x.drop_first());
        assert(x.drop_first().skip(k) == x.skip(k + 1));
        assert forall|i: int| 0 <= i < k + 1 implies is_ws(#[trigger] x[i]) by {
            if i > 0 {
                assert(x[i] == x.drop_first()[i - 1]);
            }
        }
        k + 1
    } else {
        assert(x.skip(0) == x);
        0
    }
}

/// Appending `:false` to an account entry switches it off, whatever the
/// entry was.
pub proof fn law_false_suffix_disables(name: Seq<char>)
    ensures
        !is_tracked_spec(name + ":false"@),
{
    reveal_strlit(":false");
    let x = name + ":false"@;
    let suffix = ":false"@;
    assert(suffix.len() == 6);
    assert(x.last() == 'e');
    assert(!is_ws('e'));
    assert(trim_end_seq(x) == x);
    let j = lemma_trim_start_drops_whitespace(x);
    let t = trim_seq(x);
    assert(x[x.len() - 6] == ':');
    assert(!is_ws(':'));
    if j > x.len() - 6 {
        assert(is_ws(x[x.len() - 6]));
    }
    assert(t == x.skip(j));
    assert(t.subrange(t.len() - 6, t.len() as int) =~= suffix);
}

} // verus!
