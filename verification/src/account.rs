//! Watched accounts: their stored video counts and how a new count is
//! reconciled with the videos seen so far.

use vstd::prelude::*;
use crate::buckets::{entry_index, has_user, items_of, lemma_user_index, lemma_with_user, users_distinct, with_user};
use crate::config::tracked_entries;
use crate::seen::{SeenVideos, append_new, append_videos, has_id, ids_distinct, law_append_keeps_existing, law_append_keeps_ids_distinct};
use crate::video::Video;

verus! {

/// A watched account as `accounts.json` stores it.
#[derive(Debug)]
pub struct Account {
    pub name: String,
    /// The video count last read from the profile.
    pub count: i64,
    /// How many of the counted videos are not yet seen.
    pub diff: i64,
    /// How many videos disappeared from the profile.
    pub unavailable: i64,
}

impl Clone for Account {
    fn clone(&self) -> (r: Self)
        ensures
            r == *self,
    {
        Account {
            name: self.name.clone(),
            count: self.count,
            diff: self.diff,
            unavailable: self.unavailable,
        }
    }
}

impl Account {
    pub fn new(name: String, video_count: i64, diff: i64) -> (r: Self)
        ensures
            r.name == name,
            r.count == video_count,
            r.diff == diff,
            r.unavailable == 0,
    {
        Account { name, count: video_count, diff, unavailable: 0 }
    }
}

/// How a new video count compares with the stored one.
#[derive(Debug, Clone, Copy, PartialEq, Eq, Structural)]
pub enum CountEvent {
    Same,
    Increased,
    Decreased,
}

pub open spec fn observe_spec(old_count: i64, new_count: i64) -> CountEvent {
    if old_count == new_count {
        CountEvent::Same
    } else if old_count > new_count {
        CountEvent::Decreased
    } else {
        CountEvent::Increased
    }
}

impl CountEvent {
    pub fn observe(old_count: i64, new_count: i64) -> (r: Self)
        ensures
            r == observe_spec(old_count, new_count),
    {
        if old_count == new_count {
            CountEvent::Same
        } else if old_count > new_count {
            CountEvent::Decreased
        } else {
            CountEvent::Increased
        }
    }
}

/// Why an account could not be added.
#[derive(Debug, Clone, Copy, PartialEq, Eq, Structural)]
pub enum AccountError {
    AlreadyExists,
}

/// Some account in `accounts` has the name `name`.
pub open spec fn has_account(accounts: Seq<Account>, name: Seq<char>) -> bool {
    exists|i: int| 0 <= i < accounts.len() && #[trigger] accounts[i].name@ == name
}

/// Adds `account` at the end, unless an account of that name exists.
pub fn add_account(accounts: &mut Vec<Account>, account: &Account) -> (r: Result<(), AccountError>)
    ensures
        r is Err <==> has_account(old(accounts)@, account.name@),
        r is Ok ==> final(accounts)@ == old(accounts)@.push(*account),
        r is Err ==> final(accounts)@ == old(accounts)@,
{
    let mut k: usize = 0;
    while k < accounts.len()
        invariant
            k <= accounts@.len(),
            forall|j: int| 0 <= j < k ==> #[trigger] accounts@[j].name@ != account.name@,
        decreases accounts@.len() - k,
    {
        if accounts[k].name == account.name {
            assert(accounts@[k as int].name@ == account.name@);
            return Err(AccountError::AlreadyExists);
        }
        k = k + 1;
    }
    accounts.push(account.clone());
    Ok(())
}

/// `a` after its stored state was set to `count`, `diff`, `unavailable`.
pub open spec fn with_state(a: Account, count: i64, diff: i64, unavailable: i64) -> Account {
    Account { count, diff, unavailable, ..a }
}

/// Sets the stored state of every account named like `account`.
pub fn update_account_state(
    accounts: &mut Vec<Account>,
    account: &Account,
    count: i64,
    diff: i64,
    unavailable: i64,
)
    ensures
        final(accounts)@.len() == old(accounts)@.len(),
        forall|k: int|
            0 <= k < old(accounts)@.len() ==> #[trigger] final(accounts)@[k] == if old(
                accounts,
            )@[k].name@ == account.name@ {
                with_state(old(accounts)@[k], count, diff, unavailable)
            } else {
                old(accounts)@[k]
            },
{
    let ghost before = accounts@;
    let mut k: usize = 0;
    while k < accounts.len()
        invariant
            k <= accounts@.len(),
            accounts@.len() == before.len(),
            forall|j: int|
                0 <= j < k ==> #[trigger] accounts@[j] == if before[j].name@ == account.name@ {
                    with_state(before[j], count, diff, unavailable)
                } else {
                    before[j]
                },
            forall|j: int| k <= j < before.len() ==> #[trigger] accounts@[j] == before[j],
        decreases accounts@.len() - k,
    {
        if accounts[k].name == account.name {
            let mut a = accounts[k].clone();
            a.count = count;
            a.diff = diff;
            a.unavailable = unavailable;
            accounts.set(k, a);
        }
        k = k + 1;
    }
}

/// The accounts whose name is a watched entry of `entries`, in order.
pub open spec fn keep_tracked(accounts: Seq<Account>, entries: Seq<Seq<char>>) -> Seq<Account>
    decreases accounts.len(),
{
    if accounts.len() == 0 {
        Seq::empty()
    } else {
        let prev = keep_tracked(accounts.drop_last(), entries);
        if tracked_entries(entries).contains(accounts.last().name@) {
            prev.push(accounts.last())
        } else {
            prev
        }
    }
}

/// The stored accounts that the configuration watches.
pub fn load_tracked_accounts(accounts: Vec<Account>, config: &crate::config::Config) -> (r: Vec<
    Account,
>)
    ensures
        r@ == keep_tracked(accounts@, config.accounts.deep_view()),
{
    let names = crate::config::load_tracked_accounts(config);
    let ghost entries = config.accounts.deep_view();
    let mut r: Vec<Account> = Vec::new();
    let mut k: usize = 0;
    while k < accounts.len()
        invariant
            k <= accounts@.len(),
            entries == config.accounts.deep_view(),
            names.deep_view() == tracked_entries(entries),
            r@ == keep_tracked(accounts@.take(k as int), entries),
        decreases accounts@.len() - k,
    {
        proof {
            assert(accounts@.take(k + 1).drop_last() == accounts@.take(k as int));
            assert(accounts@.take(k + 1).last() == accounts@[k as int]);
        }
        let mut found = false;
        let mut j: usize = 0;
        while j < names.len()
            invariant
                k < accounts@.len(),
                j <= names@.len(),
                names.deep_view() == tracked_entries(entries),
                found == exists|w: int| 0 <= w < j && #[trigger] names.deep_view()[w]
                    == accounts@[k as int].name@,
            decreases names@.len() - j,
        {
            assert(names.deep_view()[j as int] == names@[j as int]@);
            if names[j] == accounts[k].name {
                found = true;
            }
            j = j + 1;
        }
        if found {
            r.push(accounts[k].clone());
        }
        k = k + 1;
    }
    assert(accounts@.take(accounts@.len() as int) == accounts@);
    r
}

/// The state stored for an account after a poll.
#[derive(Debug, Clone, Copy, PartialEq, Eq, Structural)]
pub struct AccountState {
    pub count: i64,
    pub diff: i64,
    pub unavailable: i64,
}

/// Why a poll result cannot be stored.
#[derive(Debug, Clone, Copy, PartialEq, Eq, Structural)]
pub enum ReconcileError {
    /// More videos were seen than the account has and had: a critical
    /// inconsistency.
    NegativeDiff,
}

/// The number of counted videos not yet seen.
pub open spec fn diff_spec(new_count: i64, unavailable: i64, total_seen: int) -> int {
    new_count + unavailable - total_seen
}

/// Reconciles a new count with the videos seen: the unseen number is
/// `new_count + unavailable - total_seen`, and may not be negative.
pub fn reconcile_account_state(new_count: i64, unavailable: i64, total_seen: usize) -> (r: Result<
    AccountState,
    ReconcileError,
>)
    requires
        i64::MIN <= new_count + unavailable - total_seen <= i64::MAX,
        i64::MIN <= new_count + unavailable <= i64::MAX,
        total_seen <= i64::MAX,
    ensures
        r is Err <==> diff_spec(new_count, unavailable, total_seen as int) < 0,
        r matches Ok(s) ==> s == (AccountState {
            count: new_count,
            diff: diff_spec(new_count, unavailable, total_seen as int) as i64,
            unavailable,
        }),
        r matches Ok(s) ==> s.count + s.unavailable - s.diff == total_seen,
{
    let total = total_seen as i64;
    let diff = new_count + unavailable - total;
    if diff < 0 {
        return Err(ReconcileError::NegativeDiff);
    }
    Ok(AccountState { count: new_count, diff, unavailable })
}

/// The videos that disappeared so far, after the count went from
/// `old_count` to `new_count`.
pub open spec fn unavailable_after(account: Account, new_count: i64) -> int {
    if observe_spec(account.count, new_count) == CountEvent::Decreased {
        account.unavailable + (account.count - new_count)
    } else {
        account.unavailable as int
    }
}

/// The fetched videos whose id is not among `existing`, in order.
pub open spec fn not_seen(existing: Seq<Video>, fetched: Seq<Video>) -> Seq<Video>
    decreases fetched.len(),
{
    if fetched.len() == 0 {
        Seq::empty()
    } else {
        let prev = not_seen(existing, fetched.drop_last());
        if has_id(existing, fetched.last().id) {
            prev
        } else {
            prev.push(fetched.last())
        }
    }
}

/// The fetched videos whose id `existing` does not have.
pub fn filter_unseen(existing: &Vec<Video>, fetched: &Vec<Video>) -> (r: Vec<Video>)
    ensures
        r@ == not_seen(existing@, fetched@),
{
    let mut r: Vec<Video> = Vec::new();
    let mut k: usize = 0;
    while k < fetched.len()
        invariant
            k <= fetched@.len(),
            r@ == not_seen(existing@, fetched@.take(k as int)),
        decreases fetched@.len() - k,
    {
        proof {
            assert(fetched@.take(k + 1).drop_last() == fetched@.take(k as int));
            assert(fetched@.take(k + 1).last() == fetched@[k as int]);
        }
        if !crate::seen::contains_id(existing, fetched[k].id) {
            r.push(fetched[k].clone());
        }
        k = k + 1;
    }
    assert(fetched@.take(fetched@.len() as int) == fetched@);
    r
}

/// What one account's poll changed.
#[derive(Debug, Clone, Copy, PartialEq, Eq, Structural)]
pub struct PollOutcome {
    /// The state to store for the account.
    pub state: AccountState,
    /// How many videos were added to the seen database.
    pub added: usize,
}

/// The database after a poll that read `new_count` for `account` and, where
/// the count went up, fetched the newest videos `fetched`.
pub open spec fn seen_after_poll(
    seen: Seq<(Seq<char>, Seq<Video>)>,
    account: Account,
    new_count: i64,
    fetched: Seq<Video>,
) -> Seq<(Seq<char>, Seq<Video>)> {
    let fresh = not_seen(items_of(seen, account.name@), fetched);
    if observe_spec(account.count, new_count) == CountEvent::Increased && fresh.len() > 0 {
        with_user(seen, account.name@).update(
            entry_index(seen, account.name@),
            (account.name@, append_new(items_of(seen, account.name@), fresh)),
        )
    } else {
        seen
    }
}

/// The arithmetic of a poll stays within `i64`: outside it the count
/// arithmetic would overflow.
pub open spec fn poll_fits(
    seen: Seq<(Seq<char>, Seq<Video>)>,
    account: Account,
    new_count: i64,
    fetched: Seq<Video>,
) -> bool {
    let unavailable = unavailable_after(account, new_count);
    let total = items_of(seen_after_poll(seen, account, new_count, fetched), account.name@).len();
    &&& i64::MIN <= account.count - new_count <= i64::MAX
    &&& i64::MIN <= unavailable <= i64::MAX
    &&& i64::MIN <= new_count + unavailable <= i64::MAX
    &&& i64::MIN <= new_count + unavailable - total <= i64::MAX
    &&& total <= i64::MAX
}

/// Applies one account's poll: where the count went up, the fetched videos
/// not yet seen join the account's entry; where it went down, the drop is
/// added to the unavailable videos; then the count is reconciled with the
/// number of videos seen for the account.
pub fn apply_poll(
    seen: &mut SeenVideos,
    account: &Account,
    new_count: i64,
    fetched: &Vec<Video>,
) -> (r: Result<PollOutcome, ReconcileError>)
    requires
        old(seen).wf(),
        poll_fits(old(seen)@, *account, new_count, fetched@),
    ensures
        final(seen).wf(),
        final(seen)@ == seen_after_poll(old(seen)@, *account, new_count, fetched@),
        ({
            let total = items_of(final(seen)@, account.name@).len() as int;
            let unavailable = unavailable_after(*account, new_count);
            match r {
                Ok(o) => diff_spec(new_count, unavailable as i64, total) >= 0 && o.state == (
                AccountState {
                    count: new_count,
                    diff: diff_spec(new_count, unavailable as i64, total) as i64,
                    unavailable: unavailable as i64,
                }),
                Err(_) => diff_spec(new_count, unavailable as i64, total) < 0,
            }
        }),
        r matches Ok(o) ==> o.added == items_of(final(seen)@, account.name@).len() - items_of(
            old(seen)@,
            account.name@,
        ).len(),
        new_count < account.count ==> (r matches Ok(o) ==> o.state.unavailable == account.unavailable
            + (account.count - new_count)),
        new_count >= account.count ==> (r matches Ok(o) ==> o.state.unavailable
            == account.unavailable),
        new_count < account.count && 0 <= account.diff && account.count + account.unavailable
            - account.diff == items_of(old(seen)@, account.name@).len() ==> (r matches Ok(o)
            && o.state.count == new_count && o.state.diff == account.diff && final(seen)@ == old(
            seen,
        )@),
{
    proof {
        law_poll_keeps_seen_videos(seen@, *account, new_count, fetched@);
        law_vanished_videos_become_unavailable(*account, new_count);
    }
    let event = CountEvent::observe(account.count, new_count);
    let unavailable = match event {
        CountEvent::Decreased => account.unavailable + (account.count - new_count),
        _ => account.unavailable,
    };
    let name = account.name.as_str();
    let fresh: Vec<Video> = match event {
        CountEvent::Increased => match seen.find(name) {
            Some(i) => filter_unseen(seen.items(i), fetched),
            None => {
                let none: Vec<Video> = Vec::new();
                assert(none@ == items_of(seen@, name@));
                filter_unseen(&none, fetched)
            },
        },
        _ => Vec::new(),
    };
    let mut added: usize = 0;
    if fresh.len() > 0 {
        added = append_videos(seen, name, &fresh);
    }
    let total: usize = match seen.find(name) {
        Some(i) => seen.items(i).len(),
        None => 0,
    };
    let state = match reconcile_account_state(new_count, unavailable, total) {
        Ok(state) => state,
        Err(e) => return Err(e),
    };
    Ok(PollOutcome { state, added })
}

/// A poll never loses a video: every user keeps its place and its videos,
/// in order, at the front of its list; and the account's ids stay distinct
/// where they were.
pub proof fn law_poll_keeps_seen_videos(
    seen: Seq<(Seq<char>, Seq<Video>)>,
    account: Account,
    new_count: i64,
    fetched: Seq<Video>,
)
    requires
        users_distinct(seen),
    ensures
        ({
            let after = seen_after_poll(seen, account, new_count, fetched);
            &&& after.len() >= seen.len()
            &&& forall|b: int|
                0 <= b < seen.len() ==> {
                    &&& (#[trigger] after[b]).0 == seen[b].0
                    &&& after[b].1.len() >= seen[b].1.len()
                    &&& after[b].1.subrange(0, seen[b].1.len() as int) == seen[b].1
                }
            &&& ids_distinct(items_of(seen, account.name@)) ==> ids_distinct(
                items_of(after, account.name@),
            )
            &&& items_of(after, account.name@) == if observe_spec(account.count, new_count)
                == CountEvent::Increased && not_seen(items_of(seen, account.name@), fetched).len() > 0 {
                append_new(items_of(seen, account.name@), not_seen(items_of(seen, account.name@), fetched))
            } else {
                items_of(seen, account.name@)
            }
        }),
{
    let name = account.name@;
    let fresh = not_seen(items_of(seen, name), fetched);
    let after = seen_after_poll(seen, account, new_count, fetched);
    if observe_spec(account.count, new_count) == CountEvent::Increased && fresh.len() > 0 {
        lemma_with_user(seen, name);
        let w = with_user(seen, name);
        let e = entry_index(seen, name);
        let grown = append_new(items_of(seen, name), fresh);
        law_append_keeps_existing(items_of(seen, name), fresh);
        law_append_keeps_ids_distinct_if(items_of(seen, name), fresh);
        assert(after == w.update(e, (name, grown)));
        assert forall|b: int| 0 <= b < seen.len() implies {
            &&& (#[trigger] after[b]).0 == seen[b].0
            &&& after[b].1.len() >= seen[b].1.len()
            &&& after[b].1.subrange(0, seen[b].1.len() as int) == seen[b].1
        } by {
            assert(w[b] == seen[b]);
            if b == e {
                assert(items_of(seen, name) == w[e].1);
            } else {
                assert(after[b] == w[b]);
            }
        }
        lemma_with_user(after, name);
        let e2 = entry_index(after, name);
        assert(after[e].0 == name);
        lemma_user_index(after, name, e);
        assert(has_user(after, name));
        assert(e2 == e);
        assert(items_of(after, name) == grown);
    } else {
        assert forall|b: int| 0 <= b < seen.len() implies {
            &&& (#[trigger] after[b]).0 == seen[b].0
            &&& after[b].1.len() >= seen[b].1.len()
            &&& after[b].1.subrange(0, seen[b].1.len() as int) == seen[b].1
        } by {
            assert(seen[b].1.subrange(0, seen[b].1.len() as int) == seen[b].1);
        }
    }
}

proof fn law_append_keeps_ids_distinct_if(existing: Seq<Video>, vids: Seq<Video>)
    ensures
        ids_distinct(existing) ==> ids_distinct(append_new(existing, vids)),
{
    if ids_distinct(existing) {
        law_append_keeps_ids_distinct(existing, vids);
    }
}

/// The number of videos that appending `vids` to `existing` gives.
fn appended_len(existing: &Vec<Video>, vids: &Vec<Video>) -> (n: usize)
    ensures
        n == append_new(existing@, vids@).len(),
{
    let mut ids = crate::seen::ids_of(existing);
    let mut k: usize = 0;
    proof {
        assert(vids@.take(0) == Seq::<Video>::empty());
        assert forall|id: i64| ids@.contains(id) <==> has_id(existing@, id) by {
            if ids@.contains(id) {
                let j = choose|j: int| 0 <= j < ids@.len() && ids@[j] == id;
                assert(existing@[j].id == id);
            }
            if has_id(existing@, id) {
                let j = choose|j: int| 0 <= j < existing@.len() && #[trigger] existing@[j].id == id;
                assert(ids@[j] == id);
            }
        }
    }
    while k < vids.len()
        invariant
            k <= vids@.len(),
            ids@.len() == append_new(existing@, vids@.take(k as int)).len(),
            forall|id: i64| ids@.contains(id) <==> has_id(append_new(existing@, vids@.take(k as int)), id),
        decreases vids@.len() - k,
    {
        let ghost prev = append_new(existing@, vids@.take(k as int));
        proof {
            assert(vids@.take(k + 1).drop_last() == vids@.take(k as int));
            assert(vids@.take(k + 1).last() == vids@[k as int]);
        }
        let id = vids[k].id;
        if !crate::discover::contains_i64(&ids, id) {
            let ghost before = ids@;
            ids.push(id);
            proof {
                let next = prev.push(vids@[k as int]);
                assert forall|x: i64| ids@.contains(x) <==> has_id(next, x) by {
                    if ids@.contains(x) {
                        let j = choose|j: int| 0 <= j < ids@.len() && ids@[j] == x;
                        if j < before.len() {
                            assert(before.contains(x));
                            let w = choose|w: int| 0 <= w < prev.len() && #[trigger] prev[w].id == x;
                            assert(next[w] == prev[w]);
                        } else {
                            assert(next[prev.len() as int].id == x);
                        }
                    }
                    if has_id(next, x) {
                        let w = choose|w: int| 0 <= w < next.len() && #[trigger] next[w].id == x;
                        if w < prev.len() {
                            assert(next[w] == prev[w]);
                            assert(has_id(prev, x));
                            assert(before.contains(x));
                            let j = choose|j: int| 0 <= j < before.len() && before[j] == x;
                            assert(ids@[j] == x);
                        } else {
                            assert(ids@[before.len() as int] == x);
                        }
                    }
                }
            }
        }
        k = k + 1;
    }
    assert(vids@.take(vids@.len() as int) == vids@);
    ids.len()
}

/// Whether a poll of `account` that read `new_count` and fetched `fetched`
/// keeps its arithmetic within `i64` (`poll_fits`), so that `apply_poll` may
/// run.
pub fn poll_fits_check(seen: &SeenVideos, account: &Account, new_count: i64, fetched: &Vec<Video>) -> (r: bool)
    requires
        seen.wf(),
    ensures
        r == poll_fits(seen@, *account, new_count, fetched@),
        r ==> i64::MIN <= account.count - new_count <= i64::MAX,
        r && new_count < account.count ==> i64::MIN <= account.unavailable + (account.count
            - new_count) <= i64::MAX,
        r ==> i64::MIN <= new_count + account.unavailable + (if new_count < account.count {
            account.count - new_count
        } else {
            0
        }) <= i64::MAX,
{
    let ghost name = account.name@;
    proof {
        law_poll_keeps_seen_videos(seen@, *account, new_count, fetched@);
        law_vanished_videos_become_unavailable(*account, new_count);
    }
    let c = account.count as i128;
    let n = new_count as i128;
    let u0 = account.unavailable as i128;
    let drop = c - n;
    if drop < i64::MIN as i128 || drop > i64::MAX as i128 {
        return false;
    }
    let unavailable: i128 = if c > n {
        u0 + drop
    } else {
        u0
    };
    assert(unavailable == unavailable_after(*account, new_count));
    if unavailable < i64::MIN as i128 || unavailable > i64::MAX as i128 {
        return false;
    }
    let sum = n + unavailable;
    if sum < i64::MIN as i128 || sum > i64::MAX as i128 {
        return false;
    }
    let none: Vec<Video> = Vec::new();
    let existing: &Vec<Video> = match seen.find(account.name.as_str()) {
        Some(i) => seen.items(i),
        None => {
            assert(none@ == items_of(seen@, name));
            &none
        },
    };
    assert(existing@ == items_of(seen@, name));
    let total: usize = if c < n {
        let fresh = filter_unseen(existing, fetched);
        if fresh.len() > 0 {
            appended_len(existing, &fresh)
        } else {
            existing.len()
        }
    } else {
        existing.len()
    };
    assert(total == items_of(seen_after_poll(seen@, *account, new_count, fetched@), name).len());
    if total as i128 > i64::MAX as i128 {
        return false;
    }
    let rest = sum - total as i128;
    rest >= i64::MIN as i128 && rest <= i64::MAX as i128
}

/// A poll that reads a lower count `n` than the stored `c` counts exactly
/// `c - n` more videos as unavailable; any other count leaves the number of
/// unavailable videos as it was.
pub proof fn law_vanished_videos_become_unavailable(account: Account, new_count: i64)
    ensures
        new_count < account.count ==> unavailable_after(account, new_count) == account.unavailable
            + (account.count - new_count),
        new_count >= account.count ==> unavailable_after(account, new_count) == account.unavailable,
{
}

/// Where the stored books balance (count + unavailable - diff is the number
/// of seen videos), a drop in the count leaves the seen videos alone and
/// keeps the books balanced with the same diff: the vanished videos move to
/// the unavailable ones, and no negative diff arises from it.
pub proof fn law_drop_keeps_books_balanced(
    seen: Seq<(Seq<char>, Seq<Video>)>,
    account: Account,
    new_count: i64,
    fetched: Seq<Video>,
)
    requires
        new_count < account.count,
        account.count + account.unavailable - account.diff == items_of(seen, account.name@).len(),
    ensures
        seen_after_poll(seen, account, new_count, fetched) == seen,
        new_count + unavailable_after(account, new_count) - items_of(
            seen_after_poll(seen, account, new_count, fetched),
            account.name@,
        ).len() == account.diff,
{
}

} // verus!
