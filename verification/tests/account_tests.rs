use tiktok_archiver::account::{add_account, apply_poll, filter_unseen, load_tracked_accounts, poll_fits_check,
    reconcile_account_state, update_account_state, Account, AccountError, AccountState,
    CountEvent, ReconcileError};
use tiktok_archiver::buckets::Buckets;
use tiktok_archiver::config::{self, default_poll_accounts, general_check, is_tracked, Config, ConfigError};
use tiktok_archiver::seen::{append_videos, SeenVideos};
use tiktok_archiver::video::{video_url, Video};

fn vid(id: i64, user: &str) -> Video {
    Video::new(video_url(user, id), id, user.to_string())
}

fn config(accounts: &[&str]) -> Config {
    Config {
        accounts: accounts.iter().map(|s| s.to_string()).collect(),
        download_dir: "downloads".to_string(),
        download_fav: false,
        poll_accounts: default_poll_accounts(),
    }
}

#[test]
fn observe_counts() {
    assert_eq!(CountEvent::observe(5, 5), CountEvent::Same);
    assert_eq!(CountEvent::observe(5, 7), CountEvent::Increased);
    assert_eq!(CountEvent::observe(5, 2), CountEvent::Decreased);
}

#[test]
fn new_account_has_nothing_unavailable() {
    let a = Account::new("alice".to_string(), 10, 3);
    assert_eq!((a.count, a.diff, a.unavailable), (10, 3, 0));
}

#[test]
fn add_account_refuses_duplicates() {
    let mut accounts = vec![Account::new("a".to_string(), 1, 0)];
    assert_eq!(add_account(&mut accounts, &Account::new("b".to_string(), 2, 0)), Ok(()));
    assert_eq!(accounts.len(), 2);
    assert_eq!(
        add_account(&mut accounts, &Account::new("a".to_string(), 9, 9)),
        Err(AccountError::AlreadyExists)
    );
    assert_eq!(accounts.len(), 2);
    assert_eq!(accounts[0].count, 1);
}

#[test]
fn update_account_state_sets_matching_accounts() {
    let mut accounts = vec![Account::new("a".to_string(), 1, 0), Account::new("b".to_string(), 2, 0)];
    update_account_state(&mut accounts, &Account::new("b".to_string(), 0, 0), 20, 4, 1);
    assert_eq!((accounts[1].count, accounts[1].diff, accounts[1].unavailable), (20, 4, 1));
    assert_eq!((accounts[0].count, accounts[0].diff, accounts[0].unavailable), (1, 0, 0));
}

#[test]
fn tracked_entries_and_accounts() {
    assert!(is_tracked("alice"));
    assert!(!is_tracked("alice:false"));
    assert!(!is_tracked("  bob:false \t"));
    assert!(is_tracked("bob:False"));
    let cfg = config(&["a", "b:false", "c"]);
    assert_eq!(config::load_tracked_accounts(&cfg), vec!["a".to_string(), "c".to_string()]);
    let accounts = vec![
        Account::new("c".to_string(), 1, 0),
        Account::new("b".to_string(), 1, 0),
        Account::new("a".to_string(), 1, 0),
        Account::new("d".to_string(), 1, 0),
    ];
    let names: Vec<String> = load_tracked_accounts(accounts, &cfg).into_iter().map(|a| a.name).collect();
    assert_eq!(names, vec!["c".to_string(), "a".to_string()]);
}

#[test]
fn general_check_needs_an_account() {
    assert_eq!(general_check(&config(&[" ", ""])), Err(ConfigError::NoAccounts));
    assert_eq!(general_check(&config(&[])), Err(ConfigError::NoAccounts));
    assert_eq!(general_check(&config(&["", "x"])), Ok(()));
}

#[test]
fn reconcile_formula_and_negative_diff() {
    assert_eq!(
        reconcile_account_state(10, 2, 7),
        Ok(AccountState { count: 10, diff: 5, unavailable: 2 })
    );
    assert_eq!(reconcile_account_state(3, 0, 4), Err(ReconcileError::NegativeDiff));
    let s = reconcile_account_state(100, 7, 40).unwrap();
    assert_eq!(s.count + s.unavailable - s.diff, 40);
}

#[test]
fn filter_unseen_keeps_new_ids() {
    let existing = vec![vid(1, "a")];
    let fresh = filter_unseen(&existing, &vec![vid(1, "a"), vid(2, "a"), vid(2, "a")]);
    assert_eq!(fresh.iter().map(|v| v.id).collect::<Vec<_>>(), vec![2, 2]);
}

#[test]
fn poll_increase_appends_and_reconciles() {
    let mut seen: SeenVideos = Buckets::new();
    append_videos(&mut seen, "a", &vec![vid(1, "a")]);
    let account = Account { name: "a".to_string(), count: 1, diff: 0, unavailable: 0 };
    let out = apply_poll(&mut seen, &account, 3, &vec![vid(3, "a"), vid(2, "a"), vid(1, "a")]).unwrap();
    assert_eq!(out.added, 2);
    assert_eq!(out.state, AccountState { count: 3, diff: 0, unavailable: 0 });
    assert_eq!(seen.items(0).len(), 3);
}

#[test]
fn poll_decrease_counts_unavailable() {
    let mut seen: SeenVideos = Buckets::new();
    append_videos(&mut seen, "a", &vec![vid(1, "a"), vid(2, "a"), vid(3, "a")]);
    let account = Account { name: "a".to_string(), count: 3, diff: 0, unavailable: 1 };
    let out = apply_poll(&mut seen, &account, 2, &vec![vid(9, "a")]).unwrap();
    assert_eq!(out.added, 0);
    assert_eq!(out.state, AccountState { count: 2, diff: 1, unavailable: 2 });
    assert_eq!(seen.items(0).len(), 3);
}

#[test]
fn poll_same_count_with_unseen_diff() {
    let mut seen: SeenVideos = Buckets::new();
    let account = Account { name: "new".to_string(), count: 4, diff: 4, unavailable: 0 };
    let out = apply_poll(&mut seen, &account, 4, &vec![]).unwrap();
    assert_eq!(out.state, AccountState { count: 4, diff: 4, unavailable: 0 });
    assert_eq!(seen.len(), 0);
}

#[test]
fn poll_with_more_seen_than_counted_is_critical() {
    let mut seen: SeenVideos = Buckets::new();
    append_videos(&mut seen, "a", &vec![vid(1, "a"), vid(2, "a")]);
    let account = Account { name: "a".to_string(), count: 1, diff: 0, unavailable: 0 };
    assert_eq!(apply_poll(&mut seen, &account, 1, &vec![]), Err(ReconcileError::NegativeDiff));
}

#[test]
fn poll_keeps_every_seen_video() {
    let mut seen: SeenVideos = Buckets::new();
    append_videos(&mut seen, "b", &vec![vid(7, "b"), vid(8, "b")]);
    append_videos(&mut seen, "a", &vec![vid(1, "a"), vid(2, "a")]);
    let account = Account { name: "a".to_string(), count: 2, diff: 0, unavailable: 0 };
    let out = apply_poll(&mut seen, &account, 4, &vec![vid(4, "a"), vid(2, "a"), vid(3, "a")]).unwrap();
    assert_eq!(out.added, 2);
    assert_eq!(seen.user(0), "b");
    assert_eq!(seen.items(0).iter().map(|v| v.id).collect::<Vec<_>>(), vec![7, 8]);
    assert_eq!(seen.user(1), "a");
    assert_eq!(seen.items(1).iter().map(|v| v.id).collect::<Vec<_>>(), vec![1, 2, 4, 3]);
}

#[test]
fn poll_fits_check_matches_the_arithmetic() {
    let mut seen: SeenVideos = Buckets::new();
    append_videos(&mut seen, "a", &vec![vid(1, "a")]);
    let account = Account { name: "a".to_string(), count: 1, diff: 0, unavailable: 0 };
    assert!(poll_fits_check(&seen, &account, 3, &vec![vid(3, "a"), vid(3, "a"), vid(1, "a")]));
    let low = Account { name: "a".to_string(), count: i64::MIN, diff: 0, unavailable: 0 };
    assert!(!poll_fits_check(&seen, &low, 1, &vec![]));
    let lost = Account { name: "a".to_string(), count: 5, diff: 0, unavailable: i64::MAX };
    assert!(!poll_fits_check(&seen, &lost, 4, &vec![]));
    let big = Account { name: "a".to_string(), count: 0, diff: 0, unavailable: i64::MAX };
    assert!(!poll_fits_check(&seen, &big, 1, &vec![]));
    assert!(poll_fits_check(&seen, &big, 0, &vec![]));
}
