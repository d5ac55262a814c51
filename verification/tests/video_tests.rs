use tiktok_archiver::buckets::Buckets;
use tiktok_archiver::seen::{append_videos, mark_downloaded_at, mark_id_downloaded, pending_ids,
    pending_queue, positions_of_id, push_videos, record_failure_at, FailureRecordError,
    SeenVideos, FAVORITE_BUCKET};
use tiktok_archiver::video::{video_url, DownloadDate, DownloadStatus, Video};

fn vid(id: i64, user: &str) -> Video {
    Video::new(video_url(user, id), id, user.to_string())
}

fn date() -> DownloadDate {
    DownloadDate { year: 2024, month: 1, day: 31, hour: 21, minute: 5, second: 7, nanosecond: 0 }
}

#[test]
fn new_video_is_pending() {
    let v = Video::new("u".to_string(), 7, "alice".to_string());
    assert!(v.is_pending());
    assert_eq!(v.download_status, DownloadStatus::NotDownloaded);
    assert!(v.source_available);
    assert!(!v.is_fav);
    assert_eq!(v.download_date, None);
}

#[test]
fn video_url_is_canonical() {
    assert_eq!(video_url("alice", 123), "https://www.tiktok.com/@alice/video/123");
    assert_eq!(video_url("a.b", -5), "https://www.tiktok.com/@a.b/video/-5");
}

#[test]
fn five_failures_pause_a_video() {
    let mut v = vid(1, "alice");
    for n in 1..=4u8 {
        assert!(!v.download_failed());
        assert_eq!(v.download_status, DownloadStatus::DownloadFailed(n));
        assert!(v.is_pending());
        assert!(v.source_available);
    }
    assert!(v.download_failed());
    assert_eq!(v.download_status, DownloadStatus::DownloadFailed(5));
    assert!(!v.source_available);
    assert!(!v.is_pending());
}

#[test]
fn downloaded_video_is_not_pending() {
    let mut v = vid(1, "alice");
    v.mark_downloaded(date());
    assert_eq!(v.download_status, DownloadStatus::Downloaded);
    assert_eq!(v.download_date, Some(date()));
    assert!(!v.is_pending());
}

#[test]
fn failed_but_unavailable_video_is_not_pending() {
    let mut v = vid(1, "alice");
    v.source_available = false;
    assert!(!v.is_pending());
    v.download_status = DownloadStatus::DownloadFailed(4);
    assert!(!v.is_pending());
    v.source_available = true;
    assert!(v.is_pending());
}

#[test]
fn folder_and_file_name() {
    let mut v = vid(42, "bob");
    assert_eq!(v.folder(), "bob");
    assert_eq!(v.file_name(), "42.mp4");
    v.is_fav = true;
    assert_eq!(v.folder(), "favs");
}

#[test]
fn append_videos_skips_known_ids() {
    let mut db: SeenVideos = Buckets::new();
    let added = append_videos(&mut db, "alice", &vec![vid(1, "alice"), vid(2, "alice"), vid(1, "alice")]);
    assert_eq!(added, 2);
    assert_eq!(db.len(), 1);
    assert_eq!(db.user(0), "alice");
    assert_eq!(db.items(0).iter().map(|v| v.id).collect::<Vec<_>>(), vec![1, 2]);
    let again = append_videos(&mut db, "alice", &vec![vid(2, "alice"), vid(3, "alice")]);
    assert_eq!(again, 1);
    assert_eq!(db.items(0).iter().map(|v| v.id).collect::<Vec<_>>(), vec![1, 2, 3]);
}

#[test]
fn append_same_videos_twice_adds_nothing() {
    let mut db: SeenVideos = Buckets::new();
    let vids = vec![vid(5, "x"), vid(6, "x")];
    assert_eq!(append_videos(&mut db, "x", &vids), 2);
    assert_eq!(append_videos(&mut db, "x", &vids), 0);
    assert_eq!(db.items(0).len(), 2);
}

#[test]
fn append_creates_entry_even_for_no_videos() {
    let mut db: SeenVideos = Buckets::new();
    assert_eq!(append_videos(&mut db, "alice", &vec![]), 0);
    assert_eq!(db.len(), 1);
    assert_eq!(db.items(0).len(), 0);
    assert_eq!(db.find("alice"), Some(0));
    assert_eq!(db.find("bob"), None);
}

#[test]
fn push_videos_appends_all() {
    let mut db: SeenVideos = Buckets::new();
    push_videos(&mut db, FAVORITE_BUCKET, &vec![vid(1, "a"), vid(1, "a")]);
    assert_eq!(db.user(0), "favorite");
    assert_eq!(db.items(0).len(), 2);
}

#[test]
fn pending_queue_and_ids() {
    let mut db: SeenVideos = Buckets::new();
    append_videos(&mut db, "a", &vec![vid(1, "a"), vid(2, "a")]);
    append_videos(&mut db, "b", &vec![vid(2, "b"), vid(3, "b")]);
    mark_downloaded_at(&mut db, 0, 0, date());
    assert_eq!(pending_queue(&db), vec![(0, 1), (1, 0), (1, 1)]);
    assert_eq!(pending_ids(&db), vec![2, 3]);
    assert_eq!(positions_of_id(&db, 2), vec![(0, 1), (1, 0)]);
}

#[test]
fn record_failure_counts_and_refuses_downloaded() {
    let mut db: SeenVideos = Buckets::new();
    append_videos(&mut db, "a", &vec![vid(1, "a")]);
    for _ in 0..4 {
        assert_eq!(record_failure_at(&mut db, 0, 0), Ok(false));
    }
    assert_eq!(record_failure_at(&mut db, 0, 0), Ok(true));
    assert!(!db.items(0)[0].is_pending());
    mark_downloaded_at(&mut db, 0, 0, date());
    assert_eq!(record_failure_at(&mut db, 0, 0), Err(FailureRecordError::AlreadyDownloaded));
}

#[test]
fn record_failure_refuses_a_full_counter() {
    let mut db: SeenVideos = Buckets::new();
    let mut v = vid(1, "a");
    v.download_status = DownloadStatus::DownloadFailed(255);
    push_videos(&mut db, "a", &vec![v]);
    assert_eq!(record_failure_at(&mut db, 0, 0), Err(FailureRecordError::CounterFull));
}

#[test]
fn mark_id_downloaded_marks_first_match() {
    let mut db: SeenVideos = Buckets::new();
    push_videos(&mut db, "favorite", &vec![vid(9, "a"), vid(9, "a")]);
    assert!(mark_id_downloaded(&mut db, "favorite", 9, date()));
    assert_eq!(db.items(0)[0].download_status, DownloadStatus::Downloaded);
    assert_eq!(db.items(0)[1].download_status, DownloadStatus::NotDownloaded);
    assert!(!mark_id_downloaded(&mut db, "favorite", 10, date()));
    assert!(!mark_id_downloaded(&mut db, "nobody", 9, date()));
}

#[test]
fn insert_bucket_replaces() {
    let mut db: SeenVideos = Buckets::new();
    db.insert_bucket("a", vec![vid(1, "a")]);
    db.insert_bucket("b", vec![]);
    db.insert_bucket("a", vec![vid(2, "a"), vid(3, "a")]);
    assert_eq!(db.len(), 2);
    assert_eq!(db.items(0).len(), 2);
}
