use tiktok_archiver::cookies::{load_cookie_params, same_site_label, saved_cookie, CookieSpec, Expiry, JsonField, RawCookie, SameSite, SavedCookie};
use tiktok_archiver::dates::{format_download_date, format_log_time, format_seen_video_date, parse_download_date};
use tiktok_archiver::seen::seen_needs_save;
use tiktok_archiver::video::DownloadDate;
use tiktok_archiver::api::{count_from_matches, videos_from_captures, CountError, LinkError};
use tiktok_archiver::dates::{download_date_kind, seen_video_date_kind, StoredDateKind};
use tiktok_archiver::critical::{critical_poll_action, CriticalPollAction};
use tiktok_archiver::discover::{fav_scroll_budget, next_scroll};
use tiktok_archiver::download::{fav_file_step, FavFileStep};
use tiktok_archiver::state::{needs_default_contents, EMPTY_COOKIES_JSON, EMPTY_LIST_JSON, EMPTY_OBJECT_JSON};

#[test]
fn next_scroll_stops_on_a_pass_with_nothing_new() {
    assert_eq!(next_scroll(1, 0), None);
    assert_eq!(next_scroll(7, 0), None);
}

#[test]
fn next_scroll_follows_the_schedule() {
    assert_eq!(next_scroll(1, 4), Some(3));
    assert_eq!(next_scroll(2, 1), Some(12));
    assert_eq!(next_scroll(3, 9), Some(30));
    assert_eq!(next_scroll(4, 2), Some(90));
    assert_eq!(next_scroll(5, 2), Some(270));
    assert_eq!(next_scroll(6, 2), Some(800));
    assert_eq!(next_scroll(40, 1), Some(fav_scroll_budget(40)));
}

#[test]
fn fav_file_step_covers_each_case() {
    assert_eq!(fav_file_step(false, false), FavFileStep::Pending);
    assert_eq!(fav_file_step(false, true), FavFileStep::Pending);
    assert_eq!(fav_file_step(true, true), FavFileStep::Mark);
    assert_eq!(fav_file_step(true, false), FavFileStep::LinkAndMark);
}

#[test]
fn state_files_get_defaults_only_when_missing_or_empty() {
    assert!(needs_default_contents(false, 0));
    assert!(needs_default_contents(true, 0));
    assert!(!needs_default_contents(true, 12));
    assert_eq!(EMPTY_COOKIES_JSON, "{\n  \"cookies\": []\n}\n");
    assert_eq!(EMPTY_OBJECT_JSON, "{}\n");
    assert_eq!(EMPTY_LIST_JSON, "[]\n");
}

#[test]
fn sustained_failure_alerts_only_after_a_failed_recovery() {
    assert_eq!(critical_poll_action(false), CriticalPollAction::RecoverAndRestart);
    assert_eq!(critical_poll_action(true), CriticalPollAction::AlertAndExit);
}

#[test]
fn stored_videos_default_to_available() {
    assert!(tiktok_archiver::video::default_source_available());
}

#[test]
fn stored_dates_are_read_by_their_shape() {
    assert_eq!(download_date_kind("2024-01-31"), StoredDateKind::BareDate);
    assert_eq!(download_date_kind("2024-01-31T21:05:07"), StoredDateKind::IsoDateTime);
    assert_eq!(download_date_kind("2024-01-31 09:05:07 PM"), StoredDateKind::DownloadDateTime);
    assert_eq!(seen_video_date_kind("2024-01-31"), StoredDateKind::BareDate);
    assert_eq!(seen_video_date_kind("2024-01-31 09:05:07 PM"), StoredDateKind::IsoDateTime);
}

#[test]
fn count_prefers_the_rehydration_json() {
    assert_eq!(count_from_matches(Some(5), Some("7".to_string())), Ok(5));
    assert_eq!(count_from_matches(None, Some("42".to_string())), Ok(42));
    assert_eq!(count_from_matches(None, Some("99999999999999999999".to_string())), Err(CountError::NotFound));
    assert_eq!(count_from_matches(None, None), Err(CountError::NotFound));
}

fn cap(groups: &[Option<&str>]) -> Vec<Option<String>> {
    groups.iter().map(|g| g.map(|x| x.to_string())).collect()
}

#[test]
fn link_matches_become_videos() {
    let caps = vec![
        cap(&[Some("/@a/video/12"), Some("a"), Some("12")]),
        cap(&[Some("/@x/video/7511413375285447958"), Some("x"), Some("7511413375285447958")]),
        cap(&[Some("/@b.c/video/13"), Some("b.c"), Some("13")]),
    ];
    let vs = videos_from_captures(&caps).unwrap();
    assert_eq!(vs.len(), 2);
    assert_eq!(vs[0].id, 12);
    assert_eq!(vs[0].username, "a");
    assert_eq!(vs[0].url, "https://www.tiktok.com/@a/video/12");
    assert_eq!(vs[1].id, 13);
    assert_eq!(vs[1].username, "b.c");
    let missing = vec![cap(&[Some("/@a/video/1"), Some("a")])];
    assert_eq!(videos_from_captures(&missing).unwrap_err(), LinkError::MissingId);
    let bad = vec![
        cap(&[Some("/@a/video/1"), Some("a"), Some("1")]),
        cap(&[Some("/@a/video/9"), Some("a"), Some("99999999999999999999")]),
    ];
    assert_eq!(videos_from_captures(&bad).unwrap_err(), LinkError::BadId);
}

fn expiry(t: f64) -> Expiry {
    Expiry { bits: t.to_bits(), positive: t > 0.0, whole_seconds: t as i64 }
}

fn opt_str(o: &Option<String>) -> JsonField {
    match o {
        Some(s) => JsonField::Str(s.clone()),
        None => JsonField::Other,
    }
}

fn opt_bool(o: Option<bool>) -> JsonField {
    match o {
        Some(b) => JsonField::Bool(b),
        None => JsonField::Other,
    }
}

/// What reading the JSON object written for `s` back gives.
fn read_back(s: &SavedCookie) -> RawCookie {
    RawCookie {
        domain: opt_str(&s.domain),
        url: JsonField::Missing,
        name: JsonField::Str(s.name.clone()),
        value: JsonField::Str(s.value.clone()),
        path: opt_str(&s.path),
        secure: opt_bool(s.secure),
        http_only: opt_bool(s.http_only),
        http_only_alt: JsonField::Missing,
        same_site: match s.same_site {
            Some(x) => JsonField::Str(same_site_label(x).to_string()),
            None => JsonField::Missing,
        },
        same_site_alt: JsonField::Missing,
        expires: Some(expiry(s.expires as f64)),
    }
}

fn spec(name: &str, same_site: Option<SameSite>, expires: Option<f64>) -> CookieSpec {
    CookieSpec {
        name: name.to_string(),
        value: format!("v-{name}"),
        url: Some("https://www.tiktok.com".to_string()),
        domain: Some(".tiktok.com".to_string()),
        path: Some("/".to_string()),
        secure: Some(true),
        http_only: None,
        same_site,
        expires: expires.map(expiry),
    }
}

#[test]
fn saved_cookies_load_back() {
    let cs = vec![
        spec("sessionid", Some(SameSite::Unrestricted), Some(1_800_000_000.75)),
        spec("tt_csrf", Some(SameSite::Lax), Some(0.5)),
        spec("sid_tt", None, None),
        spec("uid_tt", Some(SameSite::Strict), Some(-3.0)),
    ];
    let raw: Vec<RawCookie> = cs.iter().map(|c| read_back(&saved_cookie(c))).collect();
    let ps = load_cookie_params(&raw);
    assert_eq!(ps.len(), cs.len());
    for (p, c) in ps.iter().zip(cs.iter()) {
        assert_eq!(p.name, c.name);
        assert_eq!(p.value, c.value);
        assert_eq!(p.url, None);
        assert_eq!(p.domain, c.domain);
        assert_eq!(p.path, c.path);
        assert_eq!(p.secure, c.secure);
        assert_eq!(p.http_only, c.http_only);
        assert_eq!(p.same_site, c.same_site);
    }
    assert_eq!(ps[0].expires.map(|e| e.whole_seconds), Some(1_800_000_000));
    assert_eq!(ps[1].expires, None);
    assert_eq!(ps[2].expires, None);
    assert_eq!(ps[3].expires, None);
}

#[test]
fn download_dates_round_trip_without_fractions() {
    let d = DownloadDate { year: 2024, month: 7, day: 4, hour: 0, minute: 3, second: 9, nanosecond: 123_456_789 };
    let text = format_download_date(d).unwrap();
    assert_eq!(text, "2024-07-04 12:03:09 AM");
    assert_eq!(parse_download_date(&text), Ok(DownloadDate { nanosecond: 0, ..d }));
    let early = DownloadDate { year: 42, month: 12, day: 31, hour: 12, minute: 0, second: 0, nanosecond: 0 };
    let text = format_download_date(early).unwrap();
    assert_eq!(text, "0042-12-31 12:00:00 PM");
    assert_eq!(parse_download_date(&text), Ok(early));
    let far = DownloadDate { year: 12345, month: 1, day: 2, hour: 23, minute: 59, second: 59, nanosecond: 0 };
    let text = format_download_date(far).unwrap();
    assert_eq!(text, "+12345-01-02 11:59:59 PM");
    assert_eq!(parse_download_date(&text), Ok(far));
    let bc = DownloadDate { year: -7, ..far };
    let text = format_download_date(bc).unwrap();
    assert_eq!(text, "-0007-01-02 11:59:59 PM");
    assert_eq!(parse_download_date(&text), Ok(bc));
}

#[test]
fn seen_database_is_saved_when_changed_or_relaid() {
    assert!(seen_needs_save(true, false, None));
    assert!(!seen_needs_save(false, false, None));
    assert!(seen_needs_save(false, false, Some(false)));
    assert!(!seen_needs_save(false, false, Some(true)));
    assert!(seen_needs_save(false, true, Some(true)));
    assert!(!seen_needs_save(false, true, Some(false)));
}

#[test]
fn iso_and_log_texts() {
    let d = DownloadDate { year: 7, month: 3, day: 9, hour: 13, minute: 5, second: 1, nanosecond: 0 };
    assert_eq!(format_seen_video_date(d).unwrap(), "0007-03-09T13:05:01");
    assert_eq!(format_log_time(d).unwrap(), "0007-03-09 01:05:01 PM");
    assert_eq!(format_log_time(DownloadDate { nanosecond: 120_000_000, ..d }).unwrap(), "0007-03-09 01:05:01.120 PM");
    assert_eq!(format_log_time(DownloadDate { nanosecond: 45_000, ..d }).unwrap(), "0007-03-09 01:05:01.000045 PM");
    assert_eq!(format_log_time(DownloadDate { nanosecond: 7, ..d }).unwrap(), "0007-03-09 01:05:01.000000007 PM");
}
