use tiktok_archiver::browser::{is_headless, should_scroll};
use tiktok_archiver::buckets::Buckets;
use tiktok_archiver::cookies::{build_cookie_param, check_injection, cookie_header,
    cookie_params_have_session, cookie_params_to_netscape_cookies_txt, cookie_to_param,
    has_session_cookie, is_tiktok_cookie_entry, load_cookie_params, normalize_cookie_domain,
    parse_expires, saved_expires, same_site_label, to_injection_param, BrowserCookie, CookieSpec,
    Expiry, InjectionError, JsonField, RawCookie, SameSite};
use tiktok_archiver::critical::{alert_critical_failure, alert_download_unavailable, alerts_disabled,
    parse_pid_lines, truncate};
use tiktok_archiver::dates::{format_download_date, format_log_time, format_seen_video_date,
    parse_download_date, parse_seen_video_date, DateError};
use tiktok_archiver::download::{download_action, propagation_step, yt_dlp_args, DownloadAction,
    PropagationStep};
use tiktok_archiver::logger::{console_stream, dev_mode_enabled, level_log_file, ConsoleStream, Log,
    LogLevel};
use tiktok_archiver::poll_health::{maybe_critical_fail_on_poll_error, record_poll_failure,
    record_poll_success, LocalStamp, PollHealth};
use tiktok_archiver::run::{parse_run_mode, RunMode};
use tiktok_archiver::seen_video::{append_seen_videos, total_seen_videos, update_download_status,
    DownloadStatus as SeenStatus, SeenVideo, SeenVideoMap};
use tiktok_archiver::video::DownloadDate;

fn expiry(secs: f64) -> Expiry {
    Expiry { bits: secs.to_bits(), positive: secs > 0.0, whole_seconds: secs as i64 }
}

fn s(x: &str) -> JsonField {
    JsonField::Str(x.to_string())
}

fn raw(domain: JsonField, name: JsonField, value: JsonField) -> RawCookie {
    RawCookie {
        domain,
        url: JsonField::Missing,
        name,
        value,
        path: JsonField::Missing,
        secure: JsonField::Missing,
        http_only: JsonField::Missing,
        http_only_alt: JsonField::Missing,
        same_site: JsonField::Missing,
        same_site_alt: JsonField::Missing,
        expires: None,
    }
}

fn stamp() -> LocalStamp {
    LocalStamp { secs: 1_700_000_000, nanos: 0, offset_secs: 3600 }
}

fn date() -> DownloadDate {
    DownloadDate { year: 2024, month: 1, day: 31, hour: 21, minute: 5, second: 7, nanosecond: 0 }
}

#[test]
fn normalizes_cookie_domains() {
    assert_eq!(normalize_cookie_domain(" tiktok.com "), Some(".tiktok.com".to_string()));
    assert_eq!(normalize_cookie_domain(".tiktok.com"), Some(".tiktok.com".to_string()));
    assert_eq!(normalize_cookie_domain("  "), None);
}

#[test]
fn loads_only_tiktok_cookies_with_name_and_value() {
    let mut full = raw(s("www.tiktok.com"), s("sessionid"), s("abc"));
    full.path = s("/x");
    full.secure = JsonField::Bool(true);
    full.http_only = JsonField::Other;
    full.http_only_alt = JsonField::Bool(true);
    full.same_site_alt = s("Lax");
    full.expires = Some(expiry(1.5e9));
    let mut by_url = raw(JsonField::Missing, s("n"), s("v"));
    by_url.url = s("https://www.tiktok.com/");
    by_url.expires = Some(expiry(-1.0));
    let entries = vec![
        full,
        raw(s("example.com"), s("a"), s("b")),
        raw(s("tiktok.com"), JsonField::Bool(true), s("b")),
        by_url,
    ];
    assert!(is_tiktok_cookie_entry(&entries[0]));
    assert!(!is_tiktok_cookie_entry(&entries[1]));
    let params = load_cookie_params(&entries);
    assert_eq!(params.len(), 2);
    let p = &params[0];
    assert_eq!((p.name.as_str(), p.value.as_str()), ("sessionid", "abc"));
    assert_eq!(p.domain.as_deref(), Some(".www.tiktok.com"));
    assert_eq!(p.path.as_deref(), Some("/x"));
    assert_eq!(p.url, None);
    assert_eq!(p.secure, Some(true));
    assert_eq!(p.http_only, None);
    assert_eq!(p.same_site, Some(SameSite::Lax));
    assert_eq!(p.expires, Some(expiry(1.5e9)));
    let q = &params[1];
    assert_eq!(q.domain, None);
    assert_eq!(q.path.as_deref(), Some("/"));
    assert_eq!(q.expires, None);
    assert!(cookie_params_have_session(&params));
    assert!(!cookie_params_have_session(&params[1..].iter().map(|c| clone_spec(c)).collect()));
}

fn clone_spec(c: &CookieSpec) -> CookieSpec {
    build_cookie_param(c.name.clone(), c.value.clone(), c.domain.clone(), c.path.clone(), c.secure,
        c.http_only, c.same_site, c.expires)
}

#[test]
fn injection_param_binds_to_url() {
    let p = build_cookie_param("n".into(), "v".into(), Some(".tiktok.com".into()), None, Some(false),
        None, Some(SameSite::Unrestricted), None);
    let q = to_injection_param(p, "https://www.tiktok.com");
    assert_eq!(q.url.as_deref(), Some("https://www.tiktok.com"));
    assert_eq!(q.domain, None);
    assert_eq!(q.path.as_deref(), Some("/"));
    assert_eq!(q.secure, Some(true));
    let r = to_injection_param(build_cookie_param("n".into(), "v".into(), None, None, Some(false),
        None, Some(SameSite::Lax), None), "u");
    assert_eq!(r.secure, Some(false));
}

#[test]
fn browser_cookies_to_saved() {
    let mk = |domain: &str, exp: f64| BrowserCookie {
        name: "sid_tt".into(),
        value: "1".into(),
        domain: domain.into(),
        path: "/".into(),
        secure: true,
        http_only: false,
        same_site: None,
        expires_bits: f64::to_bits(exp),
    };
    let out = cookie_to_param(vec![mk("tiktok.com", 10.0), mk(".google.com", 1.0), mk(".tiktok.com", 0.0)]);
    assert_eq!(out.len(), 2);
    assert_eq!(out[0].domain.as_deref(), Some(".tiktok.com"));
    assert_eq!(out[0].expires, Some(expiry(10.0)));
    assert_eq!(out[1].expires, None);
    assert_eq!(out[0].http_only, Some(false));
}

#[test]
fn cookie_header_and_netscape_file() {
    let a = build_cookie_param("a".into(), "1".into(), Some(".tiktok.com".into()), None, Some(true),
        None, None, Some(expiry(1700000000.9)));
    let b = build_cookie_param("b".into(), "2".into(), Some("www.tiktok.com".into()),
        Some("/p".into()), None, None, None, Some(expiry(-3.0)));
    let params = vec![a, b];
    assert_eq!(cookie_header(&params), "a=1; b=2");
    assert_eq!(cookie_header(&vec![]), "");
    assert_eq!(
        cookie_params_to_netscape_cookies_txt(&params),
        "# Netscape HTTP Cookie File\n# https://curl.se/docs/http-cookies.html\n.tiktok.com\tTRUE\t/\tTRUE\t1700000000\ta\t1\nwww.tiktok.com\tFALSE\t/p\tFALSE\t0\tb\t2\n"
    );
    assert_eq!(
        cookie_params_to_netscape_cookies_txt(&vec![]),
        "# Netscape HTTP Cookie File\n# https://curl.se/docs/http-cookies.html\n"
    );
}

#[test]
fn saved_cookie_fields() {
    assert_eq!(saved_expires(None), -1);
    assert_eq!(saved_expires(Some(expiry(0.0))), -1);
    assert_eq!(saved_expires(Some(expiry(12.7))), 12);
    assert_eq!(same_site_label(SameSite::Unrestricted), "None");
    assert_eq!(parse_expires(Some(expiry(-0.5))), None);
}

#[test]
fn injection_check() {
    let names = |v: &[&str]| v.iter().map(|x| x.to_string()).collect::<Vec<_>>();
    assert_eq!(check_injection(&names(&["a", "sid_tt"]), &names(&["x", "sid_tt", "a"])), Ok(2));
    assert_eq!(check_injection(&names(&["a"]), &names(&["x"])), Err(InjectionError::NoneApplied));
    assert_eq!(check_injection(&names(&["a"]), &names(&["a"])), Err(InjectionError::MissingSession));
    assert!(has_session_cookie(&names(&["tt_session_tlb_tag"])));
    assert!(!has_session_cookie(&names(&["sid"])));
}

#[test]
fn poll_failures_become_critical_at_five() {
    let mut h = PollHealth::default();
    for n in 1..=4u64 {
        assert_eq!(record_poll_failure(&mut h, "boom", stamp()), None);
        assert_eq!(h.consecutive_failures, n);
    }
    assert_eq!(h.streak_started_at, Some(stamp()));
    let m = maybe_critical_fail_on_poll_error(&mut h, "boom", stamp()).unwrap();
    assert_eq!(
        m,
        "Every poll cycle has failed 5 times in a row (threshold is 5). Last error:\nboom\n\nSee state/error.log \u{2014} fix the issue and restart."
    );
    record_poll_success(&mut h);
    assert_eq!(h.consecutive_failures, 0);
    assert_eq!(h.last_error, None);
    assert_eq!(h.streak_started_at, None);
}

#[test]
fn poll_failure_keeps_2000_chars_of_error() {
    let mut h = PollHealth::default();
    let long = "x".repeat(2500);
    record_poll_failure(&mut h, &long, stamp());
    assert_eq!(h.last_error.as_ref().map(|e| e.chars().count()), Some(2000));
}

#[test]
fn alert_text_and_silencing() {
    assert_eq!(truncate("short"), "short");
    let long = "é".repeat(3600);
    let t = truncate(&long);
    assert_eq!(t.chars().count(), 3501);
    assert!(t.ends_with('\u{2026}'));
    assert!(alerts_disabled(Some("TRUE")));
    assert!(alerts_disabled(Some("Yes")));
    assert!(alerts_disabled(Some("1")));
    assert!(!alerts_disabled(Some("0")));
    assert!(!alerts_disabled(None));
    assert!(alert_critical_failure("m", Some("yes")).is_none());
    let a = alert_download_unavailable("m", None).unwrap();
    assert_eq!((a.title.as_str(), a.body.as_str()), ("Tiktok-Archiver", "m"));
}

#[test]
fn parses_pid_listing() {
    assert_eq!(parse_pid_lines("12\r\n 34 \nabc\n\n56"), vec![12, 34, 56]);
    assert_eq!(parse_pid_lines(""), Vec::<u32>::new());
    assert_eq!(parse_pid_lines("7\n"), vec![7]);
}

#[test]
fn download_dates_round_trip() {
    let text = format_download_date(date()).unwrap();
    assert_eq!(text, "2024-01-31 09:05:07 PM");
    assert_eq!(parse_download_date(&text), Ok(date()));
    assert_eq!(
        parse_download_date("2024-01-31"),
        Ok(DownloadDate { year: 2024, month: 1, day: 31, hour: 0, minute: 0, second: 0, nanosecond: 0 })
    );
    assert_eq!(parse_download_date("2024-01-31T21:05:07"), Ok(date()));
    assert_eq!(parse_download_date("yesterday"), Err(DateError::Invalid));
    assert_eq!(format_seen_video_date(date()).unwrap(), "2024-01-31T21:05:07");
    assert_eq!(parse_seen_video_date("2024-01-31T21:05:07"), Ok(date()));
    assert_eq!(format_download_date(DownloadDate { month: 13, ..date() }), None);
    assert_eq!(format_log_time(date()).unwrap(), "2024-01-31 09:05:07 PM");
}

#[test]
fn log_routing_and_lines() {
    assert_eq!(level_log_file(LogLevel::Dev), Some("diagnostic.log"));
    assert_eq!(level_log_file(LogLevel::Console), None);
    assert_eq!(console_stream(LogLevel::Info, false), Some(ConsoleStream::Stdout));
    assert_eq!(console_stream(LogLevel::Dev, false), None);
    assert_eq!(console_stream(LogLevel::Dev, true), Some(ConsoleStream::Stderr));
    assert_eq!(console_stream(LogLevel::Error, false), Some(ConsoleStream::Stderr));
    assert!(!dev_mode_enabled(None));
    let log = Log::new("hi".to_string(), LogLevel::Error, date());
    assert_eq!(log.console_line().unwrap(), "[Error](2024-01-31 09:05:07 PM): hi");
    assert_eq!(log.file_line().unwrap(), "[2024-01-31 09:05:07 PM]: hi");
}

#[test]
fn seen_video_record() {
    let mut map: SeenVideoMap = Buckets::new();
    let v = |id| SeenVideo::new(format!("u{id}"), id, "a".into(), SeenStatus::NotDownloaded, true);
    append_seen_videos(&mut map, "a", &vec![v(1), v(2), v(1)]);
    append_seen_videos(&mut map, "b", &vec![]);
    assert_eq!(total_seen_videos(&map), vec![("a".to_string(), 2), ("b".to_string(), 0)]);
    update_download_status(&mut map, "a", 2, SeenStatus::Downloaded, date());
    assert_eq!(map.items(0)[1].download_status, SeenStatus::Downloaded);
    assert_eq!(map.items(0)[1].download_date, Some(date()));
    update_download_status(&mut map, "a", 2, SeenStatus::DownloadFailed, date());
    assert_eq!(map.items(0)[1].download_date, Some(date()));
    update_download_status(&mut map, "a", 2, SeenStatus::NotDownloaded, date());
    assert_eq!(map.items(0)[1].download_date, None);
}

#[test]
fn downloader_arguments() {
    let with = yt_dlp_args("d/a/1.mp4", "https://x", Some("jar.txt"));
    assert_eq!(
        with,
        vec!["-o", "d/a/1.mp4", "--merge-output-format", "mp4", "--extractor-retries", "5",
            "--retry-sleep", "extractor:exp=1:8", "--sleep-requests", "1", "--no-warnings",
            "--cookies", "jar.txt", "https://x"]
    );
    assert_eq!(yt_dlp_args("o", "u", None).len(), 12);
}

#[test]
fn download_choices() {
    assert_eq!(download_action(true, Some("x".into())), DownloadAction::AlreadyOnDisk);
    assert_eq!(download_action(false, Some("x".into())), DownloadAction::LinkFrom("x".into()));
    assert_eq!(download_action(false, None), DownloadAction::Fetch);
    assert_eq!(propagation_step(true, true), PropagationStep::Mark);
    assert_eq!(propagation_step(false, true), PropagationStep::LinkAndMark);
    assert_eq!(propagation_step(true, false), PropagationStep::Skip);
}

#[test]
fn run_modes_and_browser() {
    assert_eq!(parse_run_mode(None), Some(RunMode::Default));
    assert_eq!(parse_run_mode(Some("login")), Some(RunMode::Login));
    assert_eq!(parse_run_mode(Some("dev")), Some(RunMode::Dev));
    assert_eq!(parse_run_mode(Some("Dev")), None);
    assert!(is_headless(false, false));
    assert!(!is_headless(true, false));
    assert!(!is_headless(false, true));
    assert!(should_scroll(3, 3));
    assert!(!should_scroll(4, 3));
}

#[test]
fn only_real_calendar_days_are_written() {
    let leap = DownloadDate { year: 2024, month: 2, day: 29, hour: 0, minute: 0, second: 0, nanosecond: 0 };
    assert_eq!(format_download_date(leap).unwrap(), "2024-02-29 12:00:00 AM");
    assert_eq!(format_download_date(DownloadDate { year: 2023, ..leap }), None);
    assert_eq!(format_download_date(DownloadDate { year: 2000, ..leap }).unwrap(), "2000-02-29 12:00:00 AM");
    assert_eq!(format_download_date(DownloadDate { year: 1900, ..leap }), None);
    assert_eq!(format_download_date(DownloadDate { month: 4, day: 31, ..leap }), None);
    assert_eq!(format_download_date(DownloadDate { hour: 24, ..leap }), None);
    assert_eq!(format_download_date(DownloadDate { second: 59, nanosecond: 1_500_000_000, ..leap }).is_some(), true);
    assert_eq!(format_download_date(DownloadDate { second: 58, nanosecond: 1_500_000_000, ..leap }), None);
    assert_eq!(format_download_date(DownloadDate { year: 262143, month: 1, day: 1, ..leap }), None);
    assert_eq!(format_download_date(DownloadDate { year: 262142, month: 1, day: 1, ..leap }).is_some(), true);
}
