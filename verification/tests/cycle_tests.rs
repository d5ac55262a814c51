use tiktok_archiver::binary64::{binary64_is_positive, binary64_to_i64};
use tiktok_archiver::cookies::{saved_cookies_json, SavedCookie, cookies_text_has_any, expiry_from_bits, load_cookie_params_from_text, CookieFileError, SameSite};
use tiktok_archiver::cycle::{cycle_outcome, cycle_steps, CycleStep};

#[test]
fn cycle_steps_follow_the_configuration() {
    assert_eq!(cycle_steps(false, false), vec![CycleStep::DownloadPending]);
    assert_eq!(cycle_steps(true, false), vec![CycleStep::LaunchBrowser, CycleStep::FetchFavorites, CycleStep::DownloadPending]);
    assert_eq!(cycle_steps(false, true), vec![CycleStep::LaunchBrowser, CycleStep::PollAccounts, CycleStep::DownloadPending]);
    assert_eq!(cycle_steps(true, true), vec![CycleStep::LaunchBrowser, CycleStep::FetchFavorites, CycleStep::PollAccounts, CycleStep::DownloadPending]);
}

#[test]
fn cycle_outcome_fails_on_any_error() {
    assert_eq!(cycle_outcome(vec![]), Ok(()));
    assert_eq!(cycle_outcome(vec!["a".to_string(), "b".to_string()]), Err(vec!["a".to_string(), "b".to_string()]));
}

#[test]
fn binary64_conversions_match_the_casts() {
    let samples = [
        0.0, -0.0, 0.5, -0.5, 1.0, -1.0, 1.9, -1.9, 1_800_000_000.75, -1e300, 1e300,
        9.2233720368547758e18, -9.2233720368547758e18, 4503599627370497.0, 9007199254740993.0,
        f64::INFINITY, f64::NEG_INFINITY, f64::NAN, f64::MIN_POSITIVE, 5e-324, 123456789012.5,
    ];
    for t in samples {
        assert_eq!(binary64_to_i64(t.to_bits()), t as i64, "{t}");
        assert_eq!(binary64_is_positive(t.to_bits()), t > 0.0, "{t}");
        let e = expiry_from_bits(t.to_bits());
        assert_eq!((e.positive, e.whole_seconds), (t > 0.0, t as i64));
    }
}

#[test]
fn cookie_file_text_is_read() {
    let text = r#"{"cookies": [
        {"name": "sessionid", "value": "x", "domain": "tiktok.com", "path": "/", "expires": 1800000000, "httpOnly": true, "secure": null, "sameSite": "None"},
        {"name": "other", "value": "y", "domain": "example.com"},
        {"name": "tt", "value": "z", "url": "https://www.tiktok.com", "expires": -1, "http_only": false, "same_site": "Lax"},
        7
    ]}"#;
    let ps = load_cookie_params_from_text(text).unwrap();
    assert_eq!(ps.len(), 2);
    assert_eq!(ps[0].name, "sessionid");
    assert_eq!(ps[0].domain.as_deref(), Some(".tiktok.com"));
    assert_eq!(ps[0].http_only, Some(true));
    assert_eq!(ps[0].secure, None);
    assert_eq!(ps[0].same_site, Some(SameSite::Unrestricted));
    assert_eq!(ps[0].expires.map(|e| e.whole_seconds), Some(1_800_000_000));
    assert_eq!(ps[1].name, "tt");
    assert_eq!(ps[1].domain, None);
    assert_eq!(ps[1].path.as_deref(), Some("/"));
    assert_eq!(ps[1].http_only, Some(false));
    assert_eq!(ps[1].same_site, Some(SameSite::Lax));
    assert_eq!(ps[1].expires, None);
    assert_eq!(load_cookie_params_from_text("not json").unwrap_err(), CookieFileError::NoCookieArray);
    assert_eq!(load_cookie_params_from_text("{\"other\": []}").unwrap_err(), CookieFileError::NoCookieArray);
}

#[test]
fn cookie_file_text_has_any() {
    assert!(cookies_text_has_any("{\"cookies\": [{}]}"));
    assert!(!cookies_text_has_any("{\"cookies\": []}"));
    assert!(!cookies_text_has_any("{\"cookies\": {}}"));
    assert!(!cookies_text_has_any("garbage"));
}

fn json_of(c: &SavedCookie) -> serde_json::Value {
    let mut m = serde_json::Map::new();
    m.insert("name".into(), c.name.clone().into());
    m.insert("value".into(), c.value.clone().into());
    m.insert("domain".into(), c.domain.clone().map(Into::into).unwrap_or(serde_json::Value::Null));
    m.insert("path".into(), c.path.clone().map(Into::into).unwrap_or(serde_json::Value::Null));
    m.insert("expires".into(), c.expires.into());
    m.insert("httpOnly".into(), c.http_only.map(Into::into).unwrap_or(serde_json::Value::Null));
    m.insert("secure".into(), c.secure.map(Into::into).unwrap_or(serde_json::Value::Null));
    if let Some(s) = c.same_site {
        m.insert("sameSite".into(), tiktok_archiver::cookies::same_site_label(s).into());
    }
    serde_json::Value::Object(m)
}

#[test]
fn saved_cookie_file_text_matches_serde() {
    let cs = vec![
        SavedCookie {
            name: "sid\"tt\\".into(),
            value: "a\nb\tc\u{1}\u{7f}é😀\r\u{8}\u{c}\u{1f}".into(),
            domain: Some(".tiktok.com".into()),
            path: None,
            expires: -1,
            http_only: Some(true),
            secure: None,
            same_site: Some(SameSite::Unrestricted),
        },
        SavedCookie {
            name: "x".into(),
            value: "".into(),
            domain: None,
            path: Some("/".into()),
            expires: 1_800_000_000,
            http_only: None,
            secure: Some(false),
            same_site: None,
        },
    ];
    let mut root = serde_json::Map::new();
    root.insert("cookies".into(), serde_json::Value::Array(cs.iter().map(json_of).collect()));
    let expected = serde_json::to_string_pretty(&serde_json::Value::Object(root)).unwrap();
    assert_eq!(saved_cookies_json(&cs), expected);
    let empty: Vec<SavedCookie> = vec![];
    assert_eq!(saved_cookies_json(&empty), "{\n  \"cookies\": []\n}");
    let back = load_cookie_params_from_text(&saved_cookies_json(&cs)).unwrap();
    assert_eq!(back.len(), 1);
    assert_eq!(back[0].name, "sid\"tt\\");
    assert_eq!(back[0].value, cs[0].value);
}
