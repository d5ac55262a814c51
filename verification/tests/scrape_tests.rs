use tiktok_archiver::api::{parse_eval_count, profile_url, video_count_from_html, videos_from_anchor_links,
    wait_step, CountError, EvalValue, LinkError};
use tiktok_archiver::discover::{fav_pass, fav_scroll_budget, scroll_pass, scrolls_per_pass,
    videos_from_html};
use tiktok_archiver::video::{DownloadStatus, Video};

#[test]
fn count_from_rehydration_json() {
    let html = r#"<html><script id="__UNIVERSAL_DATA_FOR_REHYDRATION__" type="application/json">
      {"__DEFAULT_SCOPE__":{"webapp.user-detail":{"userInfo":{"stats":{"videoCount":321}}}}}
    </script> "videoCount": 5</html>"#;
    assert_eq!(video_count_from_html(html), Ok(321));
}

#[test]
fn count_falls_back_to_bare_field() {
    let html = r#"<div>{"videoCount" : 47, "videoCount":9}</div>"#;
    assert_eq!(video_count_from_html(html), Ok(47));
}

#[test]
fn count_falls_back_when_json_lacks_it() {
    let html = r#"<script id='__UNIVERSAL_DATA_FOR_REHYDRATION__'>{"__DEFAULT_SCOPE__":{}}</script>"videoCount":12"#;
    assert_eq!(video_count_from_html(html), Ok(12));
}

#[test]
fn count_missing_is_an_error() {
    assert_eq!(video_count_from_html("<html>nothing</html>"), Err(CountError::NotFound));
}

#[test]
fn count_too_large_for_i64_is_not_found() {
    assert_eq!(video_count_from_html(r#""videoCount":99999999999999999999"#), Err(CountError::NotFound));
}

#[test]
fn eval_count_values() {
    assert_eq!(parse_eval_count(EvalValue::Int(8)), Ok(8));
    assert_eq!(parse_eval_count(EvalValue::Float(3)), Ok(3));
    assert_eq!(parse_eval_count(EvalValue::Null), Err(CountError::NotReady));
    assert_eq!(parse_eval_count(EvalValue::Absent), Err(CountError::NoValue));
    assert_eq!(parse_eval_count(EvalValue::Other("\"x\"".to_string())), Err(CountError::Unexpected));
}

#[test]
fn profile_url_format() {
    assert_eq!(profile_url("bob.x"), "https://www.tiktok.com/@bob.x");
}

#[test]
fn anchor_links_in_order_without_junk() {
    let html = r#"<a href="/@alice/video/111">a</a><a href="https://www.tiktok.com/@b.c_d/video/0222"></a>
        <a href="/@x/video/7511413375285447958"></a><a href="/@alice/video/111"></a>"#;
    let vids = videos_from_anchor_links(html).unwrap();
    let got: Vec<(String, i64, String)> =
        vids.iter().map(|v| (v.username.clone(), v.id, v.url.clone())).collect();
    assert_eq!(
        got,
        vec![
            ("alice".to_string(), 111, "https://www.tiktok.com/@alice/video/111".to_string()),
            ("b.c_d".to_string(), 222, "https://www.tiktok.com/@b.c_d/video/222".to_string()),
            ("alice".to_string(), 111, "https://www.tiktok.com/@alice/video/111".to_string()),
        ]
    );
    assert!(vids.iter().all(|v| v.download_status == DownloadStatus::NotDownloaded && !v.is_fav));
}

#[test]
fn anchor_link_with_huge_id_is_an_error() {
    assert_eq!(
        videos_from_html("/@a/video/99999999999999999999").map(|v| v.len()),
        Err(LinkError::BadId)
    );
}

#[test]
fn no_links_no_videos() {
    assert_eq!(videos_from_html("<p>empty</p>").unwrap().len(), 0);
}

#[test]
fn scroll_budget_schedule() {
    let got: Vec<u32> = (1..=7).map(scrolls_per_pass).collect();
    assert_eq!(got, vec![3, 12, 30, 90, 270, 800, 800]);
    assert_eq!(fav_scroll_budget(4), 90);
    assert_eq!(scrolls_per_pass(0x8000_0002), 800);
    assert_eq!(scrolls_per_pass(0x8000_0003), 30);
    assert_eq!(scrolls_per_pass(u32::MAX), 30);
}

fn v(id: i64) -> Video {
    Video::new(format!("u{id}"), id, "a".to_string())
}

#[test]
fn scroll_pass_finds_new_once() {
    let mut ids = vec![1];
    let mut found = Vec::new();
    let n = scroll_pass(&mut ids, &vec![v(1), v(2), v(2), v(3)], true, &mut found);
    assert_eq!(n, 2);
    assert_eq!(ids, vec![1, 2, 3]);
    assert_eq!(found.iter().map(|x| x.id).collect::<Vec<_>>(), vec![2, 3]);
    assert!(found.iter().all(|x| x.is_fav));
    let n2 = scroll_pass(&mut ids, &vec![v(3), v(2)], true, &mut found);
    assert_eq!(n2, 0);
}

#[test]
fn fav_pass_tracks_done_and_known() {
    let mut done = vec![];
    let mut known = vec![5];
    let new = fav_pass(&mut done, &mut known, &vec![v(5), v(6), v(6), v(7)]);
    assert_eq!(new.iter().map(|x| x.id).collect::<Vec<_>>(), vec![6, 7]);
    assert!(new.iter().all(|x| x.is_fav));
    assert_eq!(done, vec![5, 6, 7]);
    assert_eq!(known, vec![5, 6, 7]);
    let again = fav_pass(&mut done, &mut known, &vec![v(6), v(8)]);
    assert_eq!(again.iter().map(|x| x.id).collect::<Vec<_>>(), vec![8]);
}

#[test]
fn wait_step_logs_and_gives_up() {
    assert_eq!(wait_step(10_000, 60_000, 0).log, true);
    assert_eq!(wait_step(9_999, 60_000, 0).log, false);
    assert_eq!(wait_step(60_000, 60_000, 0).give_up, true);
    assert_eq!(wait_step(59_999, 60_000, 0).give_up, false);
}
