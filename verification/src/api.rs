//! Reading an account's video count and its video links out of a profile
//! page.

use vstd::prelude::*;
use crate::text::{parse_i64, parse_i64_spec, trim, trim_seq};
use crate::video::{DownloadStatus, Video, video_url, video_url_seq};

verus! {

/// The script element whose text is the page's rehydration JSON.
pub const REHYDRATION_PATTERN: &'static str = r#"(?s)<script[^>]*id=["']__UNIVERSAL_DATA_FOR_REHYDRATION__["'][^>]*>([^<]+)</script>"#;

/// Where the video count sits in the rehydration JSON.
pub const VIDEO_COUNT_POINTER: &'static str = "/__DEFAULT_SCOPE__/webapp.user-detail/userInfo/stats/videoCount";

/// A bare `"videoCount": <digits>` anywhere in the page.
pub const VIDEO_COUNT_FALLBACK_PATTERN: &'static str = r#""videoCount"\s*:\s*(\d+)"#;

/// A link to a video: `/@<user>/video/<id>`.
pub const VIDEO_LINK_PATTERN: &'static str = r#"/@([\w.]+)/video/(\d+)"#;

/// Ids of links that every page carries and that are no user's video.
pub const JUNK_VIDEO_IDS: [i64; 4] = [
    7511413375285447958,
    7074556216227155202,
    7035790010829769990,
    7008644040782613765,
];

/// The capture groups (group 0 first) of each successive non-overlapping
/// match of the regular expression `pattern` in `text`; `None` where
/// `pattern` does not compile.
pub uninterp spec fn regex_captures(pattern: Seq<char>, text: Seq<char>) -> Option<
    Seq<Seq<Option<Seq<char>>>>,
>;

/// Trusted: `regex::Regex::captures_iter` on `regex::Regex::new(pattern)`,
/// each match converted to its groups' texts. The contract only names the
/// result; nothing about regular expressions is stated.
#[verifier::external_body]
fn captures_all(pattern: &str, text: &str) -> (r: Option<Vec<Vec<Option<String>>>>)
    ensures
        r.deep_view() == regex_captures(pattern@, text@),
{
    let re = match regex::Regex::new(pattern) {
        Ok(re) => re,
        Err(_) => return None,
    };
    let mut all = Vec::new();
    for caps in re.captures_iter(text) {
        let mut groups = Vec::new();
        for m in caps.iter() {
            groups.push(m.map(|m| m.as_str().to_string()));
        }
        all.push(groups);
    }
    Some(all)
}

/// The integer at JSON pointer `pointer` in the JSON document `text`; `None`
/// where `text` is no JSON, nothing is there, or it is no integer that fits
/// an `i64`.
pub uninterp spec fn json_pointer_i64(text: Seq<char>, pointer: Seq<char>) -> Option<i64>;

/// Trusted: `serde_json::from_str::<serde_json::Value>`, then
/// `Value::pointer` and `Value::as_i64` on the result. The contract only
/// names the result.
#[verifier::external_body]
fn json_i64_at(text: &str, pointer: &str) -> (r: Option<i64>)
    ensures
        r == json_pointer_i64(text@, pointer@),
{
    let value: serde_json::Value = serde_json::from_str(text).ok()?;
    value.pointer(pointer)?.as_i64()
}

/// Group `g` of the first match, where there is one and the group took part.
pub open spec fn first_group(m: Option<Seq<Seq<Option<Seq<char>>>>>, g: int) -> Option<Seq<char>> {
    match m {
        Some(ms) => if ms.len() > 0 && 0 <= g < ms[0].len() {
            ms[0][g]
        } else {
            None
        },
        None => None,
    }
}

/// The count in the page's rehydration JSON.
pub open spec fn rehydration_count(html: Seq<char>) -> Option<i64> {
    match first_group(regex_captures(REHYDRATION_PATTERN@, html), 1) {
        Some(json) => json_pointer_i64(trim_seq(json), VIDEO_COUNT_POINTER@),
        None => None,
    }
}

/// The count after the first bare `"videoCount":` in the page.
pub open spec fn fallback_count(html: Seq<char>) -> Option<i64> {
    match first_group(regex_captures(VIDEO_COUNT_FALLBACK_PATTERN@, html), 1) {
        Some(digits) => parse_i64_spec(digits),
        None => None,
    }
}

/// The video count a profile page states: from the rehydration JSON where
/// it holds one, else from the first bare `"videoCount"`.
pub open spec fn count_from_html(html: Seq<char>) -> Option<i64> {
    match rehydration_count(html) {
        Some(n) => Some(n),
        None => fallback_count(html),
    }
}

/// Group `g` of the first match of `pattern` in `text`.
fn first_capture(pattern: &str, text: &str, g: usize) -> (r: Option<String>)
    ensures
        r.deep_view() == first_group(regex_captures(pattern@, text@), g as int),
{
    match captures_all(pattern, text) {
        None => None,
        Some(all) => {
            if all.len() > 0 && g < all[0].len() {
                match &all[0][g] {
                    Some(s) => Some(s.clone()),
                    None => None,
                }
            } else {
                None
            }
        },
    }
}

fn parse_rehydration_count(html: &str) -> (r: Option<i64>)
    ensures
        r == rehydration_count(html@),
{
    match first_capture(REHYDRATION_PATTERN, html, 1) {
        Some(json) => json_i64_at(trim(json.as_str()), VIDEO_COUNT_POINTER),
        None => None,
    }
}

/// Why no video count could be read.
#[derive(Debug, Clone, Copy, PartialEq, Eq, Structural)]
pub enum CountError {
    /// The page states no video count.
    NotFound,
    /// The browser's evaluation gave back no value.
    NoValue,
    /// The browser's evaluation gave back `null`: the page is not ready.
    NotReady,
    /// The browser's evaluation gave back something that is no number.
    Unexpected,
}

/// The count a page states, from the count in its rehydration JSON where
/// there is one, else from the digits of its first bare `"videoCount"`.
pub open spec fn count_of_matches(rehydration: Option<i64>, fallback_digits: Option<Seq<char>>) -> Result<
    i64,
    CountError,
> {
    match rehydration {
        Some(n) => Ok(n),
        None => match fallback_digits {
            Some(d) => match parse_i64_spec(d) {
                Some(n) => Ok(n),
                None => Err(CountError::NotFound),
            },
            None => Err(CountError::NotFound),
        },
    }
}

/// The count from what the two patterns found in a page: the rehydration
/// JSON's count, else the fallback's digits read as an `i64`.
pub fn count_from_matches(rehydration: Option<i64>, fallback_digits: Option<String>) -> (r: Result<
    i64,
    CountError,
>)
    ensures
        r == count_of_matches(rehydration, fallback_digits.deep_view()),
{
    match rehydration {
        Some(n) => Ok(n),
        None => match fallback_digits {
            Some(d) => match parse_i64(d.as_str()) {
                Some(n) => Ok(n),
                None => Err(CountError::NotFound),
            },
            None => Err(CountError::NotFound),
        },
    }
}

/// The video count a profile page's HTML states.
pub fn video_count_from_html(html: &str) -> (r: Result<i64, CountError>)
    ensures
        r is Ok <==> count_from_html(html@) is Some,
        r matches Ok(n) ==> count_from_html(html@) == Some(n),
        r matches Err(e) ==> e == CountError::NotFound,
{
    let rehydration = parse_rehydration_count(html);
    let digits = if rehydration.is_some() {
        None
    } else {
        first_capture(VIDEO_COUNT_FALLBACK_PATTERN, html, 1)
    };
    count_from_matches(rehydration, digits)
}

/// What the in-page count script gave back, as the browser reported it.
#[derive(Debug, PartialEq, Eq)]
pub enum EvalValue {
    /// The evaluation carried no value.
    Absent,
    /// An integer.
    Int(i64),
    /// A number that is no `i64`, truncated towards zero and saturated.
    Float(i64),
    /// JSON `null`.
    Null,
    /// Anything else, in its JSON text.
    Other(String),
}

/// The count that an evaluation of the count script gave back.
pub fn parse_eval_count(v: EvalValue) -> (r: Result<i64, CountError>)
    ensures
        r == (match v {
            EvalValue::Absent => Err(CountError::NoValue),
            EvalValue::Int(n) => Ok(n),
            EvalValue::Float(n) => Ok(n),
            EvalValue::Null => Err(CountError::NotReady),
            EvalValue::Other(_) => Err(CountError::Unexpected),
        }),
{
    match v {
        EvalValue::Absent => Err(CountError::NoValue),
        EvalValue::Int(n) => Ok(n),
        EvalValue::Float(n) => Ok(n),
        EvalValue::Null => Err(CountError::NotReady),
        EvalValue::Other(_) => Err(CountError::Unexpected),
    }
}

/// The profile page of `username`.
pub open spec fn profile_url_seq(username: Seq<char>) -> Seq<char> {
    "https://www.tiktok.com/@"@ + username
}

pub fn profile_url(username: &str) -> (r: String)
    ensures
        r@ == profile_url_seq(username@),
{
    let mut s = String::from_str("https://www.tiktok.com/@");
    s.append(username);
    s
}

/// Why the video links of a page could not be read.
#[derive(Debug, Clone, Copy, PartialEq, Eq, Structural)]
pub enum LinkError {
    /// The link pattern does not compile.
    Pattern,
    /// A link matched without an id.
    MissingId,
    /// A link's id is no `i64`.
    BadId,
}

pub open spec fn is_junk_id(id: i64) -> bool {
    id == 7511413375285447958i64 || id == 7074556216227155202i64 || id == 7035790010829769990i64
        || id == 7008644040782613765i64
}

/// What one link match contributes: its author and id, nothing for a junk
/// id, or an error.
pub open spec fn link_of(cap: Seq<Option<Seq<char>>>) -> Result<Option<(Seq<char>, i64)>, LinkError> {
    let user = if cap.len() > 1 && cap[1] is Some {
        cap[1]->0
    } else {
        Seq::empty()
    };
    if cap.len() > 2 && cap[2] is Some {
        match parse_i64_spec(cap[2]->0) {
            Some(id) => if is_junk_id(id) {
                Ok(None)
            } else {
                Ok(Some((user, id)))
            },
            None => Err(LinkError::BadId),
        }
    } else {
        Err(LinkError::MissingId)
    }
}

/// The links of all matches in order, or the first match's error.
pub open spec fn links_of(caps: Seq<Seq<Option<Seq<char>>>>) -> Result<Seq<(Seq<char>, i64)>, LinkError>
    decreases caps.len(),
{
    if caps.len() == 0 {
        Ok(Seq::empty())
    } else {
        match links_of(caps.drop_last()) {
            Err(e) => Err(e),
            Ok(prev) => match link_of(caps.last()) {
                Err(e) => Err(e),
                Ok(None) => Ok(prev),
                Ok(Some(l)) => Ok(prev.push(l)),
            },
        }
    }
}

/// An error among the first matches is the error of all of them.
proof fn lemma_links_err_extends(caps: Seq<Seq<Option<Seq<char>>>>, k: int)
    requires
        0 <= k <= caps.len(),
        links_of(caps.take(k)) is Err,
    ensures
        links_of(caps) == links_of(caps.take(k)),
    decreases caps.len() - k,
{
    if k < caps.len() {
        assert(caps.take(k + 1).drop_last() == caps.take(k));
        lemma_links_err_extends(caps, k + 1);
    } else {
        assert(caps.take(k) == caps);
    }
}

/// The links to videos in a page.
pub open spec fn page_links(html: Seq<char>) -> Result<Seq<(Seq<char>, i64)>, LinkError> {
    match regex_captures(VIDEO_LINK_PATTERN@, html) {
        None => Err(LinkError::Pattern),
        Some(caps) => links_of(caps),
    }
}

/// `v` is a newly found video by `user` with id `id`.
pub open spec fn is_fresh_video(v: Video, user: Seq<char>, id: i64) -> bool {
    &&& v.url@ == video_url_seq(user, id)
    &&& v.id == id
    &&& v.username@ == user
    &&& !v.is_fav
    &&& v.download_status == DownloadStatus::NotDownloaded
    &&& v.source_available
    &&& v.download_date is None
}

fn is_junk(id: i64) -> (r: bool)
    ensures
        r == is_junk_id(id),
{
    let mut k: usize = 0;
    while k < 4
        invariant
            k <= 4,
            forall|j: int| 0 <= j < k ==> JUNK_VIDEO_IDS@[j] != id,
        decreases 4 - k,
    {
        if JUNK_VIDEO_IDS[k] == id {
            return true;
        }
        k = k + 1;
    }
    false
}

/// The videos of the link matches `caps` (each match's groups, group 0
/// first), in order, without the junk ids; or the first match's error.
pub fn videos_from_captures(caps: &Vec<Vec<Option<String>>>) -> (r: Result<Vec<Video>, LinkError>)
    ensures
        match r {
            Ok(vs) => links_of(caps.deep_view()) matches Ok(ls) && vs@.len() == ls.len() && forall|k: int|
                0 <= k < ls.len() ==> is_fresh_video(#[trigger] vs@[k], ls[k].0, ls[k].1),
            Err(e) => links_of(caps.deep_view()) == Err::<Seq<(Seq<char>, i64)>, LinkError>(e),
        },
        r matches Ok(vs) ==> forall|k: int| 0 <= k < vs@.len() ==> !JUNK_VIDEO_IDS@.contains(#[trigger] vs@[k].id),
{
    proof {
        law_links_skip_junk(caps.deep_view());
    }
    let ghost cv = caps.deep_view();
    let mut out: Vec<Video> = Vec::new();
    let mut k: usize = 0;
    while k < caps.len()
        invariant
            cv == caps.deep_view(),
            k <= cv.len(),
            links_of(cv.take(k as int)) matches Ok(ls) && out@.len() == ls.len() && forall|j: int|
                0 <= j < ls.len() ==> is_fresh_video(#[trigger] out@[j], ls[j].0, ls[j].1),
        decreases cv.len() - k,
    {
        let cap = &caps[k];
        proof {
            assert(cv.take(k + 1).drop_last() == cv.take(k as int));
            assert(cv.take(k + 1).last() == cv[k as int]);
            assert(cap.deep_view() == cv[k as int]);
        }
        let user: String = if cap.len() > 1 {
            match &cap[1] {
                Some(u) => u.clone(),
                None => String::new(),
            }
        } else {
            String::new()
        };
        let digits: &String = if cap.len() > 2 && cap[2].is_some() {
            match &cap[2] {
                Some(d) => d,
                None => return Err(LinkError::MissingId),
            }
        } else {
            proof {
                assert(cv[k as int].len() == cap@.len());
                assert(cv[k as int].len() > 2 ==> cv[k as int][2] == cap@[2].deep_view());
                assert(link_of(cv[k as int]) is Err);
                assert(links_of(cv.take(k + 1)) is Err);
                lemma_links_err_extends(cv, k + 1);
            }
            return Err(LinkError::MissingId);
        };
        let id = match parse_i64(digits.as_str()) {
            Some(id) => id,
            None => {
                proof {
                    assert(cv[k as int][2] == cap@[2].deep_view());
                    assert(link_of(cv[k as int]) is Err);
                    assert(links_of(cv.take(k + 1)) is Err);
                    lemma_links_err_extends(cv, k + 1);
                }
                return Err(LinkError::BadId);
            },
        };
        if !is_junk(id) {
            let url = video_url(user.as_str(), id);
            let ghost before = out@;
            out.push(Video::new(url, id, user));
            proof {
                assert(out@[before.len() as int] == out@.last());
            }
        }
        k = k + 1;
    }
    proof {
        assert(cv.take(cv.len() as int) == cv);
    }
    Ok(out)
}

/// The videos that a page links to, in page order, without the junk ids.
pub fn videos_from_anchor_links(html: &str) -> (r: Result<Vec<Video>, LinkError>)
    ensures
        match r {
            Ok(vs) => page_links(html@) matches Ok(ls) && vs@.len() == ls.len() && forall|k: int|
                0 <= k < ls.len() ==> is_fresh_video(#[trigger] vs@[k], ls[k].0, ls[k].1),
            Err(e) => page_links(html@) == Err::<Seq<(Seq<char>, i64)>, LinkError>(e),
        },
        r matches Ok(vs) ==> forall|k: int| 0 <= k < vs@.len() ==> !JUNK_VIDEO_IDS@.contains(#[trigger] vs@[k].id),
{
    match captures_all(VIDEO_LINK_PATTERN, html) {
        Some(caps) => videos_from_captures(&caps),
        None => Err(LinkError::Pattern),
    }
}

/// How a wait for the in-page count goes on after an attempt that gave no
/// count.
#[derive(Debug, Clone, Copy, PartialEq, Eq, Structural)]
pub struct WaitStep {
    /// Report the failure now.
    pub log: bool,
    /// Stop waiting: the deadline has passed.
    pub give_up: bool,
}

/// After a failed attempt at `now_ms`: report it when ten seconds have
/// passed since the last report, and give up once the deadline is reached.
pub fn wait_step(now_ms: u64, deadline_ms: u64, last_log_ms: u64) -> (r: WaitStep)
    ensures
        r.log == (now_ms >= last_log_ms && now_ms - last_log_ms >= 10_000),
        r.give_up == (now_ms >= deadline_ms),
{
    WaitStep {
        log: now_ms >= last_log_ms && now_ms - last_log_ms >= 10_000,
        give_up: now_ms >= deadline_ms,
    }
}

/// The ids taken for junk are exactly those of `JUNK_VIDEO_IDS`: the four
/// links that every page carries.
pub proof fn law_junk_ids_are_the_listed_ones(id: i64)
    ensures
        is_junk_id(id) <==> JUNK_VIDEO_IDS@.contains(id),
        JUNK_VIDEO_IDS@ == seq![
            7511413375285447958i64,
            7074556216227155202i64,
            7035790010829769990i64,
            7008644040782613765i64,
        ],
{
    assert(JUNK_VIDEO_IDS@ =~= seq![
        7511413375285447958i64,
        7074556216227155202i64,
        7035790010829769990i64,
        7008644040782613765i64,
    ]);
    if is_junk_id(id) {
        if id == 7511413375285447958i64 {
            assert(JUNK_VIDEO_IDS@[0] == id);
        } else if id == 7074556216227155202i64 {
            assert(JUNK_VIDEO_IDS@[1] == id);
        } else if id == 7035790010829769990i64 {
            assert(JUNK_VIDEO_IDS@[2] == id);
        } else {
            assert(JUNK_VIDEO_IDS@[3] == id);
        }
    }
}

/// No link read off a page has an id of `JUNK_VIDEO_IDS`, and each has the
/// id and author of some match.
pub proof fn law_links_skip_junk(caps: Seq<Seq<Option<Seq<char>>>>)
    ensures
        links_of(caps) matches Ok(ls) ==> forall|k: int|
            0 <= k < ls.len() ==> !JUNK_VIDEO_IDS@.contains(#[trigger] ls[k].1),
    decreases caps.len(),
{
    if caps.len() > 0 {
        law_links_skip_junk(caps.drop_last());
        if let Ok(ls) = links_of(caps) {
            let prev = links_of(caps.drop_last())->Ok_0;
            assert forall|k: int| 0 <= k < ls.len() implies !JUNK_VIDEO_IDS@.contains(#[trigger] ls[k].1) by {
                if k < prev.len() {
                    assert(ls[k] == prev[k]);
                } else {
                    let cap = caps.last();
                    let id = parse_i64_spec(cap[2]->0)->0;
                    assert(ls[k].1 == id);
                    assert(!is_junk_id(id));
                    law_junk_ids_are_the_listed_ones(id);
                }
            }
        }
    }
}

} // verus!
