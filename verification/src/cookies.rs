//! TikTok login cookies: which saved entries are used, how they are handed
//! to the browser and to the downloader, and how a login is recognised.

use vstd::prelude::*;
use crate::binary64::{binary64_as_i64, binary64_is_positive, binary64_positive, binary64_to_i64};
use crate::text::{str_eq, contains, contains_seq, i64_to_text, signed_decimal_seq, starts_with,
    starts_with_seq, trim, trim_seq};

verus! {

/// A cookie's `SameSite` attribute.
#[derive(Debug, Clone, Copy, PartialEq, Eq, Structural)]
pub enum SameSite {
    Strict,
    Lax,
    /// `SameSite=None`: sent with cross-site requests.
    Unrestricted,
}

/// An expiry time (seconds since the epoch, possibly fractional) and what
/// the rules read of it: its bit pattern as a 64-bit float, whether it is
/// above zero, and its whole seconds (truncated towards zero, saturated).
#[derive(Debug, Clone, Copy, PartialEq, Eq, Structural)]
pub struct Expiry {
    pub bits: u64,
    pub positive: bool,
    pub whole_seconds: i64,
}

/// A cookie as handed to the browser.
#[derive(Debug)]
pub struct CookieSpec {
    pub name: String,
    pub value: String,
    pub url: Option<String>,
    pub domain: Option<String>,
    pub path: Option<String>,
    pub secure: Option<bool>,
    pub http_only: Option<bool>,
    pub same_site: Option<SameSite>,
    pub expires: Option<Expiry>,
}

/// A `CookieSpec` in terms of character sequences.
pub struct CookieView {
    pub name: Seq<char>,
    pub value: Seq<char>,
    pub url: Option<Seq<char>>,
    pub domain: Option<Seq<char>>,
    pub path: Option<Seq<char>>,
    pub secure: Option<bool>,
    pub http_only: Option<bool>,
    pub same_site: Option<SameSite>,
    pub expires: Option<Expiry>,
}

pub open spec fn opt_view(o: Option<String>) -> Option<Seq<char>> {
    match o {
        Some(s) => Some(s@),
        None => None,
    }
}

impl View for CookieSpec {
    type V = CookieView;

    open spec fn view(&self) -> CookieView {
        CookieView {
            name: self.name@,
            value: self.value@,
            url: opt_view(self.url),
            domain: opt_view(self.domain),
            path: opt_view(self.path),
            secure: self.secure,
            http_only: self.http_only,
            same_site: self.same_site,
            expires: self.expires,
        }
    }
}

/// A JSON value of a saved cookie entry, as far as the rules read it.
#[derive(Debug)]
pub enum JsonField {
    /// The key is absent.
    Missing,
    Str(String),
    Bool(bool),
    /// A number, by the bit pattern of its value as a 64-bit IEEE double.
    Number(u64),
    /// Any other JSON value.
    Other,
}

/// A saved cookie entry of `saved_cookies.json`.
#[derive(Debug)]
pub struct RawCookie {
    pub domain: JsonField,
    pub url: JsonField,
    pub name: JsonField,
    pub value: JsonField,
    pub path: JsonField,
    pub secure: JsonField,
    /// The `httpOnly` key.
    pub http_only: JsonField,
    /// The `http_only` key, read where `httpOnly` is absent.
    pub http_only_alt: JsonField,
    /// The `sameSite` key.
    pub same_site: JsonField,
    /// The `same_site` key, read where `sameSite` is absent.
    pub same_site_alt: JsonField,
    /// The `expires` number, where it is one.
    pub expires: Option<Expiry>,
}

pub open spec fn field_str(f: JsonField) -> Option<Seq<char>> {
    match f {
        JsonField::Str(s) => Some(s@),
        _ => None,
    }
}

pub open spec fn field_bool(f: JsonField) -> Option<bool> {
    match f {
        JsonField::Bool(b) => Some(b),
        _ => None,
    }
}

/// `a`, or `b` where `a` is absent (`Option::or` on a JSON lookup).
pub open spec fn field_or(a: JsonField, b: JsonField) -> JsonField {
    match a {
        JsonField::Missing => b,
        _ => a,
    }
}

/// The domain of a saved entry: trimmed, with a leading dot; nothing for a
/// blank one.
pub open spec fn normalized_domain(raw: Seq<char>) -> Option<Seq<char>> {
    let d = trim_seq(raw);
    if d.len() == 0 {
        None
    } else if starts_with_seq(d, "."@) {
        Some(d)
    } else {
        Some("."@ + d)
    }
}

pub fn normalize_cookie_domain(raw: &str) -> (r: Option<String>)
    ensures
        opt_view(r) == normalized_domain(raw@),
{
    let d = trim(raw);
    if d.unicode_len() == 0 {
        return None;
    }
    if starts_with(d, ".") {
        Some(String::from_str(d))
    } else {
        let mut s = String::from_str(".");
        s.append(d);
        Some(s)
    }
}

/// A saved entry belongs to TikTok when its domain, or else its URL,
/// mentions `tiktok.com`.
pub open spec fn is_tiktok_entry(c: RawCookie) -> bool {
    (field_str(c.domain) matches Some(d) && contains_seq(d, "tiktok.com"@)) || (field_str(c.url) matches Some(u) && contains_seq(u, "tiktok.com"@))
}

fn field_as_str(f: &JsonField) -> (r: Option<&str>)
    ensures
        match r {
            Some(s) => field_str(*f) == Some(s@),
            None => field_str(*f) is None,
        },
{
    match f {
        JsonField::Str(s) => Some(s.as_str()),
        _ => None,
    }
}

fn field_as_bool(f: &JsonField) -> (r: Option<bool>)
    ensures
        r == field_bool(*f),
{
    match f {
        JsonField::Bool(b) => Some(*b),
        _ => None,
    }
}

pub fn is_tiktok_cookie_entry(c: &RawCookie) -> (r: bool)
    ensures
        r == is_tiktok_entry(*c),
{
    if let Some(d) = field_as_str(&c.domain) {
        if contains(d, "tiktok.com") {
            return true;
        }
    }
    match field_as_str(&c.url) {
        Some(u) => contains(u, "tiktok.com"),
        None => false,
    }
}

/// The `SameSite` attribute an entry names.
pub open spec fn same_site_of(c: RawCookie) -> Option<SameSite> {
    match field_str(field_or(c.same_site, c.same_site_alt)) {
        Some(s) => if s == "Strict"@ {
            Some(SameSite::Strict)
        } else if s == "Lax"@ {
            Some(SameSite::Lax)
        } else if s == "None"@ {
            Some(SameSite::Unrestricted)
        } else {
            None
        },
        None => None,
    }
}

pub fn parse_same_site(c: &RawCookie) -> (r: Option<SameSite>)
    ensures
        r == same_site_of(*c),
{
    let f = match &c.same_site {
        JsonField::Missing => &c.same_site_alt,
        other => other,
    };
    let s = match field_as_str(f) {
        Some(s) => s,
        None => return None,
    };
    proof {
        reveal_strlit("Strict");
        reveal_strlit("Lax");
        reveal_strlit("None");
    }
    if str_eq(s, "Strict") {
        Some(SameSite::Strict)
    } else if str_eq(s, "Lax") {
        Some(SameSite::Lax)
    } else if str_eq(s, "None") {
        Some(SameSite::Unrestricted)
    } else {
        None
    }
}

/// An expiry is kept only when it lies after the epoch.
pub open spec fn kept_expiry(e: Option<Expiry>) -> Option<Expiry> {
    match e {
        Some(x) => if x.positive {
            Some(x)
        } else {
            None
        },
        None => None,
    }
}

pub fn parse_expires(e: Option<Expiry>) -> (r: Option<Expiry>)
    ensures
        r == kept_expiry(e),
{
    match e {
        Some(x) => if x.positive {
            Some(x)
        } else {
            None
        },
        None => None,
    }
}

/// The cookie that is set from a saved entry, with no URL and `/` for a
/// missing path.
pub open spec fn built_cookie(
    name: Seq<char>,
    value: Seq<char>,
    domain: Option<Seq<char>>,
    path: Option<Seq<char>>,
    secure: Option<bool>,
    http_only: Option<bool>,
    same_site: Option<SameSite>,
    expires: Option<Expiry>,
) -> CookieView {
    CookieView {
        name,
        value,
        url: None,
        domain,
        path: match path {
            Some(p) => Some(p),
            None => Some("/"@),
        },
        secure,
        http_only,
        same_site,
        expires,
    }
}

pub fn build_cookie_param(
    name: String,
    value: String,
    domain: Option<String>,
    path: Option<String>,
    secure: Option<bool>,
    http_only: Option<bool>,
    same_site: Option<SameSite>,
    expires: Option<Expiry>,
) -> (r: CookieSpec)
    ensures
        r@ == built_cookie(
            name@,
            value@,
            opt_view(domain),
            opt_view(path),
            secure,
            http_only,
            same_site,
            expires,
        ),
{
    let path = match path {
        Some(p) => Some(p),
        None => Some(String::from_str("/")),
    };
    CookieSpec {
        name,
        value,
        url: None,
        domain,
        path,
        secure,
        http_only,
        same_site,
        expires,
    }
}

/// The cookie that a saved entry gives: only TikTok entries with a string
/// name and value count.
pub open spec fn cookie_from_entry(c: RawCookie) -> Option<CookieView> {
    if !is_tiktok_entry(c) {
        None
    } else {
        match (field_str(c.name), field_str(c.value)) {
            (Some(name), Some(value)) => Some(
                built_cookie(
                    name,
                    value,
                    match field_str(c.domain) {
                        Some(d) => normalized_domain(d),
                        None => None,
                    },
                    field_str(c.path),
                    field_bool(c.secure),
                    field_bool(field_or(c.http_only, c.http_only_alt)),
                    same_site_of(c),
                    kept_expiry(c.expires),
                ),
            ),
            _ => None,
        }
    }
}

/// The cookies of the saved entries, in order.
pub open spec fn cookies_from_entries(entries: Seq<RawCookie>) -> Seq<CookieView>
    decreases entries.len(),
{
    if entries.len() == 0 {
        Seq::empty()
    } else {
        let prev = cookies_from_entries(entries.drop_last());
        match cookie_from_entry(entries.last()) {
            Some(c) => prev.push(c),
            None => prev,
        }
    }
}

pub open spec fn views_of(cs: Seq<CookieSpec>) -> Seq<CookieView> {
    cs.map_values(|c: CookieSpec| c@)
}

fn cookie_from_raw(c: &RawCookie) -> (r: Option<CookieSpec>)
    ensures
        match r {
            Some(p) => cookie_from_entry(*c) == Some(p@),
            None => cookie_from_entry(*c) is None,
        },
{
    if !is_tiktok_cookie_entry(c) {
        return None;
    }
    let name = match field_as_str(&c.name) {
        Some(s) => String::from_str(s),
        None => return None,
    };
    let value = match field_as_str(&c.value) {
        Some(s) => String::from_str(s),
        None => return None,
    };
    let path = match field_as_str(&c.path) {
        Some(s) => Some(String::from_str(s)),
        None => None,
    };
    let domain = match field_as_str(&c.domain) {
        Some(d) => normalize_cookie_domain(d),
        None => None,
    };
    let secure = field_as_bool(&c.secure);
    let http_only = match &c.http_only {
        JsonField::Missing => field_as_bool(&c.http_only_alt),
        other => field_as_bool(other),
    };
    let same_site = parse_same_site(c);
    let expires = parse_expires(c.expires);
    Some(build_cookie_param(name, value, domain, path, secure, http_only, same_site, expires))
}

/// The cookies of the TikTok entries of a saved cookie file, in order.
pub fn load_cookie_params(entries: &Vec<RawCookie>) -> (r: Vec<CookieSpec>)
    ensures
        views_of(r@) == cookies_from_entries(entries@),
{
    let mut r: Vec<CookieSpec> = Vec::new();
    let mut k: usize = 0;
    while k < entries.len()
        invariant
            k <= entries@.len(),
            views_of(r@) == cookies_from_entries(entries@.take(k as int)),
        decreases entries@.len() - k,
    {
        proof {
            assert(entries@.take(k + 1).drop_last() == entries@.take(k as int));
            assert(entries@.take(k + 1).last() == entries@[k as int]);
        }
        match cookie_from_raw(&entries[k]) {
            Some(c) => {
                let ghost before = r@;
                r.push(c);
                assert(views_of(r@) =~= views_of(before).push(r@.last()@));
            },
            None => {},
        }
        k = k + 1;
    }
    assert(entries@.take(entries@.len() as int) == entries@);
    r
}

/// The cookie as injected into the browser for `cookie_url`: bound to the
/// URL instead of a domain, `/` for a missing path, and secure whenever it
/// is `SameSite=None`.
pub open spec fn injection_view(p: CookieView, cookie_url: Seq<char>) -> CookieView {
    CookieView {
        url: Some(cookie_url),
        domain: None,
        path: match p.path {
            Some(x) => Some(x),
            None => Some("/"@),
        },
        secure: if p.same_site == Some(SameSite::Unrestricted) {
            Some(true)
        } else {
            p.secure
        },
        ..p
    }
}

pub fn to_injection_param(p: CookieSpec, cookie_url: &str) -> (r: CookieSpec)
    ensures
        r@ == injection_view(p@, cookie_url@),
{
    let secure = if p.same_site == Some(SameSite::Unrestricted) {
        Some(true)
    } else {
        p.secure
    };
    let path = match p.path {
        Some(x) => Some(x),
        None => Some(String::from_str("/")),
    };
    CookieSpec {
        name: p.name,
        value: p.value,
        url: Some(String::from_str(cookie_url)),
        domain: None,
        path,
        secure,
        http_only: p.http_only,
        same_site: p.same_site,
        expires: p.expires,
    }
}

/// The names of the cookies that carry a TikTok login.
pub open spec fn is_session_name(n: Seq<char>) -> bool {
    n == "sid_tt"@ || n == "sessionid"@ || n == "sid_guard"@ || n == "uid_tt"@ || n
        == "tt_session_tlb_tag"@
}

pub fn is_session_cookie_name(n: &str) -> (r: bool)
    ensures
        r == is_session_name(n@),
{
    str_eq(n, "sid_tt") || str_eq(n, "sessionid") || str_eq(n, "sid_guard") || str_eq(n, "uid_tt")
        || str_eq(n, "tt_session_tlb_tag")
}

/// Some cookie name is a login cookie's.
pub open spec fn any_session_name(names: Seq<Seq<char>>) -> bool {
    exists|i: int| 0 <= i < names.len() && is_session_name(#[trigger] names[i])
}

/// Whether some of the named cookies carries a login (`has_session_cookie`).
pub fn has_session_cookie(names: &Vec<String>) -> (r: bool)
    ensures
        r == any_session_name(names.deep_view()),
{
    let mut k: usize = 0;
    while k < names.len()
        invariant
            k <= names@.len(),
            forall|j: int| 0 <= j < k ==> !is_session_name(#[trigger] names.deep_view()[j]),
        decreases names@.len() - k,
    {
        assert(names.deep_view()[k as int] == names@[k as int]@);
        if is_session_cookie_name(names[k].as_str()) {
            return true;
        }
        k = k + 1;
    }
    false
}

/// Whether some of the cookies carries a login.
pub fn cookie_params_have_session(params: &Vec<CookieSpec>) -> (r: bool)
    ensures
        r == exists|i: int| 0 <= i < params@.len() && is_session_name(#[trigger] params@[i].name@),
{
    let mut k: usize = 0;
    while k < params.len()
        invariant
            k <= params@.len(),
            forall|j: int| 0 <= j < k ==> !is_session_name(#[trigger] params@[j].name@),
        decreases params@.len() - k,
    {
        if is_session_cookie_name(params[k].name.as_str()) {
            return true;
        }
        k = k + 1;
    }
    false
}

/// A cookie as the browser reports it.
#[derive(Debug)]
pub struct BrowserCookie {
    pub name: String,
    pub value: String,
    pub domain: String,
    pub path: String,
    pub secure: bool,
    pub http_only: bool,
    pub same_site: Option<SameSite>,
    /// The bit pattern of the expiry time (a 64-bit IEEE double, seconds
    /// since the epoch).
    pub expires_bits: u64,
}

/// The cookie saved for a browser cookie: the domain with a leading dot,
/// and the expiry where it lies after the epoch.
pub open spec fn saved_from_browser(c: BrowserCookie) -> CookieView {
    built_cookie(
        c.name@,
        c.value@,
        Some(
            if starts_with_seq(c.domain@, "."@) {
                c.domain@
            } else {
                "."@ + c.domain@
            },
        ),
        Some(c.path@),
        Some(c.secure),
        Some(c.http_only),
        c.same_site,
        kept_expiry(Some(expiry_spec(c.expires_bits))),
    )
}

/// The browser's TikTok cookies, in order, as cookies to save.
pub open spec fn saved_from_browser_all(cs: Seq<BrowserCookie>) -> Seq<CookieView>
    decreases cs.len(),
{
    if cs.len() == 0 {
        Seq::empty()
    } else {
        let prev = saved_from_browser_all(cs.drop_last());
        if contains_seq(cs.last().domain@, "tiktok.com"@) {
            prev.push(saved_from_browser(cs.last()))
        } else {
            prev
        }
    }
}

pub fn cookie_to_param(cookies: Vec<BrowserCookie>) -> (r: Vec<CookieSpec>)
    ensures
        views_of(r@) == saved_from_browser_all(cookies@),
{
    let mut r: Vec<CookieSpec> = Vec::new();
    let mut k: usize = 0;
    while k < cookies.len()
        invariant
            k <= cookies@.len(),
            views_of(r@) == saved_from_browser_all(cookies@.take(k as int)),
        decreases cookies@.len() - k,
    {
        proof {
            assert(cookies@.take(k + 1).drop_last() == cookies@.take(k as int));
            assert(cookies@.take(k + 1).last() == cookies@[k as int]);
        }
        let c = &cookies[k];
        if contains(c.domain.as_str(), "tiktok.com") {
            let domain = if starts_with(c.domain.as_str(), ".") {
                c.domain.clone()
            } else {
                let mut d = String::from_str(".");
                d.append(c.domain.as_str());
                d
            };
            let p = build_cookie_param(
                c.name.clone(),
                c.value.clone(),
                Some(domain),
                Some(c.path.clone()),
                Some(c.secure),
                Some(c.http_only),
                c.same_site,
                parse_expires(Some(expiry_from_bits(c.expires_bits))),
            );
            let ghost before = r@;
            r.push(p);
            assert(views_of(r@) =~= views_of(before).push(r@.last()@));
        }
        k = k + 1;
    }
    assert(cookies@.take(cookies@.len() as int) == cookies@);
    r
}

/// `name=value` of every cookie, joined by `; `.
pub open spec fn cookie_header_seq(cs: Seq<CookieView>) -> Seq<char>
    decreases cs.len(),
{
    if cs.len() == 0 {
        Seq::empty()
    } else if cs.len() == 1 {
        cs[0].name + "="@ + cs[0].value
    } else {
        cookie_header_seq(cs.drop_last()) + "; "@ + cs.last().name + "="@ + cs.last().value
    }
}

/// The `Cookie` request header for the cookies.
pub fn cookie_header(params: &Vec<CookieSpec>) -> (r: String)
    ensures
        r@ == cookie_header_seq(views_of(params@)),
{
    let mut s = String::new();
    let mut k: usize = 0;
    while k < params.len()
        invariant
            k <= params@.len(),
            s@ == cookie_header_seq(views_of(params@.take(k as int))),
        decreases params@.len() - k,
    {
        proof {
            assert(views_of(params@.take(k + 1)).drop_last() == views_of(params@.take(k as int)));
            assert(views_of(params@.take(k + 1)).last() == params@[k as int]@);
        }
        if k > 0 {
            s.append("; ");
        } else {
            assert(s@ == Seq::<char>::empty());
        }
        s.append(params[k].name.as_str());
        s.append("=");
        s.append(params[k].value.as_str());
        proof {
            if k == 0 {
                assert(views_of(params@.take(1)).len() == 1);
                assert(s@ =~= cookie_header_seq(views_of(params@.take(1))));
            } else {
                assert(s@ =~= cookie_header_seq(views_of(params@.take(k + 1))));
            }
        }
        k = k + 1;
    }
    assert(params@.take(params@.len() as int) == params@);
    s
}

/// One line of a Netscape cookie file.
pub open spec fn netscape_line(c: CookieView) -> Seq<char> {
    let domain = match c.domain {
        Some(d) => d,
        None => ".tiktok.com"@,
    };
    let include_subdomains = if starts_with_seq(domain, "."@) {
        "TRUE"@
    } else {
        "FALSE"@
    };
    let path = match c.path {
        Some(p) => p,
        None => "/"@,
    };
    let secure = if c.secure == Some(true) {
        "TRUE"@
    } else {
        "FALSE"@
    };
    let expiration: int = match c.expires {
        Some(e) => if e.positive {
            e.whole_seconds as int
        } else {
            0
        },
        None => 0,
    };
    domain + "\t"@ + include_subdomains + "\t"@ + path + "\t"@ + secure + "\t"@
        + signed_decimal_seq(expiration) + "\t"@ + c.name + "\t"@ + c.value
}

/// A newline and the line of each cookie.
pub open spec fn netscape_lines(cs: Seq<CookieView>) -> Seq<char>
    decreases cs.len(),
{
    if cs.len() == 0 {
        Seq::empty()
    } else {
        netscape_lines(cs.drop_last()) + "\n"@ + netscape_line(cs.last())
    }
}

/// A Netscape cookie file (the format `yt-dlp` reads) holding the cookies.
pub open spec fn netscape_text(cs: Seq<CookieView>) -> Seq<char> {
    "# Netscape HTTP Cookie File\n# https://curl.se/docs/http-cookies.html"@ + netscape_lines(cs)
        + "\n"@
}

fn netscape_line_of(c: &CookieSpec) -> (r: String)
    ensures
        r@ == netscape_line(c@),
{
    let domain: &str = match &c.domain {
        Some(d) => d.as_str(),
        None => ".tiktok.com",
    };
    let mut s = String::from_str(domain);
    s.append("\t");
    if starts_with(domain, ".") {
        s.append("TRUE");
    } else {
        s.append("FALSE");
    }
    s.append("\t");
    match &c.path {
        Some(p) => s.append(p.as_str()),
        None => s.append("/"),
    }
    s.append("\t");
    if c.secure == Some(true) {
        s.append("TRUE");
    } else {
        s.append("FALSE");
    }
    s.append("\t");
    let expiration: i64 = match c.expires {
        Some(e) => if e.positive {
            e.whole_seconds
        } else {
            0
        },
        None => 0,
    };
    s.append(i64_to_text(expiration).as_str());
    s.append("\t");
    s.append(c.name.as_str());
    s.append("\t");
    s.append(c.value.as_str());
    s
}

pub fn cookie_params_to_netscape_cookies_txt(params: &Vec<CookieSpec>) -> (r: String)
    ensures
        r@ == netscape_text(views_of(params@)),
{
    let mut s = String::from_str("# Netscape HTTP Cookie File\n# https://curl.se/docs/http-cookies.html");
    let ghost head = s@;
    let mut k: usize = 0;
    while k < params.len()
        invariant
            k <= params@.len(),
            head == "# Netscape HTTP Cookie File\n# https://curl.se/docs/http-cookies.html"@,
            s@ == head + netscape_lines(views_of(params@.take(k as int))),
        decreases params@.len() - k,
    {
        proof {
            assert(views_of(params@.take(k + 1)).drop_last() == views_of(params@.take(k as int)));
            assert(views_of(params@.take(k + 1)).last() == params@[k as int]@);
        }
        s.append("\n");
        s.append(netscape_line_of(&params[k]).as_str());
        assert(s@ =~= head + netscape_lines(views_of(params@.take(k + 1))));
        k = k + 1;
    }
    assert(params@.take(params@.len() as int) == params@);
    s.append("\n");
    s
}

/// The expiry written to the saved cookie file: whole seconds, or -1 for a
/// session cookie.
pub open spec fn saved_expires_spec(e: Option<Expiry>) -> i64 {
    match e {
        Some(x) => if x.positive {
            x.whole_seconds
        } else {
            -1i64
        },
        None => -1i64,
    }
}

pub fn saved_expires(e: Option<Expiry>) -> (r: i64)
    ensures
        r == saved_expires_spec(e),
{
    match e {
        Some(x) => if x.positive {
            x.whole_seconds
        } else {
            -1
        },
        None => -1,
    }
}

/// The text of a `SameSite` attribute in the saved cookie file.
pub fn same_site_label(s: SameSite) -> (r: &'static str)
    ensures
        r@ == match s {
            SameSite::Strict => "Strict"@,
            SameSite::Lax => "Lax"@,
            SameSite::Unrestricted => "None"@,
        },
{
    match s {
        SameSite::Strict => "Strict",
        SameSite::Lax => "Lax",
        SameSite::Unrestricted => "None",
    }
}

/// Why injected cookies did not take.
#[derive(Debug, Clone, Copy, PartialEq, Eq, Structural)]
pub enum InjectionError {
    /// None of the injected names is in the browser.
    NoneApplied,
    /// No login cookie is in the browser.
    MissingSession,
}

/// How many of the browser's cookies have an injected name.
pub open spec fn matched_count(expected: Seq<Seq<char>>, applied: Seq<Seq<char>>) -> nat
    decreases applied.len(),
{
    if applied.len() == 0 {
        0
    } else {
        matched_count(expected, applied.drop_last()) + if expected.contains(applied.last()) {
            1nat
        } else {
            0nat
        }
    }
}

fn contains_name(names: &Vec<String>, n: &String) -> (r: bool)
    ensures
        r == names.deep_view().contains(n@),
{
    let mut k: usize = 0;
    while k < names.len()
        invariant
            k <= names@.len(),
            forall|j: int| 0 <= j < k ==> #[trigger] names.deep_view()[j] != n@,
        decreases names@.len() - k,
    {
        assert(names.deep_view()[k as int] == names@[k as int]@);
        if names[k] == *n {
            return true;
        }
        k = k + 1;
    }
    false
}

/// Checks the browser's cookie names after an injection of the names
/// `expected`: some must have taken, and a login cookie must be there.
/// Returns how many of the browser's cookies have an injected name.
pub fn check_injection(expected: &Vec<String>, applied: &Vec<String>) -> (r: Result<
    usize,
    InjectionError,
>)
    ensures
        match r {
            Ok(n) => n == matched_count(expected.deep_view(), applied.deep_view()) && n > 0
                && any_session_name(applied.deep_view()),
            Err(InjectionError::NoneApplied) => matched_count(
                expected.deep_view(),
                applied.deep_view(),
            ) == 0,
            Err(InjectionError::MissingSession) => matched_count(
                expected.deep_view(),
                applied.deep_view(),
            ) > 0 && !any_session_name(applied.deep_view()),
        },
{
    let ghost ad = applied.deep_view();
    let mut matched: usize = 0;
    let mut k: usize = 0;
    while k < applied.len()
        invariant
            k <= applied@.len(),
            ad == applied.deep_view(),
            matched == matched_count(expected.deep_view(), ad.take(k as int)),
            matched <= k,
        decreases applied@.len() - k,
    {
        proof {
            assert(ad.take(k + 1).drop_last() == ad.take(k as int));
            assert(ad.take(k + 1).last() == applied@[k as int]@);
        }
        if contains_name(expected, &applied[k]) {
            matched = matched + 1;
        }
        k = k + 1;
    }
    assert(ad.take(ad.len() as int) == ad);
    if matched == 0 {
        return Err(InjectionError::NoneApplied);
    }
    if !has_session_cookie(applied) {
        return Err(InjectionError::MissingSession);
    }
    Ok(matched)
}

/// A cookie entry as the saved cookie file holds it.
#[derive(Debug)]
pub struct SavedCookie {
    pub name: String,
    pub value: String,
    pub domain: Option<String>,
    pub path: Option<String>,
    /// Whole seconds, or -1 for a session cookie (`saved_expires`).
    pub expires: i64,
    pub http_only: Option<bool>,
    pub secure: Option<bool>,
    /// Written as its label (`same_site_label`), and left out when absent.
    pub same_site: Option<SameSite>,
}

/// A `SavedCookie` in terms of character sequences.
pub struct SavedCookieView {
    pub name: Seq<char>,
    pub value: Seq<char>,
    pub domain: Option<Seq<char>>,
    pub path: Option<Seq<char>>,
    pub expires: i64,
    pub http_only: Option<bool>,
    pub secure: Option<bool>,
    pub same_site: Option<SameSite>,
}

impl View for SavedCookie {
    type V = SavedCookieView;

    open spec fn view(&self) -> SavedCookieView {
        SavedCookieView {
            name: self.name@,
            value: self.value@,
            domain: opt_view(self.domain),
            path: opt_view(self.path),
            expires: self.expires,
            http_only: self.http_only,
            secure: self.secure,
            same_site: self.same_site,
        }
    }
}

/// The entry saved for a cookie: its URL is dropped and its expiry written
/// as whole seconds.
pub open spec fn saved_of(c: CookieView) -> SavedCookieView {
    SavedCookieView {
        name: c.name,
        value: c.value,
        domain: c.domain,
        path: c.path,
        expires: saved_expires_spec(c.expires),
        http_only: c.http_only,
        secure: c.secure,
        same_site: c.same_site,
    }
}

fn clone_opt_string(o: &Option<String>) -> (r: Option<String>)
    ensures
        opt_view(r) == opt_view(*o),
{
    match o {
        Some(s) => Some(s.clone()),
        None => None,
    }
}

/// The entry the saved cookie file holds for `c`.
pub fn saved_cookie(c: &CookieSpec) -> (r: SavedCookie)
    ensures
        r@ == saved_of(c@),
{
    SavedCookie {
        name: c.name.clone(),
        value: c.value.clone(),
        domain: clone_opt_string(&c.domain),
        path: clone_opt_string(&c.path),
        expires: saved_expires(c.expires),
        http_only: c.http_only,
        secure: c.secure,
        same_site: c.same_site,
    }
}

/// The label of a `SameSite` attribute in the saved cookie file.
pub open spec fn same_site_text(s: SameSite) -> Seq<char> {
    match s {
        SameSite::Strict => "Strict"@,
        SameSite::Lax => "Lax"@,
        SameSite::Unrestricted => "None"@,
    }
}

/// A JSON value written for an optional string: the string, or `null`.
pub open spec fn written_str(o: Option<Seq<char>>, f: JsonField) -> bool {
    match o {
        Some(x) => field_str(f) == Some(x),
        None => f is Other,
    }
}

/// A JSON value written for an optional flag: the flag, or `null`.
pub open spec fn written_bool(o: Option<bool>, f: JsonField) -> bool {
    match o {
        Some(b) => f == JsonField::Bool(b),
        None => f is Other,
    }
}

/// `raw` is what reading back the JSON object written for `s` gives: each
/// key as written (`null` for an absent value, no `sameSite` key for an
/// absent attribute, no `url` key) and the integer expiry read as a number.
pub open spec fn reads_back(s: SavedCookieView, raw: RawCookie) -> bool {
    &&& field_str(raw.name) == Some(s.name)
    &&& field_str(raw.value) == Some(s.value)
    &&& raw.url is Missing
    &&& written_str(s.domain, raw.domain)
    &&& written_str(s.path, raw.path)
    &&& written_bool(s.secure, raw.secure)
    &&& written_bool(s.http_only, raw.http_only)
    &&& raw.http_only_alt is Missing
    &&& match s.same_site {
        Some(x) => field_str(raw.same_site) == Some(same_site_text(x)),
        None => raw.same_site is Missing,
    }
    &&& raw.same_site_alt is Missing
    &&& raw.expires matches Some(x) && x.whole_seconds == s.expires && x.positive == (s.expires > 0)
}

/// A cookie whose domain is a trimmed `.`-prefixed TikTok domain and which
/// has a path: the cookies the browser hands over at login.
pub open spec fn savable(c: CookieView) -> bool {
    &&& c.domain matches Some(d) && trim_seq(d) == d && starts_with_seq(d, "."@) && contains_seq(
        d,
        "tiktok.com"@,
    )
    &&& c.path is Some
}

/// Loading gives back the saved cookie `c` with every attribute it had, no
/// URL, and the expiry kept where it was at least one whole second after the
/// epoch, then in whole seconds.
pub open spec fn loaded_back(p: CookieView, c: CookieView) -> bool {
    &&& p.name == c.name
    &&& p.value == c.value
    &&& p.url is None
    &&& p.domain == c.domain
    &&& p.path == c.path
    &&& p.secure == c.secure
    &&& p.http_only == c.http_only
    &&& p.same_site == c.same_site
    &&& (p.expires is Some <==> (c.expires is Some && c.expires->0.positive
        && c.expires->0.whole_seconds > 0))
    &&& (p.expires is Some ==> p.expires->0.positive && c.expires is Some
        && p.expires->0.whole_seconds == c.expires->0.whole_seconds)
}

proof fn lemma_entry_reads_back(c: CookieView, raw: RawCookie)
    requires
        savable(c),
        reads_back(saved_of(c), raw),
    ensures
        cookie_from_entry(raw) matches Some(p) && loaded_back(p, c),
{
    reveal_strlit("Strict");
    reveal_strlit("Lax");
    reveal_strlit("None");
    reveal_strlit(".");
    let d = c.domain->0;
    assert(d.len() > 0);
    assert(normalized_domain(d) == Some(d));
    assert(is_tiktok_entry(raw));
    assert("Lax"@ != "Strict"@) by {
        assert("Lax"@.len() != "Strict"@.len());
    }
    assert("None"@ != "Strict"@) by {
        assert("None"@.len() != "Strict"@.len());
    }
    assert("None"@ != "Lax"@) by {
        assert("None"@[0] != "Lax"@[0]);
    }
    match c.same_site {
        Some(x) => {
            assert(raw.same_site !is Missing);
            assert(field_or(raw.same_site, raw.same_site_alt) == raw.same_site);
        },
        None => {},
    }
    assert(same_site_of(raw) == c.same_site);
}

proof fn lemma_entries_all_read(entries: Seq<RawCookie>)
    requires
        forall|i: int| 0 <= i < entries.len() ==> #[trigger] cookie_from_entry(entries[i]) is Some,
    ensures
        cookies_from_entries(entries).len() == entries.len(),
        forall|i: int| 0 <= i < entries.len() ==> cookie_from_entry(#[trigger] entries[i]) == Some(
            cookies_from_entries(entries)[i],
        ),
    decreases entries.len(),
{
    if entries.len() > 0 {
        let prev = entries.drop_last();
        assert forall|i: int| 0 <= i < prev.len() implies #[trigger] cookie_from_entry(prev[i]) is Some by {
            assert(prev[i] == entries[i]);
        }
        lemma_entries_all_read(prev);
        assert(cookie_from_entry(entries[entries.len() - 1]) is Some);
        assert forall|i: int| 0 <= i < entries.len() implies cookie_from_entry(#[trigger] entries[i])
            == Some(cookies_from_entries(entries)[i]) by {
            if i < entries.len() - 1 {
                assert(prev[i] == entries[i]);
            }
        }
    }
}

/// Saving cookies and loading the file back: each savable cookie comes back
/// in its place with its name, value, domain, path, flags and `SameSite`
/// attribute, and with its expiry where it was at least a second after the
/// epoch (in whole seconds).
pub proof fn law_saved_cookies_load_back(cs: Seq<CookieView>, loaded: Seq<RawCookie>)
    requires
        loaded.len() == cs.len(),
        forall|i: int| 0 <= i < cs.len() ==> savable(#[trigger] cs[i]),
        forall|i: int| 0 <= i < cs.len() ==> reads_back(saved_of(#[trigger] cs[i]), loaded[i]),
    ensures
        cookies_from_entries(loaded).len() == cs.len(),
        forall|i: int| 0 <= i < cs.len() ==> loaded_back(#[trigger] cookies_from_entries(loaded)[i], cs[i]),
{
    assert forall|i: int| 0 <= i < loaded.len() implies #[trigger] cookie_from_entry(loaded[i]) is Some by {
        lemma_entry_reads_back(cs[i], loaded[i]);
    }
    lemma_entries_all_read(loaded);
    assert forall|i: int| 0 <= i < cs.len() implies loaded_back(#[trigger] cookies_from_entries(loaded)[i], cs[i]) by {
        lemma_entry_reads_back(cs[i], loaded[i]);
        assert(cookie_from_entry(loaded[i]) == Some(cookies_from_entries(loaded)[i]));
    }
}

/// The expiry whose time has the bit pattern `bits`.
pub open spec fn expiry_spec(bits: u64) -> Expiry {
    Expiry { bits, positive: binary64_positive(bits), whole_seconds: binary64_as_i64(bits) }
}

/// The expiry whose time has the bit pattern `bits`: whether it lies after
/// the epoch, and its whole seconds.
pub fn expiry_from_bits(bits: u64) -> (r: Expiry)
    ensures
        r == expiry_spec(bits),
{
    Expiry { bits, positive: binary64_is_positive(bits), whole_seconds: binary64_to_i64(bits) }
}

/// Every saved expiry is an integer of at most 2^53 in size, which a 64-bit
/// double holds exactly.
pub open spec fn expiries_exact(cs: Seq<SavedCookieView>) -> bool {
    forall|i: int| 0 <= i < cs.len() ==> -0x20_0000_0000_0000 <= #[trigger] cs[i].expires <= 0x20_0000_0000_0000
}

/// The objects `os` read back the saved entries `cs`, one for one.
pub open spec fn objects_read_back(cs: Seq<SavedCookieView>, os: Seq<Seq<(Seq<char>, JsonField)>>) -> bool {
    &&& os.len() == cs.len()
    &&& forall|i: int| 0 <= i < cs.len() ==> reads_back(#[trigger] cs[i], raw_of_object(os[i]))
}

/// The members of each object in the `cookies` array of the JSON document
/// `text` (each value as a `JsonField`, an entry that is no object having
/// none); `None` where `text` is no JSON or has no `cookies` array.
pub uninterp spec fn json_cookie_objects(text: Seq<char>) -> Option<Seq<Seq<(Seq<char>, JsonField)>>>;

pub open spec fn objects_view(v: Seq<Vec<(String, JsonField)>>) -> Seq<Seq<(Seq<char>, JsonField)>> {
    v.map_values(|o: Vec<(String, JsonField)>| o@.map_values(|p: (String, JsonField)| (p.0@, p.1)))
}

/// Trusted: `serde_json::from_str::<serde_json::Value>`, then `Value::get`
/// of `"cookies"` and `Value::as_array`; each array entry's members (through
/// `Value::as_object`) converted one for one, numbers through
/// `Value::as_f64` and `to_bits`. The contract names the result, and states
/// one fact that serde_json's parser shows (`de.rs`: a string literal reads
/// back its unescaped characters, `null` is `Value::Null`, `true`/`false`
/// are booleans, an integer is a number whose `as_f64` is the integer
/// converted, exactly where it is at most 2^53 in size; object members are
/// kept by key): the text of the saved cookie file (`saved_cookies_text`)
/// reads back each saved entry.
#[verifier::external_body]
fn cookie_objects_from_json(text: &str) -> (r: Option<Vec<Vec<(String, JsonField)>>>)
    ensures
        match r {
            Some(v) => json_cookie_objects(text@) == Some(objects_view(v@)),
            None => json_cookie_objects(text@) is None,
        },
        r is None ==> forall|cs: Seq<SavedCookieView>|
            !(text@ == #[trigger] saved_cookies_text(cs) && expiries_exact(cs)),
        r matches Some(v) ==> forall|cs: Seq<SavedCookieView>|
            text@ == #[trigger] saved_cookies_text(cs) && expiries_exact(cs) ==> objects_read_back(
                cs,
                objects_view(v@),
            ),
{
    let data: serde_json::Value = serde_json::from_str(text).ok()?;
    let mut out = Vec::new();
    for entry in data.get("cookies")?.as_array()? {
        let mut members = Vec::new();
        for (k, v) in entry.as_object().into_iter().flatten() {
            members.push((k.clone(), match (v, v.as_f64()) {
                (serde_json::Value::String(s), _) => JsonField::Str(s.clone()),
                (serde_json::Value::Bool(b), _) => JsonField::Bool(*b),
                (serde_json::Value::Number(_), Some(t)) => JsonField::Number(t.to_bits()),
                _ => JsonField::Other,
            }));
        }
        out.push(members);
    }
    Some(out)
}

/// The value of the first member named `key`, or `Missing`.
pub open spec fn member(fields: Seq<(Seq<char>, JsonField)>, key: Seq<char>) -> JsonField
    decreases fields.len(),
{
    if fields.len() == 0 {
        JsonField::Missing
    } else if fields[0].0 == key {
        fields[0].1
    } else {
        member(fields.drop_first(), key)
    }
}

/// The saved cookie entry that a JSON object with `fields` describes; the
/// expiry is kept where `expires` is a number.
pub open spec fn raw_of_object(fields: Seq<(Seq<char>, JsonField)>) -> RawCookie {
    RawCookie {
        domain: member(fields, "domain"@),
        url: member(fields, "url"@),
        name: member(fields, "name"@),
        value: member(fields, "value"@),
        path: member(fields, "path"@),
        secure: member(fields, "secure"@),
        http_only: member(fields, "httpOnly"@),
        http_only_alt: member(fields, "http_only"@),
        same_site: member(fields, "sameSite"@),
        same_site_alt: member(fields, "same_site"@),
        expires: match member(fields, "expires"@) {
            JsonField::Number(b) => Some(expiry_spec(b)),
            _ => None,
        },
    }
}

/// The saved cookie entries of a cookie file's text; `None` where it is no
/// JSON or has no `cookies` array.
pub open spec fn json_cookie_entries(text: Seq<char>) -> Option<Seq<RawCookie>> {
    match json_cookie_objects(text) {
        Some(os) => Some(os.map_values(|o: Seq<(Seq<char>, JsonField)>| raw_of_object(o))),
        None => None,
    }
}

fn copy_field(f: &JsonField) -> (r: JsonField)
    ensures
        r == *f,
{
    match f {
        JsonField::Missing => JsonField::Missing,
        JsonField::Str(s) => JsonField::Str(s.clone()),
        JsonField::Bool(b) => JsonField::Bool(*b),
        JsonField::Number(n) => JsonField::Number(*n),
        JsonField::Other => JsonField::Other,
    }
}

fn member_of(fields: &Vec<(String, JsonField)>, key: &str) -> (r: JsonField)
    ensures
        r == member(fields@.map_values(|p: (String, JsonField)| (p.0@, p.1)), key@),
{
    let ghost fs = fields@.map_values(|p: (String, JsonField)| (p.0@, p.1));
    assert(fs.skip(0) == fs);
    let mut k: usize = 0;
    while k < fields.len()
        invariant
            k <= fields@.len(),
            fs == fields@.map_values(|p: (String, JsonField)| (p.0@, p.1)),
            member(fs, key@) == member(fs.skip(k as int), key@),
        decreases fields@.len() - k,
    {
        proof {
            assert(fs.skip(k as int).drop_first() == fs.skip(k + 1));
            assert(fs.skip(k as int)[0] == fs[k as int]);
        }
        if str_eq(fields[k].0.as_str(), key) {
            return copy_field(&fields[k].1);
        }
        k = k + 1;
    }
    assert(fs.skip(k as int).len() == 0);
    JsonField::Missing
}

fn raw_from_object(fields: &Vec<(String, JsonField)>) -> (r: RawCookie)
    ensures
        r == raw_of_object(fields@.map_values(|p: (String, JsonField)| (p.0@, p.1))),
{
    let expires = match member_of(fields, "expires") {
        JsonField::Number(b) => Some(expiry_from_bits(b)),
        _ => None,
    };
    RawCookie {
        domain: member_of(fields, "domain"),
        url: member_of(fields, "url"),
        name: member_of(fields, "name"),
        value: member_of(fields, "value"),
        path: member_of(fields, "path"),
        secure: member_of(fields, "secure"),
        http_only: member_of(fields, "httpOnly"),
        http_only_alt: member_of(fields, "http_only"),
        same_site: member_of(fields, "sameSite"),
        same_site_alt: member_of(fields, "same_site"),
        expires,
    }
}

/// The saved cookie entries of a cookie file's text.
pub fn cookie_entries_from_json(text: &str) -> (r: Option<Vec<RawCookie>>)
    ensures
        match r {
            Some(v) => json_cookie_entries(text@) == Some(v@),
            None => json_cookie_entries(text@) is None,
        },
        forall|cs: Seq<SavedCookieView>|
            text@ == #[trigger] saved_cookies_text(cs) && expiries_exact(cs) ==> (r matches Some(v)
                && v@.len() == cs.len() && forall|i: int|
                0 <= i < cs.len() ==> reads_back(#[trigger] cs[i], v@[i])),
{
    let objects = match cookie_objects_from_json(text) {
        Some(o) => o,
        None => return None,
    };
    let ghost ov = objects_view(objects@);
    let mut out: Vec<RawCookie> = Vec::new();
    let mut k: usize = 0;
    while k < objects.len()
        invariant
            k <= objects@.len(),
            ov == objects_view(objects@),
            out@.len() == k,
            forall|j: int| 0 <= j < k ==> #[trigger] out@[j] == raw_of_object(ov[j]),
        decreases objects@.len() - k,
    {
        out.push(raw_from_object(&objects[k]));
        k = k + 1;
    }
    assert(out@ =~= ov.map_values(|o: Seq<(Seq<char>, JsonField)>| raw_of_object(o)));
    proof {
        assert forall|cs: Seq<SavedCookieView>|
            text@ == #[trigger] saved_cookies_text(cs) && expiries_exact(cs) implies (out@.len()
                == cs.len() && forall|i: int| 0 <= i < cs.len() ==> reads_back(#[trigger] cs[i], out@[i])) by {
            assert(objects_read_back(cs, ov));
            assert forall|i: int| 0 <= i < cs.len() implies reads_back(#[trigger] cs[i], out@[i]) by {
                assert(reads_back(cs[i], raw_of_object(ov[i])));
            }
        }
    }
    Some(out)
}

/// Why a cookie file gives no cookies.
#[derive(Debug, Clone, Copy, PartialEq, Eq, Structural)]
pub enum CookieFileError {
    /// The text is no JSON, or has no `cookies` array.
    NoCookieArray,
}

/// The cookies of a cookie file's text: those of its TikTok entries, in
/// order.
/// The entries saved for the cookies `cs`, in order.
pub open spec fn saved_of_all(cs: Seq<CookieView>) -> Seq<SavedCookieView> {
    cs.map_values(|c: CookieView| saved_of(c))
}

/// Loading what `saved_cookies_json` wrote for the savable cookies `cs`
/// (with expiries of at most 2^53 seconds) gives each back in its place
/// (`loaded_back`).
pub fn load_cookie_params_from_text(text: &str) -> (r: Result<Vec<CookieSpec>, CookieFileError>)
    ensures
        match json_cookie_entries(text@) {
            None => r == Err::<Vec<CookieSpec>, CookieFileError>(CookieFileError::NoCookieArray),
            Some(es) => r matches Ok(ps) && views_of(ps@) == cookies_from_entries(es),
        },
        forall|cs: Seq<CookieView>|
            (forall|i: int| 0 <= i < cs.len() ==> savable(#[trigger] cs[i])) && expiries_exact(
                saved_of_all(cs),
            ) && text@ == #[trigger] saved_cookies_text(saved_of_all(cs))
                ==> (r matches Ok(ps) && ps@.len() == cs.len() && forall|i: int|
                0 <= i < cs.len() ==> loaded_back(#[trigger] ps@[i]@, cs[i])),
{
    match cookie_entries_from_json(text) {
        Some(entries) => {
            let ps = load_cookie_params(&entries);
            proof {
                assert forall|cs: Seq<CookieView>|
                    (forall|i: int| 0 <= i < cs.len() ==> savable(#[trigger] cs[i])) && expiries_exact(
                        saved_of_all(cs),
                    ) && text@ == #[trigger] saved_cookies_text(
                        saved_of_all(cs),
                    ) implies (ps@.len() == cs.len() && forall|i: int|
                    0 <= i < cs.len() ==> loaded_back(#[trigger] ps@[i]@, cs[i])) by {
                    let scs = saved_of_all(cs);
                    assert(entries@.len() == scs.len());
                    assert forall|i: int| 0 <= i < cs.len() implies reads_back(
                        saved_of(#[trigger] cs[i]),
                        entries@[i],
                    ) by {
                        assert(scs[i] == saved_of(cs[i]));
                        assert(reads_back(scs[i], entries@[i]));
                    }
                    law_saved_cookies_load_back(cs, entries@);
                    assert(views_of(ps@).len() == ps@.len());
                    assert forall|i: int| 0 <= i < cs.len() implies loaded_back(#[trigger] ps@[i]@, cs[i]) by {
                        assert(views_of(ps@)[i] == ps@[i]@);
                        assert(cookies_from_entries(entries@)[i] == ps@[i]@);
                    }
                }
            }
            Ok(ps)
        },
        None => Err(CookieFileError::NoCookieArray),
    }
}

/// Whether a cookie file's text holds a non-empty `cookies` array.
pub fn cookies_text_has_any(text: &str) -> (r: bool)
    ensures
        r == (json_cookie_entries(text@) matches Some(es) && es.len() > 0),
{
    match cookie_entries_from_json(text) {
        Some(entries) => entries.len() > 0,
        None => false,
    }
}

/// The hexadecimal digit `d` (0 to 15), lower case.
pub open spec fn hex_digit(d: nat) -> char {
    "0123456789abcdef"@[d as int]
}

/// How a JSON string writes the character `c`: `"` and `\` and the control
/// characters escaped (the short forms where JSON has them, else `\u00XX`),
/// every other character as itself.
pub open spec fn json_escape_char(c: char) -> Seq<char> {
    if c == '"' {
        "\\\""@
    } else if c == '\\' {
        "\\\\"@
    } else if c == '\u{8}' {
        "\\b"@
    } else if c == '\t' {
        "\\t"@
    } else if c == '\n' {
        "\\n"@
    } else if c == '\u{c}' {
        "\\f"@
    } else if c == '\r' {
        "\\r"@
    } else if (c as u32) < 0x20 {
        "\\u00"@ + seq![hex_digit(((c as u32) / 16) as nat), hex_digit(((c as u32) % 16) as nat)]
    } else {
        seq![c]
    }
}

/// The characters of `s`, each as a JSON string writes it.
pub open spec fn json_escaped(s: Seq<char>) -> Seq<char>
    decreases s.len(),
{
    if s.len() == 0 {
        Seq::empty()
    } else {
        json_escaped(s.drop_last()) + json_escape_char(s.last())
    }
}

/// `s` as a JSON string literal.
pub open spec fn json_string(s: Seq<char>) -> Seq<char> {
    "\""@ + json_escaped(s) + "\""@
}

/// `s` as a JSON string literal.
pub fn json_string_literal(s: &str) -> (r: String)
    ensures
        r@ == json_string(s@),
{
    let mut out = String::from_str("\"");
    let n = s.unicode_len();
    let mut i: usize = 0;
    while i < n
        invariant
            n == s@.len(),
            i <= n,
            out@ == "\""@ + json_escaped(s@.take(i as int)),
        decreases n - i,
    {
        let c = s.get_char(i);
        proof {
            assert(s@.take(i + 1).drop_last() == s@.take(i as int));
            assert(s@.take(i + 1).last() == c);
        }
        let ghost before = out@;
        if c == '"' {
            out.append("\\\"");
        } else if c == '\\' {
            out.append("\\\\");
        } else if c == '\u{8}' {
            out.append("\\b");
        } else if c == '\t' {
            out.append("\\t");
        } else if c == '\n' {
            out.append("\\n");
        } else if c == '\u{c}' {
            out.append("\\f");
        } else if c == '\r' {
            out.append("\\r");
        } else if (c as u32) < 0x20 {
            let hex = "0123456789abcdef";
            proof {
                reveal_strlit("0123456789abcdef");
            }
            let hi = ((c as u32) / 16) as usize;
            let lo = ((c as u32) % 16) as usize;
            out.append("\\u00");
            out.append(hex.substring_char(hi, hi + 1));
            out.append(hex.substring_char(lo, lo + 1));
            assert(out@ =~= before + json_escape_char(c));
        } else {
            out.append(s.substring_char(i, i + 1));
            assert(out@ =~= before + json_escape_char(c));
        }
        assert(out@ =~= "\""@ + json_escaped(s@.take(i + 1)));
        i = i + 1;
    }
    assert(s@.take(n as int) == s@);
    out.append("\"");
    out
}

/// An optional string in JSON: the string literal, or `null`.
pub open spec fn json_opt_string(o: Option<Seq<char>>) -> Seq<char> {
    match o {
        Some(x) => json_string(x),
        None => "null"@,
    }
}

/// An optional flag in JSON: `true`, `false` or `null`.
pub open spec fn json_opt_bool(o: Option<bool>) -> Seq<char> {
    match o {
        Some(true) => "true"@,
        Some(false) => "false"@,
        None => "null"@,
    }
}

/// One saved cookie as an object of the saved cookie file, members in
/// sorted order, indented for its place in the `cookies` array; the
/// `sameSite` member is present only where the attribute is.
pub open spec fn saved_cookie_json(c: SavedCookieView) -> Seq<char> {
    "    {\n      \"domain\": "@ + json_opt_string(c.domain) + ",\n      \"expires\": "@
        + signed_decimal_seq(c.expires as int) + ",\n      \"httpOnly\": "@ + json_opt_bool(
        c.http_only,
    ) + ",\n      \"name\": "@ + json_string(c.name) + ",\n      \"path\": "@ + json_opt_string(
        c.path,
    ) + match c.same_site {
        Some(x) => ",\n      \"sameSite\": "@ + json_string(same_site_text(x)),
        None => Seq::empty(),
    } + ",\n      \"secure\": "@ + json_opt_bool(c.secure) + ",\n      \"value\": "@ + json_string(
        c.value,
    ) + "\n    }"@
}

/// The saved cookie objects, separated by `,` and a line break.
pub open spec fn saved_cookies_joined(cs: Seq<SavedCookieView>) -> Seq<char>
    decreases cs.len(),
{
    if cs.len() <= 1 {
        if cs.len() == 1 {
            saved_cookie_json(cs[0])
        } else {
            Seq::empty()
        }
    } else {
        saved_cookies_joined(cs.drop_last()) + ",\n"@ + saved_cookie_json(cs.last())
    }
}

/// The text of the saved cookie file: an object whose `cookies` member is
/// the array of the saved cookies, laid out with two-space indentation.
pub open spec fn saved_cookies_text(cs: Seq<SavedCookieView>) -> Seq<char> {
    if cs.len() == 0 {
        "{\n  \"cookies\": []\n}"@
    } else {
        "{\n  \"cookies\": [\n"@ + saved_cookies_joined(cs) + "\n  ]\n}"@
    }
}

pub open spec fn saved_views(cs: Seq<SavedCookie>) -> Seq<SavedCookieView> {
    cs.map_values(|c: SavedCookie| c@)
}

fn append_opt_string(out: &mut String, o: &Option<String>)
    ensures
        final(out)@ == old(out)@ + json_opt_string(opt_view(*o)),
{
    match o {
        Some(x) => out.append(json_string_literal(x.as_str()).as_str()),
        None => out.append("null"),
    }
}

fn append_opt_bool(out: &mut String, o: Option<bool>)
    ensures
        final(out)@ == old(out)@ + json_opt_bool(o),
{
    match o {
        Some(true) => out.append("true"),
        Some(false) => out.append("false"),
        None => out.append("null"),
    }
}

fn saved_cookie_text(c: &SavedCookie) -> (r: String)
    ensures
        r@ == saved_cookie_json(c@),
{
    let mut out = String::from_str("    {\n      \"domain\": ");
    append_opt_string(&mut out, &c.domain);
    out.append(",\n      \"expires\": ");
    out.append(i64_to_text(c.expires).as_str());
    out.append(",\n      \"httpOnly\": ");
    append_opt_bool(&mut out, c.http_only);
    out.append(",\n      \"name\": ");
    out.append(json_string_literal(c.name.as_str()).as_str());
    out.append(",\n      \"path\": ");
    append_opt_string(&mut out, &c.path);
    let ghost mid = out@;
    match c.same_site {
        Some(x) => {
            out.append(",\n      \"sameSite\": ");
            let label = same_site_label(x);
            out.append(json_string_literal(label).as_str());
            assert(out@ == mid + (",\n      \"sameSite\": "@ + json_string(same_site_text(x))));
        },
        None => {
            assert(out@ == mid + Seq::<char>::empty());
        },
    }
    out.append(",\n      \"secure\": ");
    append_opt_bool(&mut out, c.secure);
    out.append(",\n      \"value\": ");
    out.append(json_string_literal(c.value.as_str()).as_str());
    out.append("\n    }");
    assert(out@ =~= saved_cookie_json(c@));
    out
}

/// The text of the saved cookie file for the entries `cs`.
pub fn saved_cookies_json(cs: &Vec<SavedCookie>) -> (r: String)
    ensures
        r@ == saved_cookies_text(saved_views(cs@)),
{
    if cs.len() == 0 {
        return String::from_str("{\n  \"cookies\": []\n}");
    }
    let mut out = String::from_str("{\n  \"cookies\": [\n");
    let ghost head = out@;
    let mut k: usize = 0;
    while k < cs.len()
        invariant
            k <= cs@.len(),
            cs@.len() > 0,
            out@ == head + saved_cookies_joined(saved_views(cs@.take(k as int))),
        decreases cs@.len() - k,
    {
        proof {
            assert(saved_views(cs@.take(k + 1)).drop_last() == saved_views(cs@.take(k as int)));
            assert(saved_views(cs@.take(k + 1)).last() == cs@[k as int]@);
        }
        let ghost before = out@;
        if k > 0 {
            out.append(",\n");
        }
        out.append(saved_cookie_text(&cs[k]).as_str());
        proof {
            if k == 0 {
                assert(saved_views(cs@.take(1)).len() == 1);
                assert(saved_views(cs@.take(1))[0] == cs@[0]@);
            }
        }
        assert(out@ =~= head + saved_cookies_joined(saved_views(cs@.take(k + 1))));
        k = k + 1;
    }
    assert(cs@.take(cs@.len() as int) == cs@);
    out.append("\n  ]\n}");
    assert(out@ =~= saved_cookies_text(saved_views(cs@)));
    out
}

} // verus!
