//! Character-level helpers with the semantics of the corresponding `str`
//! methods of the standard library.

use vstd::prelude::*;

verus! {

/// The Unicode `White_Space` property, which `char::is_whitespace` tests.
pub open spec fn is_ws(c: char) -> bool {
    let u = c as u32;
    ||| (0x09 <= u && u <= 0x0D)
    ||| u == 0x20
    ||| u == 0x85
    ||| u == 0xA0
    ||| u == 0x1680
    ||| (0x2000 <= u && u <= 0x200A)
    ||| u == 0x2028
    ||| u == 0x2029
    ||| u == 0x202F
    ||| u == 0x205F
    ||| u == 0x3000
}

/// `s` with its trailing whitespace removed.
pub open spec fn trim_end_seq(s: Seq<char>) -> Seq<char>
    decreases s.len(),
{
    if s.len() > 0 && is_ws(s.last()) {
        trim_end_seq(s.drop_last())
    } else {
        s
    }
}

/// `s` with its leading whitespace removed.
pub open spec fn trim_start_seq(s: Seq<char>) -> Seq<char>
    decreases s.len(),
{
    if s.len() > 0 && is_ws(s[0]) {
        trim_start_seq(s.drop_first())
    } else {
        s
    }
}

/// `s` with leading and trailing whitespace removed, as `str::trim` does.
pub open spec fn trim_seq(s: Seq<char>) -> Seq<char> {
    trim_start_seq(trim_end_seq(s))
}

pub fn is_whitespace(c: char) -> (r: bool)
    ensures
        r == is_ws(c),
{
    let u = c as u32;
    (0x09 <= u && u <= 0x0D) || u == 0x20 || u == 0x85 || u == 0xA0 || u == 0x1680 || (0x2000
        <= u && u <= 0x200A) || u == 0x2028 || u == 0x2029 || u == 0x202F || u == 0x205F || u
        == 0x3000
}

proof fn lemma_trim_end_prefix(s: Seq<char>, k: int)
    requires
        0 <= k <= s.len(),
        forall|j: int| k <= j < s.len() ==> is_ws(#[trigger] s[j]),
    ensures
        trim_end_seq(s) == trim_end_seq(s.subrange(0, k)),
    decreases s.len() - k,
{
    if k < s.len() {
        assert(s.drop_last() == s.subrange(0, s.len() - 1));
        lemma_trim_end_prefix(s.drop_last(), k);
        assert(s.drop_last().subrange(0, k) == s.subrange(0, k));
    } else {
        assert(s.subrange(0, k) == s);
    }
}

proof fn lemma_trim_start_suffix(s: Seq<char>, k: int)
    requires
        0 <= k <= s.len(),
        forall|j: int| 0 <= j < k ==> is_ws(#[trigger] s[j]),
    ensures
        trim_start_seq(s) == trim_start_seq(s.subrange(k, s.len() as int)),
    decreases k,
{
    if k > 0 {
        lemma_trim_start_suffix(s.drop_first(), k - 1);
        assert(s.drop_first().subrange(k - 1, s.drop_first().len() as int) == s.subrange(
            k,
            s.len() as int,
        ));
    } else {
        assert(s.subrange(0, s.len() as int) == s);
    }
}

/// The number of characters that remain after trailing whitespace is dropped.
fn trimmed_end(s: &str) -> (end: usize)
    ensures
        end <= s@.len(),
        trim_end_seq(s@) == s@.subrange(0, end as int),
{
    let mut end = s.unicode_len();
    while end > 0 && is_whitespace(s.get_char(end - 1))
        invariant
            end <= s@.len(),
            forall|j: int| end <= j < s@.len() ==> is_ws(#[trigger] s@[j]),
        decreases end,
    {
        end = end - 1;
    }
    proof {
        lemma_trim_end_prefix(s@, end as int);
        let p = s@.subrange(0, end as int);
        if p.len() > 0 {
            assert(p.last() == s@[end - 1]);
        }
    }
    end
}

/// `s` without trailing whitespace (`str::trim_end`).
pub fn trim_end(s: &str) -> (r: &str)
    ensures
        r@ == trim_end_seq(s@),
{
    let end = trimmed_end(s);
    s.substring_char(0, end)
}

/// `s` without leading and trailing whitespace (`str::trim`).
pub fn trim(s: &str) -> (r: &str)
    ensures
        r@ == trim_seq(s@),
{
    let end = trimmed_end(s);
    let mut start: usize = 0;
    while start < end && is_whitespace(s.get_char(start))
        invariant
            start <= end <= s@.len(),
            forall|j: int| 0 <= j < start ==> is_ws(#[trigger] s@[j]),
        decreases end - start,
    {
        start = start + 1;
    }
    proof {
        let p = s@.subrange(0, end as int);
        assert forall|j: int| 0 <= j < start implies is_ws(#[trigger] p[j]) by {
            assert(p[j] == s@[j]);
        }
        lemma_trim_start_suffix(p, start as int);
        let q = p.subrange(start as int, p.len() as int);
        assert(q == s@.subrange(start as int, end as int));
        if q.len() > 0 {
            assert(q[0] == s@[start as int]);
        }
    }
    s.substring_char(start, end)
}


/// `s` ends with `t` (`str::ends_with`).
pub open spec fn ends_with_seq(s: Seq<char>, t: Seq<char>) -> bool {
    t.len() <= s.len() && s.subrange(s.len() - t.len(), s.len() as int) == t
}

/// `s` starts with `t` (`str::starts_with`).
pub open spec fn starts_with_seq(s: Seq<char>, t: Seq<char>) -> bool {
    t.len() <= s.len() && s.subrange(0, t.len() as int) == t
}

/// `t` occurs in `s` at position `i`.
pub open spec fn occurs_at(s: Seq<char>, t: Seq<char>, i: int) -> bool {
    0 <= i && i + t.len() <= s.len() && s.subrange(i, i + t.len()) == t
}

/// `t` occurs somewhere in `s` (`str::contains`).
pub open spec fn contains_seq(s: Seq<char>, t: Seq<char>) -> bool {
    exists|i: int| occurs_at(s, t, i)
}

/// Whether `s` holds `t` at character position `i`.
fn matches_at(s: &str, slen: usize, t: &str, tlen: usize, i: usize) -> (r: bool)
    requires
        slen == s@.len(),
        tlen == t@.len(),
        i + tlen <= slen,
    ensures
        r == (s@.subrange(i as int, i + tlen) == t@),
{
    let mut k: usize = 0;
    while k < tlen
        invariant
            slen == s@.len(),
            tlen == t@.len(),
            i + tlen <= slen,
            k <= tlen,
            forall|j: int| 0 <= j < k ==> s@[i + j] == t@[j],
        decreases tlen - k,
    {
        if s.get_char(i + k) != t.get_char(k) {
            assert(s@.subrange(i as int, i + tlen)[k as int] != t@[k as int]);
            return false;
        }
        k = k + 1;
    }
    assert(s@.subrange(i as int, i + tlen) =~= t@);
    true
}

/// `str::ends_with`.
pub fn ends_with(s: &str, t: &str) -> (r: bool)
    ensures
        r == ends_with_seq(s@, t@),
{
    let slen = s.unicode_len();
    let tlen = t.unicode_len();
    if tlen > slen {
        return false;
    }
    matches_at(s, slen, t, tlen, slen - tlen)
}

/// `str::starts_with`.
pub fn starts_with(s: &str, t: &str) -> (r: bool)
    ensures
        r == starts_with_seq(s@, t@),
{
    let slen = s.unicode_len();
    let tlen = t.unicode_len();
    if tlen > slen {
        return false;
    }
    matches_at(s, slen, t, tlen, 0)
}

/// `str::contains` for a string pattern.
pub fn contains(s: &str, t: &str) -> (r: bool)
    ensures
        r == contains_seq(s@, t@),
{
    let slen = s.unicode_len();
    let tlen = t.unicode_len();
    if tlen > slen {
        assert forall|i: int| !occurs_at(s@, t@, i) by {}
        return false;
    }
    let last = slen - tlen;
    let mut i: usize = 0;
    loop
        invariant
            slen == s@.len(),
            tlen == t@.len(),
            last == slen - tlen,
            i <= last,
            forall|j: int| 0 <= j < i ==> !occurs_at(s@, t@, j),
        ensures
            forall|j: int| 0 <= j <= last ==> !occurs_at(s@, t@, j),
        decreases last - i,
    {
        if matches_at(s, slen, t, tlen, i) {
            assert(occurs_at(s@, t@, i as int));
            return true;
        }
        if i == last {
            break;
        }
        i = i + 1;
    }
    assert forall|j: int| !occurs_at(s@, t@, j) by {
        if 0 <= j && j + tlen <= slen {
            assert(j <= last);
        }
    }
    false
}


pub open spec fn is_digit(c: char) -> bool {
    '0' <= c && c <= '9'
}

pub open spec fn digit_value(c: char) -> nat {
    ((c as u32) - ('0' as u32)) as nat
}

pub open spec fn all_digits(s: Seq<char>) -> bool {
    forall|i: int| 0 <= i < s.len() ==> is_digit(#[trigger] s[i])
}

/// The number that the decimal digits `s` spell.
pub open spec fn digits_value(s: Seq<char>) -> nat
    decreases s.len(),
{
    if s.len() == 0 {
        0
    } else {
        digits_value(s.drop_last()) * 10 + digit_value(s.last())
    }
}

/// What `str::parse::<u64>` gives back: an optional `+`, then one or more
/// ASCII digits whose value fits.
pub open spec fn parse_unsigned_spec(s: Seq<char>, max: int) -> Option<nat> {
    let body = if s.len() > 0 && s[0] == '+' {
        s.skip(1)
    } else {
        s
    };
    if body.len() > 0 && all_digits(body) && digits_value(body) <= max {
        Some(digits_value(body))
    } else {
        None
    }
}

/// What `str::parse::<i64>` gives back: an optional sign, then one or more
/// ASCII digits whose signed value fits in an `i64`.
pub open spec fn parse_i64_spec(s: Seq<char>) -> Option<i64> {
    let neg = s.len() > 0 && s[0] == '-';
    let body = if s.len() > 0 && (s[0] == '-' || s[0] == '+') {
        s.skip(1)
    } else {
        s
    };
    if body.len() > 0 && all_digits(body) {
        let v: int = if neg {
            -(digits_value(body) as int)
        } else {
            digits_value(body) as int
        };
        if i64::MIN <= v && v <= i64::MAX {
            Some(v as i64)
        } else {
            None
        }
    } else {
        None
    }
}

/// What `str::parse::<u32>` gives back.
pub open spec fn parse_u32_spec(s: Seq<char>) -> Option<u32> {
    match parse_unsigned_spec(s, u32::MAX as int) {
        Some(v) => Some(v as u32),
        None => None,
    }
}

proof fn lemma_digits_value_step(s: Seq<char>, i: int)
    requires
        0 <= i < s.len(),
    ensures
        digits_value(s.subrange(0, i + 1)) == digits_value(s.subrange(0, i)) * 10 + digit_value(
            s[i],
        ),
{
    assert(s.subrange(0, i + 1).drop_last() == s.subrange(0, i));
}

/// The value of the digits of `s` from `start` on: `None` where one is not an
/// ASCII digit, where there are none, or where the value exceeds `u64::MAX`
/// (flagged by the second component).
fn digits_from(s: &str, n: usize, start: usize) -> (r: (Option<u64>, bool))
    requires
        n == s@.len(),
        start <= n,
    ensures
        ({
            let body = s@.subrange(start as int, n as int);
            match r.0 {
                Some(v) => body.len() > 0 && all_digits(body) && v == digits_value(body),
                None => r.1 ==> (body.len() > 0 && all_digits(body) && digits_value(body)
                    > u64::MAX),
            }
        }),
        r.0 is None && !r.1 ==> !(s@.subrange(start as int, n as int).len() > 0 && all_digits(
            s@.subrange(start as int, n as int),
        )),
{
    let ghost body = s@.subrange(start as int, n as int);
    if start == n {
        return (None, false);
    }
    let mut acc: u64 = 0;
    let mut overflow = false;
    let mut i = start;
    while i < n
        invariant
            n == s@.len(),
            start < n,
            start <= i <= n,
            body == s@.subrange(start as int, n as int),
            all_digits(s@.subrange(start as int, i as int)),
            !overflow ==> acc == digits_value(s@.subrange(start as int, i as int)),
            overflow ==> digits_value(s@.subrange(start as int, i as int)) > u64::MAX,
        decreases n - i,
    {
        let c = s.get_char(i);
        if !('0' <= c && c <= '9') {
            assert(body[i - start] == c);
            return (None, false);
        }
        let d = ((c as u32) - ('0' as u32)) as u64;
        proof {
            let b = s@.subrange(start as int, n as int);
            lemma_digits_value_step(b, i - start);
            assert(b.subrange(0, i - start + 1) == s@.subrange(start as int, i + 1));
            assert(b.subrange(0, i - start) == s@.subrange(start as int, i as int));
            assert(b[i - start] == c);
        }
        if !overflow {
            let next: u128 = (acc as u128) * 10 + (d as u128);
            if next > u64::MAX as u128 {
                overflow = true;
            } else {
                acc = next as u64;
            }
        }
        i = i + 1;
        assert(all_digits(s@.subrange(start as int, i as int)));
    }
    assert(s@.subrange(start as int, n as int) == body);
    if overflow {
        (None, true)
    } else {
        (Some(acc), false)
    }
}

/// `str::parse::<i64>`.
pub fn parse_i64(s: &str) -> (r: Option<i64>)
    ensures
        r == parse_i64_spec(s@),
{
    let n = s.unicode_len();
    if n == 0 {
        return None;
    }
    let c0 = s.get_char(0);
    let neg = c0 == '-';
    let start: usize = if c0 == '-' || c0 == '+' {
        1
    } else {
        0
    };
    assert(s@.subrange(start as int, n as int) == if c0 == '-' || c0 == '+' {
        s@.skip(1)
    } else {
        s@
    });
    let (digits, _) = digits_from(s, n, start);
    match digits {
        None => None,
        Some(v) => {
            if neg {
                if v <= 9223372036854775808u64 {
                    if v == 9223372036854775808u64 {
                        Some(i64::MIN)
                    } else {
                        Some(-(v as i64))
                    }
                } else {
                    None
                }
            } else {
                if v <= 9223372036854775807u64 {
                    Some(v as i64)
                } else {
                    None
                }
            }
        },
    }
}

/// `str::parse::<u32>`.
pub fn parse_u32(s: &str) -> (r: Option<u32>)
    ensures
        r == parse_u32_spec(s@),
{
    let n = s.unicode_len();
    if n == 0 {
        return None;
    }
    let start: usize = if s.get_char(0) == '+' {
        1
    } else {
        0
    };
    assert(s@.subrange(start as int, n as int) == if s@[0] == '+' {
        s@.skip(1)
    } else {
        s@
    });
    let (digits, _) = digits_from(s, n, start);
    match digits {
        None => None,
        Some(v) => {
            if v <= 4294967295u64 {
                Some(v as u32)
            } else {
                None
            }
        },
    }
}

/// The ASCII digit for `d < 10`.
pub open spec fn digit_char(d: nat) -> char {
    (d + 48) as char
}

/// The decimal digits of `n`, without leading zeros.
pub open spec fn decimal_seq(n: nat) -> Seq<char>
    decreases n,
{
    if n < 10 {
        seq![digit_char(n)]
    } else {
        decimal_seq(n / 10).push(digit_char(n % 10))
    }
}

/// The decimal text of `n`, with a leading `-` when it is negative.
pub open spec fn signed_decimal_seq(n: int) -> Seq<char> {
    if n < 0 {
        seq!['-'] + decimal_seq((-n) as nat)
    } else {
        decimal_seq(n as nat)
    }
}

fn digit_str(d: u64) -> (r: &'static str)
    requires
        d < 10,
    ensures
        r@ == seq![digit_char(d as nat)],
{
    proof {
        reveal_strlit("0");
        reveal_strlit("1");
        reveal_strlit("2");
        reveal_strlit("3");
        reveal_strlit("4");
        reveal_strlit("5");
        reveal_strlit("6");
        reveal_strlit("7");
        reveal_strlit("8");
        reveal_strlit("9");
    }
    let r = if d == 0 {
        "0"
    } else if d == 1 {
        "1"
    } else if d == 2 {
        "2"
    } else if d == 3 {
        "3"
    } else if d == 4 {
        "4"
    } else if d == 5 {
        "5"
    } else if d == 6 {
        "6"
    } else if d == 7 {
        "7"
    } else if d == 8 {
        "8"
    } else {
        "9"
    };
    assert(r@ =~= seq![digit_char(d as nat)]);
    r
}

/// The decimal text of `n` (`u64::to_string`).
pub fn u64_to_text(n: u64) -> (r: String)
    ensures
        r@ == decimal_seq(n as nat),
    decreases n,
{
    if n < 10 {
        String::from_str(digit_str(n))
    } else {
        let mut s = u64_to_text(n / 10);
        s.append(digit_str(n % 10));
        s
    }
}

/// The decimal text of `n` (`i64::to_string`).
pub fn i64_to_text(n: i64) -> (r: String)
    ensures
        r@ == signed_decimal_seq(n as int),
{
    if n < 0 {
        let magnitude: u64 = if n == i64::MIN {
            9223372036854775808u64
        } else {
            (-n) as u64
        };
        let mut s = String::from_str("-");
        proof {
            reveal_strlit("-");
        }
        s.append(u64_to_text(magnitude).as_str());
        s
    } else {
        u64_to_text(n as u64)
    }
}

/// `c` with an ASCII capital letter made small (`char::to_ascii_lowercase`).
pub open spec fn ascii_lower(c: char) -> char {
    if 'A' <= c && c <= 'Z' {
        ((c as u32) + 32) as char
    } else {
        c
    }
}

/// `s` with its ASCII capitals made small (`str::to_ascii_lowercase`).
pub open spec fn ascii_lower_seq(s: Seq<char>) -> Seq<char> {
    s.map_values(|c: char| ascii_lower(c))
}

/// Whether `s`, with its ASCII capitals made small, is `t`.
pub fn ascii_lower_eq(s: &str, t: &str) -> (r: bool)
    ensures
        r == (ascii_lower_seq(s@) == t@),
{
    let n = s.unicode_len();
    if n != t.unicode_len() {
        assert(ascii_lower_seq(s@).len() != t@.len());
        return false;
    }
    let mut k: usize = 0;
    while k < n
        invariant
            n == s@.len(),
            n == t@.len(),
            k <= n,
            forall|j: int| 0 <= j < k ==> ascii_lower(s@[j]) == t@[j],
        decreases n - k,
    {
        let c = s.get_char(k);
        let lower = if 'A' <= c && c <= 'Z' {
            ((c as u32) + 32) as u8 as char
        } else {
            c
        };
        assert(lower == ascii_lower(c)) by {
            if 'A' <= c && c <= 'Z' {
                assert((((c as u32) + 32) as u8) as u32 == (c as u32) + 32);
            }
        }
        if lower != t.get_char(k) {
            assert(ascii_lower_seq(s@)[k as int] != t@[k as int]);
            return false;
        }
        k = k + 1;
    }
    assert(ascii_lower_seq(s@) =~= t@);
    true
}

/// The first `n` characters of `s`, or all of it where it is shorter.
pub open spec fn take_chars_seq(s: Seq<char>, n: nat) -> Seq<char> {
    if s.len() <= n {
        s
    } else {
        s.take(n as int)
    }
}

/// The first `n` characters of `s` (`s.chars().take(n).collect()`).
pub fn take_chars(s: &str, n: usize) -> (r: String)
    ensures
        r@ == take_chars_seq(s@, n as nat),
{
    let len = s.unicode_len();
    if len <= n {
        assert(s@.subrange(0, len as int) == s@);
        String::from_str(s.substring_char(0, len))
    } else {
        String::from_str(s.substring_char(0, n))
    }
}

/// Whether two strings are equal.
pub fn str_eq(a: &str, b: &str) -> (r: bool)
    ensures
        r == (a@ == b@),
{
    let n = a.unicode_len();
    if n != b.unicode_len() {
        return false;
    }
    let mut k: usize = 0;
    while k < n
        invariant
            n == a@.len(),
            n == b@.len(),
            k <= n,
            forall|j: int| 0 <= j < k ==> a@[j] == b@[j],
        decreases n - k,
    {
        if a.get_char(k) != b.get_char(k) {
            return false;
        }
        k = k + 1;
    }
    assert(a@ =~= b@);
    true
}

} // verus!
