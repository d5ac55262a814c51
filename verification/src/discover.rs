//! Discovery: reading new videos off a page pass after pass, and how far to
//! scroll between passes.

use vstd::prelude::*;
use vstd::arithmetic::power::pow;
use crate::api::{LinkError, videos_from_anchor_links, page_links, is_fresh_video, JUNK_VIDEO_IDS};
use crate::video::Video;

verus! {

/// The most scroll steps a pass may take.
pub const SCROLL_CAP: u32 = 800;

/// How many scroll steps follow pass `pass` (counted from 1): 3, then 12,
/// then 30, 90 and 270, and from the sixth pass on 800 (the cap). Passes so
/// far on that `pass - 3` no longer fits an `i32` take 30.
/// (`law_scroll_budget_formula` shows this is 30 times three to the power
/// `pass - 3`, capped at 800.)
pub open spec fn scroll_budget(pass: u32) -> u32 {
    if pass == 1 {
        3
    } else if pass == 2 {
        12
    } else if pass - 3 > i32::MAX {
        30
    } else if pass == 3 {
        30
    } else if pass == 4 {
        90
    } else if pass == 5 {
        270
    } else {
        SCROLL_CAP
    }
}

proof fn lemma_pow3_grows(e: nat)
    ensures
        pow(3, e) >= 1,
        pow(3, e + 1) == 3 * pow(3, e),
        e >= 3 ==> pow(3, e) >= 27,
        e >= 2 ==> pow(3, e) >= 9,
        e >= 1 ==> pow(3, e) >= 3,
        e == 0 ==> pow(3, e) == 1,
    decreases e,
{
    reveal(pow);
    assert(pow(3, e + 1) == 3 * pow(3, e));
    if e > 0 {
        lemma_pow3_grows((e - 1) as nat);
    }
}

/// From the third pass on, while `pass - 3` fits an `i32`, the schedule is
/// 30 times three to the power `pass - 3`, capped at 800.
pub proof fn law_scroll_budget_formula(pass: u32)
    requires
        3 <= pass,
        pass - 3 <= i32::MAX,
    ensures
        scroll_budget(pass) == if 30 * pow(3, (pass - 3) as nat) > 800 {
            800
        } else {
            30 * pow(3, (pass - 3) as nat)
        },
{
    lemma_pow3_grows((pass - 3) as nat);
    lemma_pow3_grows(0);
    lemma_pow3_grows(1);
    lemma_pow3_grows(2);
}

/// The scroll steps after pass `pass`.
pub fn scrolls_per_pass(pass: u32) -> (r: u32)
    requires
        pass >= 1,
    ensures
        r == scroll_budget(pass),
{
    if pass == 1 {
        return 3;
    }
    if pass == 2 {
        return 12;
    }
    let e = pass - 3;
    if e > 2147483647 {
        30
    } else if e >= 3 {
        SCROLL_CAP
    } else if e == 0 {
        30
    } else if e == 1 {
        90
    } else {
        270
    }
}

/// The scroll steps after pass `pass` of the favorites page (the same
/// schedule).
pub fn fav_scroll_budget(pass: u32) -> (r: u32)
    requires
        pass >= 1,
    ensures
        r == scroll_budget(pass),
{
    scrolls_per_pass(pass)
}

/// What follows a pass that found `new_count` new videos: nothing when it
/// found none (the page is exhausted), else the scroll steps to take before
/// pass `pass + 1`.
pub fn next_scroll(pass: u32, new_count: u32) -> (r: Option<u32>)
    requires
        pass >= 1,
    ensures
        new_count == 0 ==> r is None,
        new_count != 0 ==> r == Some(scroll_budget(pass)),
{
    if new_count == 0 {
        None
    } else {
        Some(scrolls_per_pass(pass))
    }
}

/// The schedule never asks for more than 800 steps, and it never shrinks
/// from one pass to a later one while `pass - 3` fits an `i32`.
pub proof fn law_scroll_budget_grows(p: u32, q: u32)
    requires
        1 <= p <= q,
        q <= 0x8000_0002,
    ensures
        scroll_budget(p) <= scroll_budget(q),
        scroll_budget(q) <= 800,
{
}

/// The videos that the page `html` links to (see `videos_from_anchor_links`).
pub fn videos_from_html(html: &str) -> (r: Result<Vec<Video>, LinkError>)
    ensures
        match r {
            Ok(vs) => page_links(html@) matches Ok(ls) && vs@.len() == ls.len() && forall|k: int|
                0 <= k < ls.len() ==> is_fresh_video(#[trigger] vs@[k], ls[k].0, ls[k].1),
            Err(e) => page_links(html@) == Err::<Seq<(Seq<char>, i64)>, LinkError>(e),
        },
        r matches Ok(vs) ==> forall|k: int| 0 <= k < vs@.len() ==> !JUNK_VIDEO_IDS@.contains(#[trigger] vs@[k].id),
{
    videos_from_anchor_links(html)
}

/// Whether `ids` holds `id`.
pub fn contains_i64(ids: &Vec<i64>, id: i64) -> (r: bool)
    ensures
        r == ids@.contains(id),
{
    let mut k: usize = 0;
    while k < ids.len()
        invariant
            k <= ids@.len(),
            forall|j: int| 0 <= j < k ==> ids@[j] != id,
        decreases ids@.len() - k,
    {
        if ids[k] == id {
            assert(ids@[k as int] == id);
            return true;
        }
        k = k + 1;
    }
    false
}

/// One pass over a page's videos: those whose id is not yet known become
/// new (marked as favorites for the favorites page), and their ids known.
/// Gives the known ids and the new videos after the page.
pub open spec fn scan_page(ids: Seq<i64>, page: Seq<Video>, is_fav: bool) -> (Seq<i64>, Seq<Video>)
    decreases page.len(),
{
    if page.len() == 0 {
        (ids, Seq::empty())
    } else {
        let (ids2, found) = scan_page(ids, page.drop_last(), is_fav);
        let v = page.last();
        if ids2.contains(v.id) {
            (ids2, found)
        } else {
            (ids2.push(v.id), found.push(Video { is_fav, ..v }))
        }
    }
}

/// Runs one pass of discovery over the videos `page` read off the page:
/// appends the new ones to `new_vids`, records their ids in `existing_ids`,
/// and returns how many were new.
pub fn scroll_pass(
    existing_ids: &mut Vec<i64>,
    page: &Vec<Video>,
    is_fav: bool,
    new_vids: &mut Vec<Video>,
) -> (new_count: u32)
    requires
        page@.len() <= u32::MAX,
    ensures
        final(existing_ids)@ == scan_page(old(existing_ids)@, page@, is_fav).0,
        final(new_vids)@ == old(new_vids)@ + scan_page(old(existing_ids)@, page@, is_fav).1,
        new_count == scan_page(old(existing_ids)@, page@, is_fav).1.len(),
        forall|k: int|
            old(new_vids)@.len() <= k < final(new_vids)@.len() ==> exists|j: int|
                #![trigger page@[j]]
                0 <= j < page@.len() && #[trigger] final(new_vids)@[k] == (Video { is_fav, ..page@[j] }),
{
    proof {
        law_scan_page_keeps_videos(existing_ids@, page@, is_fav);
    }
    let ghost ids0 = existing_ids@;
    let ghost vids0 = new_vids@;
    let mut new_count: u32 = 0;
    let mut k: usize = 0;
    while k < page.len()
        invariant
            k <= page@.len(),
            page@.len() <= u32::MAX,
            existing_ids@ == scan_page(ids0, page@.take(k as int), is_fav).0,
            new_vids@ == vids0 + scan_page(ids0, page@.take(k as int), is_fav).1,
            new_count == scan_page(ids0, page@.take(k as int), is_fav).1.len(),
            new_count <= k,
        decreases page@.len() - k,
    {
        proof {
            assert(page@.take(k + 1).drop_last() == page@.take(k as int));
            assert(page@.take(k + 1).last() == page@[k as int]);
        }
        let id = page[k].id;
        if !contains_i64(existing_ids, id) {
            let mut v = page[k].clone();
            v.is_fav = is_fav;
            existing_ids.push(id);
            let ghost before = new_vids@;
            new_vids.push(v);
            assert(new_vids@ =~= vids0 + scan_page(ids0, page@.take(k + 1), is_fav).1);
            new_count = new_count + 1;
        }
        k = k + 1;
    }
    assert(page@.take(page@.len() as int) == page@);
    proof {
        let out = scan_page(ids0, page@, is_fav).1;
        assert forall|k: int| vids0.len() <= k < new_vids@.len() implies exists|j: int|
            #![trigger page@[j]]
            0 <= j < page@.len() && #[trigger] new_vids@[k] == (Video { is_fav, ..page@[j] }) by {
            assert(new_vids@[k] == out[k - vids0.len()]);
        }
    }
    new_count
}

/// Each new video of a pass is a video of the page, unchanged but for its
/// favorite mark: its url, id, author, download status, availability and
/// download date are those read off the page.
pub proof fn law_scan_page_keeps_videos(ids: Seq<i64>, page: Seq<Video>, is_fav: bool)
    ensures
        forall|k: int|
            0 <= k < scan_page(ids, page, is_fav).1.len() ==> exists|j: int|
                #![trigger page[j]]
                0 <= j < page.len() && #[trigger] scan_page(ids, page, is_fav).1[k] == (Video { is_fav, ..page[j] }),
    decreases page.len(),
{
    if page.len() > 0 {
        law_scan_page_keeps_videos(ids, page.drop_last(), is_fav);
        let (ids2, found) = scan_page(ids, page.drop_last(), is_fav);
        let out = scan_page(ids, page, is_fav).1;
        let last: int = page.len() - 1;
        assert forall|k: int| 0 <= k < out.len() implies exists|j: int|
            #![trigger page[j]]
            0 <= j < page.len() && #[trigger] out[k] == (Video { is_fav, ..page[j] }) by {
            if k < found.len() {
                assert(out[k] == found[k]);
                let j = choose|j: int|
                    #![trigger page.drop_last()[j]]
                    0 <= j < page.drop_last().len() && #[trigger] found[k] == (Video { is_fav, ..page.drop_last()[j] });
                assert(page.drop_last()[j] == page[j]);
            } else {
                assert(page.last() == page[last]);
                assert(out[k] == (Video { is_fav, ..page[last] }));
            }
        }
    }
}

/// After a pass, every id on the page is known, and the new videos are
/// exactly those whose ids were not known before, each once.
pub proof fn law_scan_page(ids: Seq<i64>, page: Seq<Video>, is_fav: bool)
    ensures
        forall|k: int| 0 <= k < page.len() ==> scan_page(ids, page, is_fav).0.contains(#[trigger] page[k].id),
        forall|k: int| 0 <= k < scan_page(ids, page, is_fav).1.len() ==> !ids.contains(#[trigger] scan_page(ids, page, is_fav).1[k].id),
        forall|k: int| 0 <= k < ids.len() ==> scan_page(ids, page, is_fav).0.contains(#[trigger] ids[k]),
    decreases page.len(),
{
    if page.len() > 0 {
        law_scan_page(ids, page.drop_last(), is_fav);
        let (ids2, found) = scan_page(ids, page.drop_last(), is_fav);
        let v = page.last();
        assert forall|k: int| 0 <= k < page.len() implies scan_page(ids, page, is_fav).0.contains(#[trigger] page[k].id) by {
            if k < page.len() - 1 {
                assert(page.drop_last()[k] == page[k]);
                if !ids2.contains(v.id) {
                    let w = choose|w: int| 0 <= w < ids2.len() && ids2[w] == page[k].id;
                    assert(ids2.push(v.id)[w] == page[k].id);
                }
            } else {
                if !ids2.contains(v.id) {
                    assert(ids2.push(v.id)[ids2.len() as int] == v.id);
                }
            }
        }
        assert forall|k: int| 0 <= k < ids.len() implies scan_page(ids, page, is_fav).0.contains(#[trigger] ids[k]) by {
            if !ids2.contains(v.id) {
                let w = choose|w: int| 0 <= w < ids2.len() && ids2[w] == ids[k];
                assert(ids2.push(v.id)[w] == ids[k]);
            }
        }
        assert forall|k: int| 0 <= k < scan_page(ids, page, is_fav).1.len() implies !ids.contains(#[trigger] scan_page(ids, page, is_fav).1[k].id) by {
            if !ids2.contains(v.id) && k == found.len() {
                if ids.contains(v.id) {
                    let w = choose|w: int| 0 <= w < ids.len() && ids[w] == v.id;
                    assert(ids2.contains(ids[w]));
                }
            } else {
                assert(scan_page(ids, page, is_fav).1[k] == found[k]);
            }
        }
    }
}

/// The videos of `page` whose id `done` does not hold, in order.
pub open spec fn not_done(done: Seq<i64>, page: Seq<Video>) -> Seq<Video>
    decreases page.len(),
{
    if page.len() == 0 {
        Seq::empty()
    } else {
        let prev = not_done(done, page.drop_last());
        if done.contains(page.last().id) {
            prev
        } else {
            prev.push(page.last())
        }
    }
}

/// `ids` after `id` was added to it as to a set.
pub open spec fn set_insert(ids: Seq<i64>, id: i64) -> Seq<i64> {
    if ids.contains(id) {
        ids
    } else {
        ids.push(id)
    }
}

/// One pass over the favorites page: each candidate's id becomes done;
/// those not yet among the known favorites become new favorites. Gives the
/// done ids, the known favorite ids and the new favorites.
pub open spec fn fav_scan(done: Seq<i64>, known: Seq<i64>, cands: Seq<Video>) -> (
    Seq<i64>,
    Seq<i64>,
    Seq<Video>,
)
    decreases cands.len(),
{
    if cands.len() == 0 {
        (done, known, Seq::empty())
    } else {
        let (d, k, f) = fav_scan(done, known, cands.drop_last());
        let v = cands.last();
        if k.contains(v.id) {
            (set_insert(d, v.id), k, f)
        } else {
            (set_insert(d, v.id), k.push(v.id), f.push(Video { is_fav: true, ..v }))
        }
    }
}

/// The favorites pass over `page`: the videos not done in an earlier pass
/// are scanned in order; returns the new favorites (marked as favorites).
pub fn fav_pass(done: &mut Vec<i64>, known: &mut Vec<i64>, page: &Vec<Video>) -> (r: Vec<Video>)
    ensures
        ({
            let s = fav_scan(old(done)@, old(known)@, not_done(old(done)@, page@));
            final(done)@ == s.0 && final(known)@ == s.1 && r@ == s.2
        }),
        forall|k: int|
            0 <= k < r@.len() ==> exists|j: int|
                #![trigger page@[j]]
                0 <= j < page@.len() && #[trigger] r@[k] == (Video { is_fav: true, ..page@[j] }),
{
    proof {
        law_fav_pass_keeps_videos(done@, known@, page@);
    }
    let ghost done0 = done@;
    let ghost known0 = known@;
    let mut cands: Vec<Video> = Vec::new();
    let mut k: usize = 0;
    while k < page.len()
        invariant
            k <= page@.len(),
            done@ == done0,
            cands@ == not_done(done0, page@.take(k as int)),
        decreases page@.len() - k,
    {
        proof {
            assert(page@.take(k + 1).drop_last() == page@.take(k as int));
            assert(page@.take(k + 1).last() == page@[k as int]);
        }
        if !contains_i64(done, page[k].id) {
            cands.push(page[k].clone());
        }
        k = k + 1;
    }
    assert(page@.take(page@.len() as int) == page@);
    let mut found: Vec<Video> = Vec::new();
    let mut j: usize = 0;
    while j < cands.len()
        invariant
            j <= cands@.len(),
            ({
                let s = fav_scan(done0, known0, cands@.take(j as int));
                done@ == s.0 && known@ == s.1 && found@ == s.2
            }),
        decreases cands@.len() - j,
    {
        proof {
            assert(cands@.take(j + 1).drop_last() == cands@.take(j as int));
            assert(cands@.take(j + 1).last() == cands@[j as int]);
        }
        let id = cands[j].id;
        if !contains_i64(done, id) {
            done.push(id);
        }
        if !contains_i64(known, id) {
            let mut v = cands[j].clone();
            v.is_fav = true;
            known.push(id);
            found.push(v);
        }
        j = j + 1;
    }
    assert(cands@.take(cands@.len() as int) == cands@);
    found
}

proof fn lemma_fav_scan_is_scan(done: Seq<i64>, known: Seq<i64>, cands: Seq<Video>)
    ensures
        fav_scan(done, known, cands).1 == scan_page(known, cands, true).0,
        fav_scan(done, known, cands).2 == scan_page(known, cands, true).1,
    decreases cands.len(),
{
    if cands.len() > 0 {
        lemma_fav_scan_is_scan(done, known, cands.drop_last());
    }
}

proof fn lemma_fav_scan_done(done: Seq<i64>, known: Seq<i64>, cands: Seq<Video>)
    ensures
        forall|x: i64| done.contains(x) ==> #[trigger] fav_scan(done, known, cands).0.contains(x),
        forall|k: int| 0 <= k < cands.len() ==> fav_scan(done, known, cands).0.contains(#[trigger] cands[k].id),
    decreases cands.len(),
{
    if cands.len() > 0 {
        lemma_fav_scan_done(done, known, cands.drop_last());
        let d = fav_scan(done, known, cands.drop_last()).0;
        let v = cands.last();
        let d2 = set_insert(d, v.id);
        assert(fav_scan(done, known, cands).0 == d2);
        assert forall|x: i64| d.contains(x) implies d2.contains(x) by {
            if !d.contains(v.id) {
                let w = choose|w: int| 0 <= w < d.len() && d[w] == x;
                assert(d.push(v.id)[w] == x);
            }
        }
        assert forall|k: int| 0 <= k < cands.len() implies d2.contains(#[trigger] cands[k].id) by {
            if k < cands.len() - 1 {
                assert(cands.drop_last()[k] == cands[k]);
                assert(d.contains(cands[k].id));
            } else if !d.contains(v.id) {
                assert(d.push(v.id)[d.len() as int] == v.id);
            }
        }
    }
}

proof fn lemma_not_done_covers(done: Seq<i64>, page: Seq<Video>)
    ensures
        forall|k: int|
            0 <= k < page.len() && !done.contains(#[trigger] page[k].id) ==> exists|j: int|
                0 <= j < not_done(done, page).len() && not_done(done, page)[j].id == page[k].id,
    decreases page.len(),
{
    if page.len() > 0 {
        lemma_not_done_covers(done, page.drop_last());
        let prev = not_done(done, page.drop_last());
        assert forall|k: int| 0 <= k < page.len() && !done.contains(#[trigger] page[k].id) implies exists|j: int|
            0 <= j < not_done(done, page).len() && not_done(done, page)[j].id == page[k].id by {
            if k < page.len() - 1 {
                assert(page.drop_last()[k] == page[k]);
                let j = choose|j: int| 0 <= j < prev.len() && prev[j].id == page.drop_last()[k].id;
                if !done.contains(page.last().id) {
                    assert(prev.push(page.last())[j] == prev[j]);
                }
                assert(not_done(done, page)[j].id == page[k].id);
            } else {
                assert(prev.push(page.last())[prev.len() as int] == page.last());
                assert(not_done(done, page)[prev.len() as int].id == page[k].id);
            }
        }
    }
}

/// After a favorites pass every id on the page is done; the known favorites
/// stay known; the new favorites are marked as favorites, have ids that were
/// not known before, and no two share an id.
pub proof fn law_fav_pass(done: Seq<i64>, known: Seq<i64>, page: Seq<Video>)
    ensures
        ({
            let s = fav_scan(done, known, not_done(done, page));
            &&& forall|k: int| 0 <= k < page.len() ==> s.0.contains(#[trigger] page[k].id)
            &&& forall|k: int| 0 <= k < known.len() ==> s.1.contains(#[trigger] known[k])
            &&& forall|k: int| 0 <= k < s.2.len() ==> !known.contains(#[trigger] s.2[k].id) && s.2[k].is_fav
            &&& forall|a: int, b: int| 0 <= a < b < s.2.len() ==> #[trigger] s.2[a].id != #[trigger] s.2[b].id
        }),
{
    let cands = not_done(done, page);
    let s = fav_scan(done, known, cands);
    lemma_fav_scan_is_scan(done, known, cands);
    law_scan_page(known, cands, true);
    lemma_scan_marks(known, cands, true);
    law_scan_page_new_ids_distinct(known, cands, true);
    lemma_fav_scan_done(done, known, cands);
    lemma_not_done_covers(done, page);
    assert forall|k: int| 0 <= k < page.len() implies s.0.contains(#[trigger] page[k].id) by {
        if !done.contains(page[k].id) {
            let j = choose|j: int| 0 <= j < cands.len() && cands[j].id == page[k].id;
            assert(s.0.contains(cands[j].id));
        }
    }
}

proof fn lemma_not_done_from_page(done: Seq<i64>, page: Seq<Video>)
    ensures
        forall|i: int|
            0 <= i < not_done(done, page).len() ==> exists|j: int|
                #![trigger page[j]]
                0 <= j < page.len() && #[trigger] not_done(done, page)[i] == page[j],
    decreases page.len(),
{
    if page.len() > 0 {
        lemma_not_done_from_page(done, page.drop_last());
        let prev = not_done(done, page.drop_last());
        let cur = not_done(done, page);
        let last: int = page.len() - 1;
        assert forall|i: int| 0 <= i < cur.len() implies exists|j: int|
            #![trigger page[j]]
            0 <= j < page.len() && #[trigger] cur[i] == page[j] by {
            if i < prev.len() {
                assert(cur[i] == prev[i]);
                let j = choose|j: int|
                    #![trigger page.drop_last()[j]]
                    0 <= j < page.drop_last().len() && prev[i] == page.drop_last()[j];
                assert(page.drop_last()[j] == page[j]);
            } else {
                assert(cur[i] == page[last]);
            }
        }
    }
}

/// Each new favorite of a favorites pass is a video of the page, unchanged
/// but for being marked as a favorite: its url, id, author, download status,
/// availability and download date are those read off the page.
pub proof fn law_fav_pass_keeps_videos(done: Seq<i64>, known: Seq<i64>, page: Seq<Video>)
    ensures
        ({
            let s = fav_scan(done, known, not_done(done, page));
            forall|k: int|
                0 <= k < s.2.len() ==> exists|j: int|
                    #![trigger page[j]]
                    0 <= j < page.len() && #[trigger] s.2[k] == (Video { is_fav: true, ..page[j] })
        }),
{
    let cands = not_done(done, page);
    let s = fav_scan(done, known, cands);
    lemma_fav_scan_is_scan(done, known, cands);
    law_scan_page_keeps_videos(known, cands, true);
    lemma_not_done_from_page(done, page);
    assert forall|k: int| 0 <= k < s.2.len() implies exists|j: int|
        #![trigger page[j]]
        0 <= j < page.len() && #[trigger] s.2[k] == (Video { is_fav: true, ..page[j] }) by {
        let c = choose|c: int|
            #![trigger cands[c]]
            0 <= c < cands.len() && s.2[k] == (Video { is_fav: true, ..cands[c] });
        let j = choose|j: int|
            #![trigger page[j]]
            0 <= j < page.len() && cands[c] == page[j];
    }
}

proof fn lemma_scan_marks(ids: Seq<i64>, page: Seq<Video>, is_fav: bool)
    ensures
        forall|k: int| 0 <= k < scan_page(ids, page, is_fav).1.len() ==> (#[trigger] scan_page(ids, page, is_fav).1[k]).is_fav == is_fav,
    decreases page.len(),
{
    if page.len() > 0 {
        lemma_scan_marks(ids, page.drop_last(), is_fav);
    }
}

/// The new videos of a pass have pairwise distinct ids, each of them known
/// after the pass.
pub proof fn law_scan_page_new_ids_distinct(ids: Seq<i64>, page: Seq<Video>, is_fav: bool)
    ensures
        forall|a: int, b: int| 0 <= a < b < scan_page(ids, page, is_fav).1.len() ==> #[trigger] scan_page(ids, page, is_fav).1[a].id != #[trigger] scan_page(ids, page, is_fav).1[b].id,
        forall|k: int| 0 <= k < scan_page(ids, page, is_fav).1.len() ==> scan_page(ids, page, is_fav).0.contains(#[trigger] scan_page(ids, page, is_fav).1[k].id),
    decreases page.len(),
{
    if page.len() > 0 {
        law_scan_page_new_ids_distinct(ids, page.drop_last(), is_fav);
        let (ids2, found) = scan_page(ids, page.drop_last(), is_fav);
        let v = page.last();
        if !ids2.contains(v.id) {
            let f2 = found.push(Video { is_fav, ..v });
            let i2 = ids2.push(v.id);
            assert forall|k: int| 0 <= k < f2.len() implies i2.contains(#[trigger] f2[k].id) by {
                if k < found.len() {
                    assert(f2[k] == found[k]);
                    let w = choose|w: int| 0 <= w < ids2.len() && ids2[w] == found[k].id;
                    assert(i2[w] == found[k].id);
                } else {
                    assert(i2[ids2.len() as int] == v.id);
                }
            }
            assert forall|a: int, b: int| 0 <= a < b < f2.len() implies #[trigger] f2[a].id != #[trigger] f2[b].id by {
                if b == found.len() {
                    assert(f2[a] == found[a]);
                    assert(ids2.contains(found[a].id));
                } else {
                    assert(f2[a] == found[a] && f2[b] == found[b]);
                }
            }
        }
    }
}

} // verus!
