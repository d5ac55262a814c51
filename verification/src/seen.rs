//! The database of seen videos: per user, the videos discovery found, and
//! the bookkeeping that downloads do on it.

use vstd::prelude::*;
use crate::buckets::{Buckets, entry_index, has_user, items_of, lemma_with_user, user_index, with_user};
use crate::video::{DownloadDate, DownloadStatus, Video, after_failure, failure_allowed, pauses, pending_spec};

verus! {

/// The bucket that holds the signed-in account's favorites.
pub const FAVORITE_BUCKET: &'static str = "favorite";

/// The seen-videos database: user name to that user's videos.
pub type SeenVideos = Buckets<Video>;

/// Some video in `vs` has id `id`.
pub open spec fn has_id(vs: Seq<Video>, id: i64) -> bool {
    exists|k: int| 0 <= k < vs.len() && #[trigger] vs[k].id == id
}

/// No two videos in `vs` share an id.
pub open spec fn ids_distinct(vs: Seq<Video>) -> bool {
    forall|a: int, b: int| 0 <= a < b < vs.len() ==> #[trigger] vs[a].id != #[trigger] vs[b].id
}

/// `existing` followed by those of `vids`, in order, whose id neither
/// `existing` nor an earlier one of `vids` has.
pub open spec fn append_new(existing: Seq<Video>, vids: Seq<Video>) -> Seq<Video>
    decreases vids.len(),
{
    if vids.len() == 0 {
        existing
    } else {
        let prev = append_new(existing, vids.drop_last());
        if has_id(prev, vids.last().id) {
            prev
        } else {
            prev.push(vids.last())
        }
    }
}

/// Whether `vs` holds a video with id `id`.
pub fn contains_id(vs: &Vec<Video>, id: i64) -> (r: bool)
    ensures
        r == has_id(vs@, id),
{
    let mut k: usize = 0;
    while k < vs.len()
        invariant
            k <= vs@.len(),
            forall|j: int| 0 <= j < k ==> #[trigger] vs@[j].id != id,
        decreases vs@.len() - k,
    {
        if vs[k].id == id {
            assert(vs@[k as int].id == id);
            return true;
        }
        k = k + 1;
    }
    false
}

/// The ids of `vs`, in order.
pub fn ids_of(vs: &Vec<Video>) -> (r: Vec<i64>)
    ensures
        r@.len() == vs@.len(),
        forall|k: int| 0 <= k < vs@.len() ==> #[trigger] r@[k] == vs@[k].id,
{
    let mut r: Vec<i64> = Vec::new();
    let mut k: usize = 0;
    while k < vs.len()
        invariant
            k <= vs@.len(),
            r@.len() == k,
            forall|j: int| 0 <= j < k ==> #[trigger] r@[j] == vs@[j].id,
        decreases vs@.len() - k,
    {
        r.push(vs[k].id);
        k = k + 1;
    }
    r
}

/// Adds to `user`'s videos those of `vids` with an id not yet there (nor
/// earlier in `vids`), creating the user's entry if needed. Returns how many
/// were added.
pub fn append_videos(map: &mut SeenVideos, username: &str, vids: &Vec<Video>) -> (added: usize)
    requires
        old(map).wf(),
    ensures
        final(map).wf(),
        final(map)@ == with_user(old(map)@, username@).update(
            entry_index(old(map)@, username@),
            (username@, append_new(items_of(old(map)@, username@), vids@)),
        ),
        added == append_new(items_of(old(map)@, username@), vids@).len() - items_of(
            old(map)@,
            username@,
        ).len(),
{
    proof {
        lemma_with_user(map@, username@);
    }
    let i = map.entry(username);
    let mut items = map.take_items(i);
    let ghost existing = items@;
    let mut added: usize = 0;
    let mut k: usize = 0;
    while k < vids.len()
        invariant
            k <= vids@.len(),
            items@ == append_new(existing, vids@.take(k as int)),
            added + existing.len() == items@.len(),
            added <= k,
        decreases vids@.len() - k,
    {
        proof {
            assert(vids@.take(k + 1).drop_last() == vids@.take(k as int));
            assert(vids@.take(k + 1).last() == vids@[k as int]);
        }
        if !contains_id(&items, vids[k].id) {
            items.push(vids[k].clone());
            added = added + 1;
        }
        k = k + 1;
    }
    assert(vids@.take(vids@.len() as int) == vids@);
    map.put_items(i, items);
    added
}

/// Adds all of `vids` to the end of `user`'s videos, creating the user's
/// entry if needed.
pub fn push_videos(map: &mut SeenVideos, username: &str, vids: &Vec<Video>)
    requires
        old(map).wf(),
    ensures
        final(map).wf(),
        final(map)@ == with_user(old(map)@, username@).update(
            entry_index(old(map)@, username@),
            (username@, items_of(old(map)@, username@) + vids@),
        ),
{
    proof {
        lemma_with_user(map@, username@);
    }
    let i = map.entry(username);
    let mut items = map.take_items(i);
    let ghost existing = items@;
    let mut k: usize = 0;
    while k < vids.len()
        invariant
            k <= vids@.len(),
            items@ == existing + vids@.take(k as int),
        decreases vids@.len() - k,
    {
        items.push(vids[k].clone());
        k = k + 1;
        assert(items@ =~= existing + vids@.take(k as int));
    }
    assert(vids@.take(vids@.len() as int) == vids@);
    map.put_items(i, items);
}

/// `existing` stays, in order, at the front of what `append_new` gives.
pub proof fn law_append_keeps_existing(existing: Seq<Video>, vids: Seq<Video>)
    ensures
        append_new(existing, vids).len() >= existing.len(),
        append_new(existing, vids).subrange(0, existing.len() as int) == existing,
        append_new(existing, vids).len() <= existing.len() + vids.len(),
    decreases vids.len(),
{
    if vids.len() > 0 {
        law_append_keeps_existing(existing, vids.drop_last());
        let prev = append_new(existing, vids.drop_last());
        if !has_id(prev, vids.last().id) {
            assert(prev.push(vids.last()).subrange(0, existing.len() as int) == prev.subrange(
                0,
                existing.len() as int,
            ));
        }
    }
}

/// After an append, every id of the appended videos is in the list.
pub proof fn law_append_covers_ids(existing: Seq<Video>, vids: Seq<Video>, k: int)
    requires
        0 <= k < vids.len(),
    ensures
        has_id(append_new(existing, vids), vids[k].id),
    decreases vids.len(),
{
    let prev = append_new(existing, vids.drop_last());
    lemma_append_grows(prev, vids.last());
    if k < vids.len() - 1 {
        law_append_covers_ids(existing, vids.drop_last(), k);
        let w = choose|j: int| 0 <= j < prev.len() && #[trigger] prev[j].id == vids[k].id;
        assert(append_new(existing, vids)[w].id == vids[k].id);
    } else {
        if has_id(prev, vids.last().id) {
        } else {
            assert(prev.push(vids.last())[prev.len() as int].id == vids[k].id);
        }
    }
}

proof fn lemma_append_grows(prev: Seq<Video>, v: Video)
    ensures
        forall|j: int|
            0 <= j < prev.len() ==> #[trigger] prev.push(v)[j] == prev[j],
{
}

/// Appending keeps the ids of a list distinct.
pub proof fn law_append_keeps_ids_distinct(existing: Seq<Video>, vids: Seq<Video>)
    requires
        ids_distinct(existing),
    ensures
        ids_distinct(append_new(existing, vids)),
    decreases vids.len(),
{
    if vids.len() > 0 {
        law_append_keeps_ids_distinct(existing, vids.drop_last());
        let prev = append_new(existing, vids.drop_last());
        if !has_id(prev, vids.last().id) {
            let w = prev.push(vids.last());
            assert forall|a: int, b: int| 0 <= a < b < w.len() implies #[trigger] w[a].id
                != #[trigger] w[b].id by {
                if b == prev.len() {
                    assert(w[a] == prev[a]);
                    if prev[a].id == vids.last().id {
                        assert(has_id(prev, vids.last().id));
                    }
                } else {
                    assert(w[a] == prev[a] && w[b] == prev[b]);
                }
            }
        }
    }
}

/// Appending the same videos a second time adds nothing.
pub proof fn law_append_idempotent(existing: Seq<Video>, vids: Seq<Video>)
    ensures
        append_new(append_new(existing, vids), vids) == append_new(existing, vids),
{
    assert(vids == vids.subrange(0, vids.len() as int));
    lemma_append_nothing_new(append_new(existing, vids), vids, existing, vids);
}

/// Appending videos whose ids are all present changes nothing.
proof fn lemma_append_nothing_new(
    list: Seq<Video>,
    vids: Seq<Video>,
    existing: Seq<Video>,
    all: Seq<Video>,
)
    requires
        list == append_new(existing, all),
        vids.len() <= all.len(),
        vids == all.subrange(0, vids.len() as int),
    ensures
        append_new(list, vids) == list,
    decreases vids.len(),
{
    if vids.len() > 0 {
        assert(vids.drop_last() == all.subrange(0, vids.len() - 1));
        lemma_append_nothing_new(list, vids.drop_last(), existing, all);
        law_append_covers_ids(existing, all, vids.len() - 1);
        assert(vids.last() == all[vids.len() - 1]);
    }
}

/// Position `(b, i)` holds a video owed a download.
pub open spec fn pending_at(v: Seq<(Seq<char>, Seq<Video>)>, b: int, i: int) -> bool {
    0 <= b < v.len() && 0 <= i < v[b].1.len() && pending_spec(v[b].1[i])
}

/// Some video owed a download has id `id`.
pub open spec fn pending_id(v: Seq<(Seq<char>, Seq<Video>)>, id: i64) -> bool {
    exists|b: int, i: int| pending_at(v, b, i) && #[trigger] v[b].1[i].id == id
}

/// Position `p` comes before `q` (bucket first, then place in the bucket).
pub open spec fn pos_before(p: (usize, usize), q: (usize, usize)) -> bool {
    p.0 < q.0 || (p.0 == q.0 && p.1 < q.1)
}

/// A sequence of positions in strictly increasing order.
pub open spec fn positions_sorted(q: Seq<(usize, usize)>) -> bool {
    forall|a: int, c: int| 0 <= a < c < q.len() ==> pos_before(#[trigger] q[a], #[trigger] q[c])
}

/// The positions of all videos owed a download, bucket by bucket, each once.
pub fn pending_queue(map: &SeenVideos) -> (q: Vec<(usize, usize)>)
    ensures
        forall|k: int| 0 <= k < q@.len() ==> pending_at(map@, #[trigger] q@[k].0 as int, q@[k].1 as int),
        forall|b: usize, i: usize| pending_at(map@, b as int, i as int) ==> q@.contains((b, i)),
        positions_sorted(q@),
{
    let mut q: Vec<(usize, usize)> = Vec::new();
    let n = map.len();
    let mut b: usize = 0;
    while b < n
        invariant
            n == map@.len(),
            b <= n,
            forall|k: int| 0 <= k < q@.len() ==> pending_at(map@, #[trigger] q@[k].0 as int, q@[k].1 as int),
            forall|k: int| 0 <= k < q@.len() ==> (#[trigger] q@[k]).0 < b,
            forall|b2: int, i: int| 0 <= b2 < b && pending_at(map@, b2, i) ==> q@.contains((b2 as usize, i as usize)),
            positions_sorted(q@),
        decreases n - b,
    {
        let items = map.items(b);
        let mut i: usize = 0;
        while i < items.len()
            invariant
                n == map@.len(),
                b < n,
                items@ == map@[b as int].1,
                i <= items@.len(),
                forall|k: int| 0 <= k < q@.len() ==> pending_at(map@, #[trigger] q@[k].0 as int, q@[k].1 as int),
                forall|k: int| 0 <= k < q@.len() ==> (#[trigger] q@[k]).0 < b || (q@[k].0 == b && q@[k].1 < i),
                forall|b2: int, i2: int| (0 <= b2 < b || (b2 == b && 0 <= i2 < i)) && pending_at(map@, b2, i2) ==> q@.contains((b2 as usize, i2 as usize)),
                positions_sorted(q@),
            decreases items@.len() - i,
        {
            if items[i].is_pending() {
                let ghost before = q@;
                q.push((b, i));
                proof {
                    assert(q@[before.len() as int] == (b, i));
                    assert forall|b2: int, i2: int| (0 <= b2 < b || (b2 == b && 0 <= i2 < i + 1)) && pending_at(map@, b2, i2) implies q@.contains((b2 as usize, i2 as usize)) by {
                        if b2 == b && i2 == i {
                            assert(q@[before.len() as int] == (b2 as usize, i2 as usize));
                        } else {
                            assert(before.contains((b2 as usize, i2 as usize)));
                            let w = choose|w: int| 0 <= w < before.len() && before[w] == (b2 as usize, i2 as usize);
                            assert(q@[w] == before[w]);
                        }
                    }
                }
            } else {
                assert(!pending_at(map@, b as int, i as int));
            }
            i = i + 1;
        }
        b = b + 1;
    }
    q
}

/// The video at position `(b, i)`.
pub fn video_at(map: &SeenVideos, b: usize, i: usize) -> (r: &Video)
    requires
        b < map@.len(),
        i < map@[b as int].1.len(),
    ensures
        *r == map@[b as int].1[i as int],
{
    &map.items(b)[i]
}

/// Records a finished download of the video at `(b, i)`, made at `date`.
pub fn mark_downloaded_at(map: &mut SeenVideos, b: usize, i: usize, date: DownloadDate)
    requires
        old(map).wf(),
        b < old(map)@.len(),
        i < old(map)@[b as int].1.len(),
    ensures
        final(map).wf(),
        final(map)@ == old(map)@.update(
            b as int,
            (
                old(map)@[b as int].0,
                old(map)@[b as int].1.update(
                    i as int,
                    Video {
                        download_status: DownloadStatus::Downloaded,
                        download_date: Some(date),
                        ..old(map)@[b as int].1[i as int]
                    },
                ),
            ),
        ),
{
    let mut items = map.take_items(b);
    let mut v = items[i].clone();
    v.mark_downloaded(date);
    items.set(i, v);
    map.put_items(b, items);
}

/// Why a failed download could not be recorded.
#[derive(Debug, Clone, Copy, PartialEq, Eq, Structural)]
pub enum FailureRecordError {
    /// The video is already downloaded; this is a critical inconsistency.
    AlreadyDownloaded,
    /// The failure counter cannot go higher.
    CounterFull,
}

/// Records a failed download of the video at `(b, i)`. Returns whether the
/// video is now paused.
pub fn record_failure_at(map: &mut SeenVideos, b: usize, i: usize) -> (r: Result<
    bool,
    FailureRecordError,
>)
    requires
        old(map).wf(),
        b < old(map)@.len(),
        i < old(map)@[b as int].1.len(),
    ensures
        final(map).wf(),
        ({
            let v = old(map)@[b as int].1[i as int];
            match r {
                Ok(paused) => failure_allowed(v) && paused == pauses(after_failure(v).download_status)
                    && final(map)@ == old(map)@.update(
                    b as int,
                    (old(map)@[b as int].0, old(map)@[b as int].1.update(i as int, after_failure(v))),
                ),
                Err(e) => !failure_allowed(v) && final(map)@ == old(map)@ && (e
                    == FailureRecordError::AlreadyDownloaded <==> v.download_status
                    == DownloadStatus::Downloaded),
            }
        }),
{
    let v = video_at(map, b, i);
    match v.download_status {
        DownloadStatus::Downloaded => {
            return Err(FailureRecordError::AlreadyDownloaded);
        },
        DownloadStatus::DownloadFailed(n) => {
            if n == 255 {
                return Err(FailureRecordError::CounterFull);
            }
        },
        DownloadStatus::NotDownloaded => {},
    }
    let mut items = map.take_items(b);
    let mut v = items[i].clone();
    let paused = v.download_failed();
    items.set(i, v);
    map.put_items(b, items);
    Ok(paused)
}

/// The positions of the videos with id `id`, in order.
pub fn positions_of_id(map: &SeenVideos, id: i64) -> (q: Vec<(usize, usize)>)
    ensures
        forall|k: int| 0 <= k < q@.len() ==> {
            &&& 0 <= (#[trigger] q@[k]).0 < map@.len()
            &&& 0 <= q@[k].1 < map@[q@[k].0 as int].1.len()
            &&& map@[q@[k].0 as int].1[q@[k].1 as int].id == id
        },
        forall|b: usize, i: usize| b < map@.len() && i < map@[b as int].1.len() && map@[b as int].1[i as int].id == id ==> q@.contains((b, i)),
        positions_sorted(q@),
{
    let mut q: Vec<(usize, usize)> = Vec::new();
    let n = map.len();
    let mut b: usize = 0;
    while b < n
        invariant
            n == map@.len(),
            b <= n,
            forall|k: int| 0 <= k < q@.len() ==> {
                &&& 0 <= (#[trigger] q@[k]).0 < b
                &&& 0 <= q@[k].1 < map@[q@[k].0 as int].1.len()
                &&& map@[q@[k].0 as int].1[q@[k].1 as int].id == id
            },
            forall|b2: int, i: int| 0 <= b2 < b && 0 <= i < map@[b2].1.len() && map@[b2].1[i].id == id ==> q@.contains((b2 as usize, i as usize)),
            positions_sorted(q@),
        decreases n - b,
    {
        let items = map.items(b);
        let mut i: usize = 0;
        while i < items.len()
            invariant
                n == map@.len(),
                b < n,
                items@ == map@[b as int].1,
                i <= items@.len(),
                forall|k: int| 0 <= k < q@.len() ==> {
                    &&& ((#[trigger] q@[k]).0 < b || (q@[k].0 == b && q@[k].1 < i))
                    &&& 0 <= q@[k].1 < map@[q@[k].0 as int].1.len()
                    &&& map@[q@[k].0 as int].1[q@[k].1 as int].id == id
                },
                forall|b2: int, i2: int| (0 <= b2 < b || (b2 == b && 0 <= i2 < i)) && 0 <= i2 < map@[b2].1.len() && map@[b2].1[i2].id == id ==> q@.contains((b2 as usize, i2 as usize)),
                positions_sorted(q@),
            decreases items@.len() - i,
        {
            if items[i].id == id {
                let ghost before = q@;
                q.push((b, i));
                proof {
                    assert(q@[before.len() as int] == (b, i));
                    assert forall|b2: int, i2: int| (0 <= b2 < b || (b2 == b && 0 <= i2 < i + 1)) && 0 <= i2 < map@[b2].1.len() && map@[b2].1[i2].id == id implies q@.contains((b2 as usize, i2 as usize)) by {
                        if b2 == b && i2 == i {
                            assert(q@[before.len() as int] == (b2 as usize, i2 as usize));
                        } else {
                            assert(before.contains((b2 as usize, i2 as usize)));
                            let w = choose|w: int| 0 <= w < before.len() && before[w] == (b2 as usize, i2 as usize);
                            assert(q@[w] == before[w]);
                        }
                    }
                }
            }
            i = i + 1;
        }
        b = b + 1;
    }
    q
}

/// The distinct ids of the videos owed a download, in order of first
/// appearance.
pub fn pending_ids(map: &SeenVideos) -> (ids: Vec<i64>)
    ensures
        forall|k: int| 0 <= k < ids@.len() ==> pending_id(map@, #[trigger] ids@[k]),
        forall|b: usize, i: usize| pending_at(map@, b as int, i as int) ==> ids@.contains(map@[b as int].1[i as int].id),
        forall|a: int, c: int| 0 <= a < c < ids@.len() ==> #[trigger] ids@[a] != #[trigger] ids@[c],
{
    let q = pending_queue(map);
    let mut ids: Vec<i64> = Vec::new();
    let mut k: usize = 0;
    while k < q.len()
        invariant
            k <= q@.len(),
            forall|j: int| 0 <= j < q@.len() ==> pending_at(map@, #[trigger] q@[j].0 as int, q@[j].1 as int),
            forall|w: int| 0 <= w < ids@.len() ==> pending_id(map@, #[trigger] ids@[w]),
            forall|j: int| 0 <= j < k ==> ids@.contains(map@[#[trigger] q@[j].0 as int].1[q@[j].1 as int].id),
            forall|a: int, c: int| 0 <= a < c < ids@.len() ==> #[trigger] ids@[a] != #[trigger] ids@[c],
        decreases q@.len() - k,
    {
        let (b, i) = q[k];
        let id = video_at(map, b, i).id;
        let mut seen = false;
        let mut j: usize = 0;
        while j < ids.len()
            invariant
                j <= ids@.len(),
                seen ==> ids@.contains(id),
                !seen ==> forall|w: int| 0 <= w < j ==> #[trigger] ids@[w] != id,
            decreases ids@.len() - j,
        {
            if ids[j] == id {
                seen = true;
                assert(ids@[j as int] == id);
            }
            j = j + 1;
        }
        if !seen {
            let ghost before = ids@;
            ids.push(id);
            proof {
                assert(ids@[before.len() as int] == id);
                assert forall|a: int, c: int| 0 <= a < c < ids@.len() implies #[trigger] ids@[a] != #[trigger] ids@[c] by {
                    if c == before.len() {
                        assert(ids@[a] == before[a]);
                        assert(before[a] != id);
                    } else {
                        assert(ids@[a] == before[a] && ids@[c] == before[c]);
                    }
                }
                assert forall|w: int| 0 <= w < ids@.len() implies pending_id(map@, #[trigger] ids@[w]) by {
                    if w == before.len() {
                        assert(pending_at(map@, b as int, i as int) && map@[b as int].1[i as int].id == ids@[w]);
                    } else {
                        assert(ids@[w] == before[w]);
                    }
                }
                assert forall|j2: int| 0 <= j2 < k implies ids@.contains(map@[#[trigger] q@[j2].0 as int].1[q@[j2].1 as int].id) by {
                    let x = map@[q@[j2].0 as int].1[q@[j2].1 as int].id;
                    assert(before.contains(x));
                    let w = choose|w: int| 0 <= w < before.len() && before[w] == x;
                    assert(ids@[w] == x);
                }
            }
        }
        proof {
            assert(ids@.contains(id));
            assert(id == map@[q@[k as int].0 as int].1[q@[k as int].1 as int].id);
        }
        k = k + 1;
    }
    proof {
        assert forall|b: usize, i: usize| pending_at(map@, b as int, i as int) implies ids@.contains(map@[b as int].1[i as int].id) by {
            assert(q@.contains((b, i)));
            let j = choose|j: int| 0 <= j < q@.len() && q@[j] == (b, i);
            assert(ids@.contains(map@[q@[j].0 as int].1[q@[j].1 as int].id));
        }
    }
    ids
}

/// The place of the first video with id `id` in `vs`.
pub open spec fn first_with_id(vs: Seq<Video>, id: i64) -> int {
    choose|k: int| 0 <= k < vs.len() && vs[k].id == id && forall|j: int| 0 <= j < k ==> #[trigger] vs[j].id != id
}

/// Marks the first video with id `id` in `user`'s entry as downloaded at
/// `date`. Returns whether there was one.
pub fn mark_id_downloaded(map: &mut SeenVideos, username: &str, id: i64, date: DownloadDate) -> (found: bool)
    requires
        old(map).wf(),
    ensures
        final(map).wf(),
        found == (has_user(old(map)@, username@) && has_id(items_of(old(map)@, username@), id)),
        !found ==> final(map)@ == old(map)@,
        found ==> ({
            let b = user_index(old(map)@, username@);
            let vs = old(map)@[b].1;
            let k = first_with_id(vs, id);
            final(map)@ == old(map)@.update(b, (username@, vs.update(k, Video {
                download_status: DownloadStatus::Downloaded,
                download_date: Some(date),
                ..vs[k]
            })))
        }),
{
    let b = match map.find(username) {
        Some(b) => b,
        None => return false,
    };
    let ghost vs = map@[b as int].1;
    let items = map.items(b);
    let mut k: usize = 0;
    while k < items.len()
        invariant
            items@ == vs,
            k <= vs.len(),
            forall|j: int| 0 <= j < k ==> #[trigger] vs[j].id != id,
        ensures
            k <= vs.len(),
            forall|j: int| 0 <= j < k ==> #[trigger] vs[j].id != id,
            k < vs.len() ==> vs[k as int].id == id,
        decreases vs.len() - k,
    {
        if items[k].id == id {
            break;
        }
        k = k + 1;
    }
    if k == items.len() {
        assert(!has_id(vs, id));
        return false;
    }
    assert(vs[k as int].id == id);
    assert(k as int == first_with_id(vs, id));
    mark_downloaded_at(map, b, k, date);
    true
}

/// Whether the database is written back after a poll cycle: when the cycle
/// changed it, or to switch its layout (a compact file is spread over lines
/// in dev mode, and one spread over lines is made compact otherwise; an
/// unreadable layout is left alone).
pub fn seen_needs_save(changed: bool, dev_mode: bool, compact: Option<bool>) -> (r: bool)
    ensures
        r == (changed || compact == Some(dev_mode)),
{
    if changed {
        return true;
    }
    match compact {
        Some(c) => c == dev_mode,
        None => false,
    }
}

} // verus!
