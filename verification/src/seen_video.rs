//! The older seen-videos record: per user, videos with a three-state
//! download status.

use vstd::prelude::*;
use crate::buckets::{Buckets, entry_index, has_user, items_of, lemma_with_user, user_index,
    with_user};
use crate::video::DownloadDate;

verus! {

/// Where a video stands with its download.
#[derive(Debug, Clone, Copy, PartialEq, Eq, Structural)]
pub enum DownloadStatus {
    Downloaded,
    NotDownloaded,
    DownloadFailed,
}

/// A seen video of the older record.
#[derive(Debug)]
pub struct SeenVideo {
    pub url: String,
    pub video_id: i64,
    pub username: String,
    pub download_status: DownloadStatus,
    pub source_available: bool,
    pub download_date: Option<DownloadDate>,
}

impl Clone for SeenVideo {
    fn clone(&self) -> (r: Self)
        ensures
            r == *self,
    {
        SeenVideo {
            url: self.url.clone(),
            video_id: self.video_id,
            username: self.username.clone(),
            download_status: self.download_status,
            source_available: self.source_available,
            download_date: self.download_date,
        }
    }
}

impl SeenVideo {
    pub fn new(
        url: String,
        video_id: i64,
        username: String,
        download_status: DownloadStatus,
        source_available: bool,
    ) -> (r: Self)
        ensures
            r.url == url,
            r.video_id == video_id,
            r.username == username,
            r.download_status == download_status,
            r.source_available == source_available,
            r.download_date is None,
    {
        SeenVideo { url, video_id, username, download_status, source_available, download_date: None }
    }
}

/// The older record: user name to seen videos.
pub type SeenVideoMap = Buckets<SeenVideo>;

pub open spec fn has_video_id(vs: Seq<SeenVideo>, id: i64) -> bool {
    exists|k: int| 0 <= k < vs.len() && #[trigger] vs[k].video_id == id
}

/// `existing` followed by those of `vids` whose id is new, in order.
pub open spec fn append_new_seen(existing: Seq<SeenVideo>, vids: Seq<SeenVideo>) -> Seq<SeenVideo>
    decreases vids.len(),
{
    if vids.len() == 0 {
        existing
    } else {
        let prev = append_new_seen(existing, vids.drop_last());
        if has_video_id(prev, vids.last().video_id) {
            prev
        } else {
            prev.push(vids.last())
        }
    }
}

fn contains_video_id(vs: &Vec<SeenVideo>, id: i64) -> (r: bool)
    ensures
        r == has_video_id(vs@, id),
{
    let mut k: usize = 0;
    while k < vs.len()
        invariant
            k <= vs@.len(),
            forall|j: int| 0 <= j < k ==> #[trigger] vs@[j].video_id != id,
        decreases vs@.len() - k,
    {
        if vs[k].video_id == id {
            assert(vs@[k as int].video_id == id);
            return true;
        }
        k = k + 1;
    }
    false
}

/// Adds to `user`'s record those of `vids` with a new id.
pub fn append_seen_videos(map: &mut SeenVideoMap, username: &str, vids: &Vec<SeenVideo>)
    requires
        old(map).wf(),
    ensures
        final(map).wf(),
        final(map)@ == with_user(old(map)@, username@).update(
            entry_index(old(map)@, username@),
            (username@, append_new_seen(items_of(old(map)@, username@), vids@)),
        ),
{
    proof {
        lemma_with_user(map@, username@);
    }
    let i = map.entry(username);
    let mut items = map.take_items(i);
    let ghost existing = items@;
    let mut k: usize = 0;
    while k < vids.len()
        invariant
            k <= vids@.len(),
            items@ == append_new_seen(existing, vids@.take(k as int)),
        decreases vids@.len() - k,
    {
        proof {
            assert(vids@.take(k + 1).drop_last() == vids@.take(k as int));
            assert(vids@.take(k + 1).last() == vids@[k as int]);
        }
        if !contains_video_id(&items, vids[k].video_id) {
            items.push(vids[k].clone());
        }
        k = k + 1;
    }
    assert(vids@.take(vids@.len() as int) == vids@);
    map.put_items(i, items);
}

/// `v` after its status was set at `now`: a download records the date, a
/// reset clears it, a failure keeps it.
pub open spec fn with_status(v: SeenVideo, status: DownloadStatus, now: DownloadDate) -> SeenVideo {
    SeenVideo {
        download_status: status,
        download_date: match status {
            DownloadStatus::Downloaded => Some(now),
            DownloadStatus::NotDownloaded => None,
            DownloadStatus::DownloadFailed => v.download_date,
        },
        ..v
    }
}

pub open spec fn first_with_video_id(vs: Seq<SeenVideo>, id: i64) -> int {
    choose|k: int| 0 <= k < vs.len() && vs[k].video_id == id && forall|j: int| 0 <= j < k ==> #[trigger] vs[j].video_id != id
}

/// Sets the status of `user`'s first video with id `video_id`.
pub fn update_download_status(
    map: &mut SeenVideoMap,
    username: &str,
    video_id: i64,
    status: DownloadStatus,
    now: DownloadDate,
)
    requires
        old(map).wf(),
    ensures
        final(map).wf(),
        !(has_user(old(map)@, username@) && has_video_id(items_of(old(map)@, username@), video_id))
            ==> final(map)@ == old(map)@,
        (has_user(old(map)@, username@) && has_video_id(items_of(old(map)@, username@), video_id))
            ==> ({
            let b = user_index(old(map)@, username@);
            let vs = old(map)@[b].1;
            let k = first_with_video_id(vs, video_id);
            final(map)@ == old(map)@.update(b, (username@, vs.update(k, with_status(vs[k], status, now))))
        }),
{
    let b = match map.find(username) {
        Some(b) => b,
        None => return,
    };
    let ghost vs = map@[b as int].1;
    let mut k: usize = 0;
    while k < map.items(b).len()
        invariant
            b < map@.len(),
            map@[b as int].1 == vs,
            k <= vs.len(),
            forall|j: int| 0 <= j < k ==> #[trigger] vs[j].video_id != video_id,
        ensures
            k <= vs.len(),
            forall|j: int| 0 <= j < k ==> #[trigger] vs[j].video_id != video_id,
            k < vs.len() ==> vs[k as int].video_id == video_id,
        decreases vs.len() - k,
    {
        if map.items(b)[k].video_id == video_id {
            break;
        }
        k = k + 1;
    }
    if k == map.items(b).len() {
        assert(!has_video_id(vs, video_id));
        return;
    }
    assert(k as int == first_with_video_id(vs, video_id));
    let mut items = map.take_items(b);
    let mut v = items[k].clone();
    v.download_status = status;
    match status {
        DownloadStatus::Downloaded => v.download_date = Some(now),
        DownloadStatus::NotDownloaded => v.download_date = None,
        DownloadStatus::DownloadFailed => {},
    }
    items.set(k, v);
    map.put_items(b, items);
}

/// The number of seen videos of each user, in the record's order.
pub fn total_seen_videos(map: &SeenVideoMap) -> (r: Vec<(String, usize)>)
    ensures
        r@.len() == map@.len(),
        forall|k: int| 0 <= k < r@.len() ==> (#[trigger] r@[k]).0@ == map@[k].0 && r@[k].1 == map@[k].1.len(),
{
    let mut r: Vec<(String, usize)> = Vec::new();
    let mut k: usize = 0;
    while k < map.len()
        invariant
            k <= map@.len(),
            r@.len() == k,
            forall|j: int| 0 <= j < k ==> (#[trigger] r@[j]).0@ == map@[j].0 && r@[j].1 == map@[j].1.len(),
        decreases map@.len() - k,
    {
        r.push((map.user(k).clone(), map.items(k).len()));
        k = k + 1;
    }
    r
}

} // verus!
