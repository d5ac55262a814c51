//! Per-user lists: the shape of the video database, a map from a user name
//! to that user's items, kept as a sequence of distinct names.

use vstd::prelude::*;

verus! {

/// One user's items.
pub struct Bucket<T> {
    pub user: String,
    pub items: Vec<T>,
}

/// A map from user name to items; no name occurs twice (`wf`).
pub struct Buckets<T> {
    pub entries: Vec<Bucket<T>>,
}

impl<T> View for Buckets<T> {
    type V = Seq<(Seq<char>, Seq<T>)>;

    open spec fn view(&self) -> Self::V {
        self.entries@.map_values(|b: Bucket<T>| (b.user@, b.items@))
    }
}

/// No user name occurs twice.
pub open spec fn users_distinct<T>(v: Seq<(Seq<char>, Seq<T>)>) -> bool {
    forall|i: int, j: int| 0 <= i < j < v.len() ==> #[trigger] v[i].0 != #[trigger] v[j].0
}

/// `user` has a bucket.
pub open spec fn has_user<T>(v: Seq<(Seq<char>, Seq<T>)>, user: Seq<char>) -> bool {
    exists|i: int| 0 <= i < v.len() && #[trigger] v[i].0 == user
}

/// The position of `user`'s bucket, where it has one.
pub open spec fn user_index<T>(v: Seq<(Seq<char>, Seq<T>)>, user: Seq<char>) -> int {
    choose|i: int| 0 <= i < v.len() && #[trigger] v[i].0 == user
}

/// The buckets after `user` got one if it had none (`entry(..).or_default()`).
pub open spec fn with_user<T>(v: Seq<(Seq<char>, Seq<T>)>, user: Seq<char>) -> Seq<
    (Seq<char>, Seq<T>),
> {
    if has_user(v, user) {
        v
    } else {
        v.push((user, Seq::empty()))
    }
}

/// The position of `user`'s bucket in `with_user(v, user)`.
pub open spec fn entry_index<T>(v: Seq<(Seq<char>, Seq<T>)>, user: Seq<char>) -> int {
    if has_user(v, user) {
        user_index(v, user)
    } else {
        v.len() as int
    }
}

/// The items of `user`, empty where it has no bucket.
pub open spec fn items_of<T>(v: Seq<(Seq<char>, Seq<T>)>, user: Seq<char>) -> Seq<T> {
    with_user(v, user)[entry_index(v, user)].1
}

pub proof fn lemma_user_index<T>(v: Seq<(Seq<char>, Seq<T>)>, user: Seq<char>, i: int)
    requires
        users_distinct(v),
        0 <= i < v.len(),
        v[i].0 == user,
    ensures
        has_user(v, user),
        user_index(v, user) == i,
{
    assert(v[i].0 == user);
    let j = user_index(v, user);
    if j != i {
        if j < i {
            assert(v[j].0 != v[i].0);
        } else {
            assert(v[i].0 != v[j].0);
        }
    }
}

pub proof fn lemma_with_user<T>(v: Seq<(Seq<char>, Seq<T>)>, user: Seq<char>)
    requires
        users_distinct(v),
    ensures
        users_distinct(with_user(v, user)),
        0 <= entry_index(v, user) < with_user(v, user).len(),
        with_user(v, user)[entry_index(v, user)].0 == user,
{
    if has_user(v, user) {
        let i = user_index(v, user);
        assert(v[i].0 == user);
    } else {
        let w = v.push((user, Seq::empty()));
        assert forall|i: int, j: int| 0 <= i < j < w.len() implies #[trigger] w[i].0
            != #[trigger] w[j].0 by {
            if j == v.len() {
                assert(w[i].0 == v[i].0);
                if v[i].0 == user {
                    assert(has_user(v, user));
                }
            } else {
                assert(w[i].0 == v[i].0 && w[j].0 == v[j].0);
            }
        }
    }
}

/// Replacing the items of a bucket keeps the names distinct.
pub proof fn lemma_update_items<T>(v: Seq<(Seq<char>, Seq<T>)>, i: int, items: Seq<T>)
    requires
        users_distinct(v),
        0 <= i < v.len(),
    ensures
        users_distinct(v.update(i, (v[i].0, items))),
{
    let w = v.update(i, (v[i].0, items));
    assert forall|a: int, b: int| 0 <= a < b < w.len() implies #[trigger] w[a].0
        != #[trigger] w[b].0 by {
        assert(w[a].0 == v[a].0 && w[b].0 == v[b].0);
    }
}

impl<T> Buckets<T> {
    pub open spec fn wf(&self) -> bool {
        users_distinct(self@)
    }

    pub fn new() -> (r: Self)
        ensures
            r@ == Seq::<(Seq<char>, Seq<T>)>::empty(),
            r.wf(),
    {
        let r = Buckets { entries: Vec::new() };
        assert(r@ =~= Seq::<(Seq<char>, Seq<T>)>::empty());
        r
    }

    pub fn len(&self) -> (r: usize)
        ensures
            r == self@.len(),
    {
        self.entries.len()
    }

    /// The name of bucket `i`.
    pub fn user(&self, i: usize) -> (r: &String)
        requires
            i < self@.len(),
        ensures
            r@ == self@[i as int].0,
    {
        &self.entries[i].user
    }

    /// The items of bucket `i`.
    pub fn items(&self, i: usize) -> (r: &Vec<T>)
        requires
            i < self@.len(),
        ensures
            r@ == self@[i as int].1,
    {
        &self.entries[i].items
    }

    /// The position of `user`'s bucket.
    pub fn find(&self, user: &str) -> (r: Option<usize>)
        requires
            self.wf(),
        ensures
            r is None <==> !has_user(self@, user@),
            r matches Some(i) ==> i < self@.len() && self@[i as int].0 == user@ && i
                == user_index(self@, user@),
    {
        let wanted = user.to_owned();
        let mut i: usize = 0;
        while i < self.entries.len()
            invariant
                wanted@ == user@,
                i <= self@.len(),
                self.wf(),
                forall|j: int| 0 <= j < i ==> #[trigger] self@[j].0 != user@,
            decreases self@.len() - i,
        {
            if self.entries[i].user == wanted {
                assert(self@[i as int].0 == user@);
                proof {
                    lemma_user_index(self@, user@, i as int);
                }
                return Some(i);
            }
            assert(self@[i as int].0 != user@);
            i = i + 1;
        }
        assert(!has_user(self@, user@));
        None
    }

    /// The position of `user`'s bucket, made empty where it had none
    /// (`entry(user).or_default()`).
    pub fn entry(&mut self, user: &str) -> (i: usize)
        requires
            old(self).wf(),
        ensures
            final(self).wf(),
            final(self)@ == with_user(old(self)@, user@),
            i == entry_index(old(self)@, user@),
            i < final(self)@.len(),
            final(self)@[i as int].0 == user@,
    {
        proof {
            lemma_with_user(self@, user@);
        }
        match self.find(user) {
            Some(i) => i,
            None => {
                let n = self.entries.len();
                let ghost before = self@;
                self.entries.push(Bucket { user: user.to_owned(), items: Vec::new() });
                assert(self@ =~= before.push((user@, Seq::empty())));
                n
            },
        }
    }

    /// Gives `user` exactly `items`, replacing what it had.
    pub fn insert_bucket(&mut self, user: &str, items: Vec<T>)
        requires
            old(self).wf(),
        ensures
            final(self).wf(),
            final(self)@ == with_user(old(self)@, user@).update(
                entry_index(old(self)@, user@),
                (user@, items@),
            ),
    {
        let i = self.entry(user);
        let _ = self.take_items(i);
        self.put_items(i, items);
    }

    /// Moves the items of bucket `i` out, leaving it empty.
    pub fn take_items(&mut self, i: usize) -> (r: Vec<T>)
        requires
            old(self).wf(),
            i < old(self)@.len(),
        ensures
            final(self).wf(),
            r@ == old(self)@[i as int].1,
            final(self)@ == old(self)@.update(i as int, (old(self)@[i as int].0, Seq::empty())),
    {
        let ghost before = self@;
        let mut b = Bucket { user: String::new(), items: Vec::new() };
        self.entries.set_and_swap(i, &mut b);
        let r = b.items;
        let user = b.user;
        self.entries.set(i, Bucket { user, items: Vec::new() });
        proof {
            assert(self@ =~= before.update(i as int, (before[i as int].0, Seq::empty())));
            lemma_update_items(before, i as int, Seq::empty());
        }
        r
    }

    /// Gives bucket `i` the items `items`.
    pub fn put_items(&mut self, i: usize, items: Vec<T>)
        requires
            old(self).wf(),
            i < old(self)@.len(),
        ensures
            final(self).wf(),
            final(self)@ == old(self)@.update(i as int, (old(self)@[i as int].0, items@)),
    {
        let ghost before = self@;
        let mut b = Bucket { user: String::new(), items: Vec::new() };
        self.entries.set_and_swap(i, &mut b);
        let user = b.user;
        self.entries.set(i, Bucket { user, items });
        proof {
            assert(self@ =~= before.update(i as int, (before[i as int].0, items@)));
            lemma_update_items(before, i as int, items@);
        }
    }
}

} // verus!
