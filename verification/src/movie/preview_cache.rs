//! A small cache of the first pictures of movies.
//!
//! The pictures do not change, so they may outlive a restart of the scene.
//! The ones used least recently leave first.

use vstd::prelude::*;
use std::collections::VecDeque;
use std::sync::Arc;
use crate::assets::{share, RgbaImage};
use crate::paths;
use crate::paths::is_same_path;

verus! {

/// How many bytes of pixels the cache holds at most.
pub const MAX_BYTES: usize = 33554432;

/// How many pictures the cache holds at most.
pub const MAX_ENTRIES: usize = 8;

/// The cache, the least recently used picture first.
#[derive(Debug)]
pub struct PreviewCache {
    pub entries: VecDeque<(String, Arc<RgbaImage>)>,
    /// How many bytes of pixels the pictures have together.
    pub bytes: usize,
}

/// The bytes of a row of pictures.
pub open spec fn total(entries: Seq<(String, Arc<RgbaImage>)>) -> int
    decreases entries.len(),
{
    if entries.len() == 0 {
        0
    } else {
        entries[0].1.rgba@.len() + total(entries.drop_first())
    }
}

/// Whether `path` is the key of the entry at `i`.
pub open spec fn keyed(entries: Seq<(String, Arc<RgbaImage>)>, path: Seq<char>, i: int) -> bool {
    0 <= i < entries.len() && paths::same_path(entries[i].0@, path)
}

/// Whether a picture is cached under `path`.
pub open spec fn cached(entries: Seq<(String, Arc<RgbaImage>)>, path: Seq<char>) -> bool {
    exists|i: int| keyed(entries, path, i)
}

/// Where the picture for `path` stands.
pub open spec fn place(entries: Seq<(String, Arc<RgbaImage>)>, path: Seq<char>) -> int {
    choose|i: int| keyed(entries, path, i)
}

/// The entries without the one for `path`.
pub open spec fn without(entries: Seq<(String, Arc<RgbaImage>)>, path: Seq<char>) -> Seq<
    (String, Arc<RgbaImage>),
> {
    if cached(entries, path) {
        entries.remove(place(entries, path))
    } else {
        entries
    }
}

/// The entries that stay when the oldest leave until at most `room` bytes and
/// fewer than `slots` pictures are left.
pub open spec fn trimmed(entries: Seq<(String, Arc<RgbaImage>)>, room: int, slots: int) -> Seq<
    (String, Arc<RgbaImage>),
>
    decreases entries.len(),
{
    if entries.len() > 0 && (total(entries) > room || entries.len() >= slots) {
        trimmed(entries.drop_first(), room, slots)
    } else {
        entries
    }
}

pub open spec fn distinct(entries: Seq<(String, Arc<RgbaImage>)>) -> bool {
    forall|i: int, j: int|
        #![trigger entries[i], entries[j]]
        0 <= i < j < entries.len() ==> !paths::same_path(entries[i].0@, entries[j].0@)
}

proof fn lemma_total_remove(entries: Seq<(String, Arc<RgbaImage>)>, i: int)
    requires
        0 <= i < entries.len(),
    ensures
        total(entries) == total(entries.remove(i)) + entries[i].1.rgba@.len(),
    decreases entries.len(),
{
    let rest = entries.remove(i);
    if i == 0 {
        assert(rest =~= entries.drop_first());
    } else {
        lemma_total_remove(entries.drop_first(), i - 1);
        assert(rest.drop_first() =~= entries.drop_first().remove(i - 1));
        assert(rest[0] == entries[0]);
    }
}

proof fn lemma_total_push(entries: Seq<(String, Arc<RgbaImage>)>, e: (String, Arc<RgbaImage>))
    ensures
        total(entries.push(e)) == total(entries) + e.1.rgba@.len(),
    decreases entries.len(),
{
    let all = entries.push(e);
    if entries.len() == 0 {
        assert(all.drop_first() =~= Seq::<(String, Arc<RgbaImage>)>::empty());
        assert(total(all.drop_first()) == 0);
    } else {
        assert(all.drop_first() =~= entries.drop_first().push(e));
        lemma_total_push(entries.drop_first(), e);
    }
}

proof fn lemma_total_positive(entries: Seq<(String, Arc<RgbaImage>)>)
    ensures
        total(entries) >= 0,
    decreases entries.len(),
{
    if entries.len() > 0 {
        lemma_total_positive(entries.drop_first());
    }
}

proof fn lemma_place(entries: Seq<(String, Arc<RgbaImage>)>, path: Seq<char>, i: int)
    requires
        distinct(entries),
        keyed(entries, path, i),
    ensures
        cached(entries, path),
        place(entries, path) == i,
{
    let j = place(entries, path);
    assert(keyed(entries, path, j));
    if i < j {
        assert(!paths::same_path(entries[i].0@, entries[j].0@));
    } else if j < i {
        assert(!paths::same_path(entries[j].0@, entries[i].0@));
    }
}

proof fn lemma_trimmed(entries: Seq<(String, Arc<RgbaImage>)>, room: int, slots: int)
    ensures
        ({
            let t = trimmed(entries, room, slots);
            let n = entries.len() - t.len();
            &&& n >= 0
            &&& t == entries.skip(n)
            &&& room >= 0 ==> total(t) <= room
            &&& slots >= 1 ==> t.len() < slots
        }),
    decreases entries.len(),
{
    if entries.len() > 0 && (total(entries) > room || entries.len() >= slots) {
        lemma_trimmed(entries.drop_first(), room, slots);
        let t = trimmed(entries, room, slots);
        let n = entries.len() - t.len();
        assert(entries.drop_first().skip(n - 1) =~= entries.skip(n));
    } else {
        assert(entries.skip(0) =~= entries);
    }
}

impl PreviewCache {
    /// No path occurs twice, and the bytes are counted.
    pub open spec fn wf(&self) -> bool {
        &&& distinct(self.entries@)
        &&& self.bytes == total(self.entries@)
    }

    pub fn new() -> (c: PreviewCache)
        ensures
            c.wf(),
            c.entries@.len() == 0,
            c.bytes == 0,
    {
        PreviewCache { entries: VecDeque::new(), bytes: 0 }
    }

    pub fn len(&self) -> (n: usize)
        ensures
            n == self.entries@.len(),
    {
        self.entries.len()
    }

    fn find(&self, path: &str) -> (r: Option<usize>)
        requires
            self.wf(),
        ensures
            match r {
                Some(i) => keyed(self.entries@, path@, i as int) && place(self.entries@, path@)
                    == i,
                None => !cached(self.entries@, path@),
            },
    {
        let mut i: usize = 0;
        while i < self.entries.len()
            invariant
                self.wf(),
                i <= self.entries@.len(),
                forall|k: int| 0 <= k < i ==> !keyed(self.entries@, path@, k),
            decreases self.entries@.len() - i,
        {
            if is_same_path(self.entries[i].0.as_str(), path) {
                proof {
                    assert(keyed(self.entries@, path@, i as int));
                    lemma_place(self.entries@, path@, i as int);
                }
                return Some(i);
            }
            i = i + 1;
        }
        None
    }

    /// The picture for `path`, which then counts as used last.
    pub fn get(&mut self, path: &str) -> (r: Option<Arc<RgbaImage>>)
        requires
            old(self).wf(),
        ensures
            final(self).wf(),
            final(self).bytes == old(self).bytes,
            match r {
                Some(image) => {
                    let i = place(old(self).entries@, path@);
                    &&& cached(old(self).entries@, path@)
                    &&& image == old(self).entries@[i].1
                    &&& final(self).entries@ == old(self).entries@.remove(i).push(
                        old(self).entries@[i],
                    )
                },
                None => !cached(old(self).entries@, path@) && final(self).entries@ == old(
                    self,
                ).entries@,
            },
    {
        let index: usize = match self.find(path) {
            Some(i) => i,
            None => {
                return None;
            },
        };
        match self.entries.remove(index) {
            Some(entry) => {
                let image = share(&entry.1);
                proof {
                    lemma_total_remove(old(self).entries@, index as int);
                    lemma_total_push(old(self).entries@.remove(index as int), entry);
                }
                self.entries.push_back(entry);
                Some(image)
            },
            None => None,
        }
    }

    /// Caches a picture within the limits of the cache.
    pub fn insert(&mut self, path: String, image: Arc<RgbaImage>)
        requires
            old(self).wf(),
        ensures
            final(self).wf(),
            final(self).entries@ == inserted(
                old(self).entries@,
                path,
                image,
                MAX_BYTES as int,
                MAX_ENTRIES as int,
            ),
    {
        self.insert_with_limits(path, image, MAX_BYTES, MAX_ENTRIES);
    }

    /// Caches a picture. It replaces the one that was cached under the same
    /// path, and the oldest leave to make room. One that is too large for
    /// the cache is not cached.
    pub fn insert_with_limits(
        &mut self,
        path: String,
        image: Arc<RgbaImage>,
        max_bytes: usize,
        max_entries: usize,
    )
        requires
            old(self).wf(),
        ensures
            final(self).wf(),
            final(self).entries@ == inserted(
                old(self).entries@,
                path,
                image,
                max_bytes as int,
                max_entries as int,
            ),
    {
        if let Some(index) = self.find(path.as_str()) {
            proof {
                lemma_total_remove(self.entries@, index as int);
                lemma_total_positive(self.entries@.remove(index as int));
            }
            if let Some(old_entry) = self.entries.remove(index) {
                self.bytes = self.bytes - old_entry.1.rgba.len();
            }
        }
        let ghost kept = self.entries@;
        proof {
            lemma_without(old(self).entries@, path@);
            assert(kept == without(old(self).entries@, path@));
        }
        let size: usize = image.rgba.len();
        if size > max_bytes || max_entries == 0 {
            return;
        }
        let room: usize = max_bytes - size;
        while self.bytes > room || self.entries.len() >= max_entries
            invariant
                self.wf(),
                max_entries > 0,
                trimmed(self.entries@, room as int, max_entries as int) == trimmed(
                    kept,
                    room as int,
                    max_entries as int,
                ),
                forall|k: int|
                    #![auto]
                    0 <= k < self.entries@.len() ==> !paths::same_path(
                        self.entries@[k].0@,
                        path@,
                    ),
            decreases self.entries@.len(),
        {
            proof {
                lemma_total_positive(self.entries@.drop_first());
                assert(self.entries@.drop_first() =~= self.entries@.subrange(
                    1,
                    self.entries@.len() as int,
                ));
            }
            let ghost before = self.entries@;
            if let Some(old_entry) = self.entries.pop_front() {
                self.bytes = self.bytes - old_entry.1.rgba.len();
                proof {
                    assert(self.entries@ =~= before.drop_first());
                }
            }
        }
        self.bytes = self.bytes + size;
        proof {
            lemma_total_push(self.entries@, (path, image));
        }
        self.entries.push_back((path, image));
    }
}

proof fn lemma_without(entries: Seq<(String, Arc<RgbaImage>)>, path: Seq<char>)
    requires
        distinct(entries),
    ensures
        distinct(without(entries, path)),
        !cached(without(entries, path), path),
        forall|k: int|
            #![auto]
            0 <= k < without(entries, path).len() ==> !paths::same_path(without(entries, path)[k].0@, path),
{
    let rest = without(entries, path);
    if cached(entries, path) {
        let i = place(entries, path);
        assert(keyed(entries, path, i));
        assert forall|k: int| 0 <= k < rest.len() implies !paths::same_path(
            (#[trigger] rest[k]).0@,
            path,
        ) by {
            if k < i {
                assert(entries[k].0@ != entries[i].0@);
            } else {
                assert(entries[i].0@ != entries[k + 1].0@);
            }
        }
    } else {
        assert forall|k: int| 0 <= k < rest.len() implies !paths::same_path(
            (#[trigger] rest[k]).0@,
            path,
        ) by {
            assert(!keyed(entries, path, k));
        }
    }
}

/// The entries after a picture was cached.
pub open spec fn inserted(
    entries: Seq<(String, Arc<RgbaImage>)>,
    path: String,
    image: Arc<RgbaImage>,
    max_bytes: int,
    max_entries: int,
) -> Seq<(String, Arc<RgbaImage>)> {
    let kept = without(entries, path@);
    let size = image.rgba@.len() as int;
    if size > max_bytes || max_entries == 0 {
        kept
    } else {
        trimmed(kept, max_bytes - size, max_entries).push((path, image))
    }
}

/// A picture that fits stays within both limits, stands last, and the others
/// that stay are the ones used most recently, in their order.
pub proof fn insertion_keeps_the_limits(
    entries: Seq<(String, Arc<RgbaImage>)>,
    path: String,
    image: Arc<RgbaImage>,
    max_bytes: int,
    max_entries: int,
)
    requires
        image.rgba@.len() <= max_bytes,
        max_entries >= 1,
    ensures
        ({
            let after = inserted(entries, path, image, max_bytes, max_entries);
            &&& total(after) <= max_bytes
            &&& 1 <= after.len() <= max_entries
            &&& after.last() == (path, image)
            &&& after.drop_last() == without(entries, path@).skip(
                without(entries, path@).len() - (after.len() - 1),
            )
        }),
{
    let kept = without(entries, path@);
    let room = max_bytes - image.rgba@.len();
    lemma_trimmed(kept, room, max_entries);
    lemma_total_push(trimmed(kept, room, max_entries), (path, image));
    let after = inserted(entries, path, image, max_bytes, max_entries);
    assert(after.drop_last() =~= trimmed(kept, room, max_entries));
}

/// A picture that fits is found under its path afterwards.
pub proof fn inserted_picture_is_found(
    entries: Seq<(String, Arc<RgbaImage>)>,
    path: String,
    image: Arc<RgbaImage>,
    max_bytes: int,
    max_entries: int,
)
    requires
        distinct(entries),
        image.rgba@.len() <= max_bytes,
        max_entries >= 1,
    ensures
        ({
            let after = inserted(entries, path, image, max_bytes, max_entries);
            &&& cached(after, path@)
            &&& after[place(after, path@)].1 == image
        }),
{
    let after = inserted(entries, path, image, max_bytes, max_entries);
    let kept = without(entries, path@);
    let room = max_bytes - image.rgba@.len();
    lemma_without(entries, path@);
    lemma_trimmed(kept, room, max_entries);
    let t = trimmed(kept, room, max_entries);
    let n = kept.len() - t.len();
    let last = after.len() - 1;
    assert(keyed(after, path@, last));
    let p = place(after, path@);
    assert(keyed(after, path@, p));
    if p < last {
        assert(after[p] == kept[p + n]);
        assert(!paths::same_path(kept[p + n].0@, path@));
    }
}

/// No picture leaves that could stay: where some had to leave to make room, the
/// last of them would have been too much.
pub proof fn pictures_leave_only_to_make_room(
    entries: Seq<(String, Arc<RgbaImage>)>,
    room: int,
    slots: int,
    n: int,
)
    requires
        n == entries.len() - trimmed(entries, room, slots).len(),
        n > 0,
    ensures
        ({
            let more = entries.skip(n - 1);
            total(more) > room || more.len() >= slots
        }),
    decreases entries.len(),
{
    lemma_trimmed(entries, room, slots);
    let rest = entries.drop_first();
    lemma_trimmed(rest, room, slots);
    if n == 1 {
        assert(entries.skip(0) =~= entries);
    } else {
        pictures_leave_only_to_make_room(rest, room, slots, n - 1);
        assert(rest.skip(n - 2) =~= entries.skip(n - 1));
    }
}

} // verus!
