//! The images in memory, and which of them leave when memory runs short.

use vstd::prelude::*;
use std::sync::Arc;
use crate::assets::RgbaImage;

verus! {

/// The number of an image. A number is never used again for another image.
#[derive(Debug, Clone, Copy, PartialEq, Eq, Structural)]
pub struct ImageId(pub u32);

impl ImageId {
    pub fn index(self) -> (i: usize)
        ensures
            i == self.0,
    {
        self.0 as usize
    }
}

/// A place for an image. It is empty once the image has left.
#[derive(Debug)]
pub struct ImageEntry {
    pub img: Option<Arc<RgbaImage>>,
    /// How often the image has been replaced.
    pub version: u64,
    pub last_used: u64,
}

/// The sum, or the largest number where the sum is above it.
pub open spec fn sat_add(a: int, b: int) -> int {
    if a + b > usize::MAX {
        usize::MAX as int
    } else {
        a + b
    }
}

/// The difference, or 0 where it is below 0.
pub open spec fn sat_sub(a: int, b: int) -> int {
    if a < b {
        0
    } else {
        a - b
    }
}

/// The bytes of pixels at a place.
pub open spec fn bytes_at(entry: ImageEntry) -> int {
    match entry.img {
        Some(img) => img.rgba@.len() as int,
        None => 0,
    }
}

/// The bytes of pixels at all places.
pub open spec fn bytes_of(images: Seq<ImageEntry>) -> int
    decreases images.len(),
{
    if images.len() == 0 {
        0
    } else {
        bytes_of(images.drop_last()) + bytes_at(images.last())
    }
}

pub proof fn lemma_bytes_not_negative(images: Seq<ImageEntry>)
    ensures
        bytes_of(images) >= 0,
    decreases images.len(),
{
    if images.len() > 0 {
        lemma_bytes_not_negative(images.drop_last());
    }
}

/// What another entry at a place does to the bytes.
pub proof fn lemma_bytes_update(images: Seq<ImageEntry>, i: int, entry: ImageEntry)
    requires
        0 <= i < images.len(),
    ensures
        bytes_of(images.update(i, entry)) == bytes_of(images) - bytes_at(images[i]) + bytes_at(
            entry,
        ),
        bytes_at(images[i]) <= bytes_of(images),
    decreases images.len(),
{
    let after = images.update(i, entry);
    lemma_bytes_not_negative(images.drop_last());
    if i == images.len() - 1 {
        assert(after.drop_last() =~= images.drop_last());
    } else {
        lemma_bytes_update(images.drop_last(), i, entry);
        assert(after.drop_last() =~= images.drop_last().update(i, entry));
    }
}

/// Whether an image is there.
pub open spec fn present(images: Seq<ImageEntry>, id: ImageId) -> bool {
    id.0 < images.len() && images[id.0 as int].img is Some
}

/// The place without its image.
pub open spec fn emptied(entry: ImageEntry) -> ImageEntry {
    ImageEntry { img: None, ..entry }
}

/// The images after the image `id` has left.
pub open spec fn without_one(images: Seq<ImageEntry>, id: ImageId) -> Seq<ImageEntry> {
    if present(images, id) {
        images.update(id.0 as int, emptied(images[id.0 as int]))
    } else {
        images
    }
}

/// The images after the images of a group have left.
pub open spec fn without_group(images: Seq<ImageEntry>, group: Seq<ImageId>) -> Seq<ImageEntry>
    decreases group.len(),
{
    if group.len() == 0 {
        images
    } else {
        without_one(without_group(images, group.drop_last()), group.last())
    }
}

/// The bytes that are counted after the images of a group have left.
pub open spec fn bytes_after(images: Seq<ImageEntry>, bytes: int, group: Seq<ImageId>) -> int
    decreases group.len(),
{
    if group.len() == 0 {
        bytes
    } else {
        let before = without_group(images, group.drop_last());
        let left = bytes_after(images, bytes, group.drop_last());
        if present(before, group.last()) {
            sat_sub(left, bytes_at(before[group.last().0 as int]))
        } else {
            left
        }
    }
}

/// When an image of a group was last used.
pub open spec fn age(images: Seq<ImageEntry>, group: Seq<ImageId>) -> int
    decreases group.len(),
{
    if group.len() == 0 {
        0
    } else {
        let before = age(images, group.drop_last());
        let id = group.last().0 as int;
        if id < images.len() && images[id].last_used > before {
            images[id].last_used as int
        } else {
            before
        }
    }
}

/// The images after the groups with the numbers `picks` have left, one after
/// the other.
pub open spec fn without_groups(
    images: Seq<ImageEntry>,
    groups: Seq<Seq<ImageId>>,
    picks: Seq<int>,
) -> Seq<ImageEntry>
    decreases picks.len(),
{
    if picks.len() == 0 {
        images
    } else {
        without_group(without_groups(images, groups, picks.drop_last()), groups[picks.last()])
    }
}

/// The bytes that are counted then.
pub open spec fn bytes_after_groups(
    images: Seq<ImageEntry>,
    bytes: int,
    groups: Seq<Seq<ImageId>>,
    picks: Seq<int>,
) -> int
    decreases picks.len(),
{
    if picks.len() == 0 {
        bytes
    } else {
        bytes_after(
            without_groups(images, groups, picks.drop_last()),
            bytes_after_groups(images, bytes, groups, picks.drop_last()),
            groups[picks.last()],
        )
    }
}

/// Whether `picks` are the groups that leave to come within the budget: those
/// used least recently first, and no more than needed. Between groups of the
/// same age nothing is said.
pub open spec fn leaves_in_order(
    images: Seq<ImageEntry>,
    bytes: int,
    budget: int,
    groups: Seq<Seq<ImageId>>,
    picks: Seq<int>,
) -> bool {
    &&& forall|k: int| 0 <= k < picks.len() ==> 0 <= #[trigger] picks[k] < groups.len()
    &&& forall|j: int, k: int|
        #![trigger picks[j], picks[k]]
        0 <= j < k < picks.len() ==> picks[j] != picks[k] && age(images, groups[picks[j]]) <= age(
            images,
            groups[picks[k]],
        )
    &&& forall|k: int, g: int|
        #![trigger picks[k], groups[g]]
        0 <= k < picks.len() && 0 <= g < groups.len() && !picks.contains(g) ==> age(
            images,
            groups[picks[k]],
        ) <= age(images, groups[g])
    &&& forall|k: int|
        0 <= k < picks.len() ==> #[trigger] bytes_after_groups(
            images,
            bytes,
            groups,
            picks.take(k),
        ) > budget
    &&& bytes_after_groups(images, bytes, groups, picks) <= budget || forall|g: int|
        0 <= g < groups.len() ==> #[trigger] picks.contains(g)
}

/// Whether an image was there before and is gone now.
pub open spec fn is_gone(before: Seq<ImageEntry>, after: Seq<ImageEntry>, i: int) -> bool {
    0 <= i < before.len() && before[i].img is Some && after[i].img is None
}

/// How many of the first `n` images are gone.
pub open spec fn gone_count(before: Seq<ImageEntry>, after: Seq<ImageEntry>, n: int) -> int
    decreases n,
{
    if n <= 0 {
        0
    } else {
        gone_count(before, after, n - 1) + if is_gone(before, after, n - 1) {
            1int
        } else {
            0int
        }
    }
}

pub proof fn lemma_gone_same(a: Seq<ImageEntry>, b: Seq<ImageEntry>, c: Seq<ImageEntry>, n: int)
    requires
        forall|i: int| 0 <= i < n ==> is_gone(a, b, i) == is_gone(a, c, i),
    ensures
        gone_count(a, b, n) == gone_count(a, c, n),
    decreases n,
{
    if n > 0 {
        lemma_gone_same(a, b, c, n - 1);
    }
}

proof fn lemma_gone_none(a: Seq<ImageEntry>, n: int)
    ensures
        gone_count(a, a, n) == 0,
    decreases n,
{
    if n > 0 {
        lemma_gone_none(a, n - 1);
    }
}

proof fn lemma_gone_one(
    before: Seq<ImageEntry>,
    now: Seq<ImageEntry>,
    id: ImageId,
    n: int,
)
    requires
        now.len() == before.len(),
        id.0 < n <= before.len(),
        before[id.0 as int].img is Some,
        present(now, id),
    ensures
        gone_count(before, without_one(now, id), n) == gone_count(before, now, n) + 1,
    decreases n,
{
    let next = without_one(now, id);
    if n == id.0 + 1 {
        lemma_gone_same(before, now, next, n - 1);
    } else {
        lemma_gone_one(before, now, id, n - 1);
        assert(next[n - 1] == now[n - 1]);
    }
}

proof fn lemma_gone_bound(a: Seq<ImageEntry>, b: Seq<ImageEntry>, n: int)
    requires
        0 <= n,
    ensures
        0 <= gone_count(a, b, n) <= n,
    decreases n,
{
    if n > 0 {
        lemma_gone_bound(a, b, n - 1);
    }
}

/// Whether the places are those before, some of them emptied.
pub open spec fn only_emptied(before: Seq<ImageEntry>, after: Seq<ImageEntry>) -> bool {
    &&& after.len() == before.len()
    &&& forall|i: int|
        0 <= i < before.len() ==> #[trigger] after[i] == before[i] || after[i] == emptied(before[i])
}

/// What the eviction has done so far.
pub struct Eviction {
    pub bytes: usize,
    pub count: usize,
    pub gone: Vec<bool>,
}

/// Whether the flags tell which images are gone.
pub open spec fn tells_gone(
    before: Seq<ImageEntry>,
    after: Seq<ImageEntry>,
    gone: Seq<bool>,
) -> bool {
    &&& gone.len() == before.len()
    &&& forall|i: int| 0 <= i < before.len() ==> #[trigger] gone[i] == is_gone(before, after, i)
}

/// Lets the images of a group leave.
fn evict_group(
    Ghost(before): Ghost<Seq<ImageEntry>>,
    images: &mut Vec<ImageEntry>,
    ev: &mut Eviction,
    group: &Vec<ImageId>,
)
    requires
        only_emptied(before, old(images)@),
        tells_gone(before, old(images)@, old(ev).gone@),
        old(ev).count == gone_count(before, old(images)@, before.len() as int),
        forall|k: int| 0 <= k < group@.len() ==> (#[trigger] group@[k]).0 < before.len(),
    ensures
        only_emptied(before, final(images)@),
        tells_gone(before, final(images)@, final(ev).gone@),
        final(ev).count == gone_count(before, final(images)@, before.len() as int),
        final(images)@ == without_group(old(images)@, group@),
        final(ev).bytes == bytes_after(old(images)@, old(ev).bytes as int, group@),
{
    let mut k: usize = 0;
    let ghost start = images@;
    let ghost start_bytes = ev.bytes as int;
    proof {
        assert(group@.take(0) =~= Seq::<ImageId>::empty());
    }
    while k < group.len()
        invariant
            k <= group@.len(),
            only_emptied(before, images@),
            tells_gone(before, images@, ev.gone@),
            ev.count == gone_count(before, images@, before.len() as int),
            forall|j: int| 0 <= j < group@.len() ==> (#[trigger] group@[j]).0 < before.len(),
            images@ == without_group(start, group@.take(k as int)),
            ev.bytes == bytes_after(start, start_bytes, group@.take(k as int)),
        decreases group@.len() - k,
    {
        let id: ImageId = group[k];
        let i: usize = id.index();
        let _places: usize = images.len();
        let ghost now = images@;
        proof {
            let taken = group@.take(k + 1);
            assert(taken.drop_last() =~= group@.take(k as int));
            assert(taken.last() == id);
        }
        let size: Option<usize> = match &images[i].img {
            Some(img) => Some(img.rgba.len()),
            None => None,
        };
        if let Some(n) = size {
            proof {
                assert(now[i as int] == before[i as int]);
                lemma_gone_one(before, now, id, before.len() as int);
                lemma_gone_bound(before, without_one(now, id), before.len() as int);
                assert(before.len() <= usize::MAX);
            }
            let e = &mut images[i];
            e.img = None;
            ev.bytes = if ev.bytes < n {
                0
            } else {
                ev.bytes - n
            };
            ev.gone.set(i, true);
            ev.count = ev.count + 1;
            proof {
                assert(images@ =~= without_one(now, id));
                assert forall|j: int| 0 <= j < before.len() implies #[trigger] images@[j]
                    == before[j] || images@[j] == emptied(before[j]) by {
                    assert(now[j] == before[j] || now[j] == emptied(before[j]));
                }
                assert forall|j: int| 0 <= j < before.len() implies #[trigger] ev.gone@[j]
                    == is_gone(before, images@, j) by {
                    if j != i {
                        assert(images@[j] == now[j]);
                    }
                }
            }
        }
        k = k + 1;
    }
    proof {
        assert(group@.take(k as int) =~= group@);
    }
}

pub open spec fn group_views(groups: Seq<Vec<ImageId>>) -> Seq<Seq<ImageId>> {
    groups.map_values(|g: Vec<ImageId>| g@)
}

fn group_age(images: &Vec<ImageEntry>, group: &Vec<ImageId>) -> (a: u64)
    ensures
        a == age(images@, group@),
{
    let mut a: u64 = 0;
    let mut k: usize = 0;
    proof {
        assert(group@.take(0) =~= Seq::<ImageId>::empty());
    }
    while k < group.len()
        invariant
            k <= group@.len(),
            a == age(images@, group@.take(k as int)),
        decreases group@.len() - k,
    {
        proof {
            let taken = group@.take(k + 1);
            assert(taken.drop_last() =~= group@.take(k as int));
            assert(taken.last() == group@[k as int]);
        }
        let i: usize = group[k].index();
        if i < images.len() {
            if images[i].last_used > a {
                a = images[i].last_used;
            }
        }
        k = k + 1;
    }
    proof {
        assert(group@.take(k as int) =~= group@);
    }
    a
}

fn group_ages(images: &Vec<ImageEntry>, groups: &Vec<Vec<ImageId>>) -> (ages: Vec<u64>)
    ensures
        ages@.len() == groups@.len(),
        forall|g: int|
            0 <= g < groups@.len() ==> #[trigger] ages@[g] == age(images@, groups@[g]@),
{
    let mut ages: Vec<u64> = Vec::new();
    let mut g: usize = 0;
    while g < groups.len()
        invariant
            g <= groups@.len(),
            ages@.len() == g,
            forall|h: int| 0 <= h < g ==> #[trigger] ages@[h] == age(images@, groups@[h]@),
        decreases groups@.len() - g,
    {
        ages.push(group_age(images, &groups[g]));
        g = g + 1;
    }
    ages
}

/// The group that was used least recently among those that have not left.
fn oldest_left(ages: &Vec<u64>, left: &Vec<bool>) -> (r: Option<usize>)
    requires
        ages@.len() == left@.len(),
    ensures
        match r {
            Some(g) => {
                &&& g < ages@.len()
                &&& left@[g as int]
                &&& forall|h: int|
                    0 <= h < ages@.len() && #[trigger] left@[h] ==> ages@[g as int] <= ages@[h]
            },
            None => forall|h: int| 0 <= h < ages@.len() ==> !#[trigger] left@[h],
        },
{
    let mut best: Option<usize> = None;
    let mut g: usize = 0;
    while g < ages.len()
        invariant
            g <= ages@.len(),
            ages@.len() == left@.len(),
            match best {
                Some(b) => {
                    &&& b < g
                    &&& left@[b as int]
                    &&& forall|h: int|
                        0 <= h < g && #[trigger] left@[h] ==> ages@[b as int] <= ages@[h]
                },
                None => forall|h: int| 0 <= h < g ==> !#[trigger] left@[h],
            },
        decreases ages@.len() - g,
    {
        if left[g] {
            let better: bool = match best {
                Some(b) => ages[g] < ages[b],
                None => true,
            };
            if better {
                best = Some(g);
            }
        }
        g = g + 1;
    }
    best
}

/// Lets groups of images leave until the budget is kept.
pub fn evict_groups(
    images: &mut Vec<ImageEntry>,
    bytes: usize,
    budget: usize,
    groups: &Vec<Vec<ImageId>>,
) -> (ev: Eviction)
    requires
        forall|g: int, k: int|
            #![trigger groups@[g]@[k]]
            0 <= g < groups@.len() && 0 <= k < groups@[g]@.len() ==> groups@[g]@[k].0 < old(
                images,
            )@.len(),
    ensures
        only_emptied(old(images)@, final(images)@),
        tells_gone(old(images)@, final(images)@, ev.gone@),
        ev.count == gone_count(old(images)@, final(images)@, old(images)@.len() as int),
        exists|picks: Seq<int>| #[trigger]
            leaves_in_order(
                old(images)@,
                bytes as int,
                budget as int,
                group_views(groups@),
                picks,
            ) && final(images)@ == without_groups(old(images)@, group_views(groups@), picks)
                && ev.bytes == bytes_after_groups(
                old(images)@,
                bytes as int,
                group_views(groups@),
                picks,
            ),
{
    let ghost before = images@;
    let ghost views = group_views(groups@);
    let ages = group_ages(images, groups);
    let mut left: Vec<bool> = Vec::new();
    left.resize(groups.len(), true);
    let mut gone: Vec<bool> = Vec::new();
    gone.resize(images.len(), false);
    let mut ev = Eviction { bytes, count: 0, gone };
    let ghost mut picks: Seq<int> = Seq::empty();
    proof {
        lemma_gone_none(before, before.len() as int);
    }
    while ev.bytes > budget
        invariant
            before == old(images)@,
            views == group_views(groups@),
            ages@.len() == groups@.len(),
            left@.len() == groups@.len(),
            forall|g: int| 0 <= g < groups@.len() ==> #[trigger] ages@[g] == age(before, views[g]),
            forall|g: int, k: int|
                #![trigger groups@[g]@[k]]
                0 <= g < groups@.len() && 0 <= k < groups@[g]@.len() ==> groups@[g]@[k].0
                    < before.len(),
            only_emptied(before, images@),
            tells_gone(before, images@, ev.gone@),
            ev.count == gone_count(before, images@, before.len() as int),
            forall|k: int| 0 <= k < picks.len() ==> 0 <= #[trigger] picks[k] < views.len(),
            forall|g: int| 0 <= g < views.len() ==> #[trigger] left@[g] == !picks.contains(g),
            forall|j: int, k: int|
                #![trigger picks[j], picks[k]]
                0 <= j < k < picks.len() ==> picks[j] != picks[k] && age(before, views[picks[j]])
                    <= age(before, views[picks[k]]),
            forall|k: int, g: int|
                #![trigger picks[k], views[g]]
                0 <= k < picks.len() && 0 <= g < views.len() && !picks.contains(g) ==> age(
                    before,
                    views[picks[k]],
                ) <= age(before, views[g]),
            forall|k: int|
                0 <= k < picks.len() ==> #[trigger] bytes_after_groups(
                    before,
                    bytes as int,
                    views,
                    picks.take(k),
                ) > budget,
            images@ == without_groups(before, views, picks),
            ev.bytes == bytes_after_groups(before, bytes as int, views, picks),
        ensures
            ev.bytes <= budget || forall|g: int| 0 <= g < views.len() ==> !#[trigger] left@[g],
        decreases unpicked(left@),
    {
        let g: usize = match oldest_left(&ages, &left) {
            Some(g) => g,
            None => {
                break;
            },
        };
        evict_group(Ghost(before), images, &mut ev, &groups[g]);
        let ghost was = left@;
        left.set(g, false);
        proof {
            let next = picks.push(g as int);
            assert(left@[g as int] == false);
            lemma_unpicked(was, g as int);
            assert(!picks.contains(g as int)) by {
                assert(was[g as int]);
            }
            assert(next.drop_last() =~= picks);
            assert(next.last() == g);
            assert(views[g as int] == groups@[g as int]@);
            assert forall|h: int| 0 <= h < views.len() implies #[trigger] left@[h]
                == !next.contains(h) by {
                if h == g {
                    assert(next[picks.len() as int] == g);
                } else {
                    assert(left@[h] == was[h]);
                    if picks.contains(h) {
                        let i = choose|i: int| 0 <= i < picks.len() && picks[i] == h;
                        assert(next[i] == h);
                    }
                    if next.contains(h) {
                        let i = choose|i: int| 0 <= i < next.len() && next[i] == h;
                        assert(i < picks.len());
                        assert(picks[i] == h);
                    }
                }
            }
            assert forall|j: int, k: int|
                #![trigger next[j], next[k]]
                0 <= j < k < next.len() implies next[j] != next[k] && age(before, views[next[j]])
                <= age(before, views[next[k]]) by {
                if k < picks.len() {
                    assert(picks[j] != picks[k]);
                } else {
                    assert(picks[j] == next[j]);
                    assert(picks.contains(picks[j]));
                    assert(!picks.contains(g as int));
                }
            }
            assert forall|k: int, h: int|
                #![trigger next[k], views[h]]
                0 <= k < next.len() && 0 <= h < views.len() && !next.contains(h) implies age(
                before,
                views[next[k]],
            ) <= age(before, views[h]) by {
                if picks.contains(h) {
                    let i = choose|i: int| 0 <= i < picks.len() && picks[i] == h;
                    assert(next[i] == h);
                }
                assert(was[h]);
                assert(ages@[h] == age(before, views[h]));
                assert(ages@[g as int] == age(before, views[g as int]));
                if k < picks.len() {
                    assert(picks[k] == next[k]);
                }
            }
            assert forall|k: int| 0 <= k < next.len() implies #[trigger] bytes_after_groups(
                before,
                bytes as int,
                views,
                next.take(k),
            ) > budget by {
                if k < picks.len() {
                    assert(next.take(k) =~= picks.take(k));
                } else {
                    assert(next.take(k) =~= picks);
                }
            }
            picks = next;
        }
    }
    proof {
        if ev.bytes > budget {
            assert forall|g: int| 0 <= g < views.len() implies #[trigger] picks.contains(g) by {
                assert(!left@[g]);
            }
        }
        assert(leaves_in_order(before, bytes as int, budget as int, views, picks));
    }
    ev
}

spec fn unpicked(left: Seq<bool>) -> nat
    decreases left.len(),
{
    if left.len() == 0 {
        0
    } else {
        unpicked(left.drop_last()) + if left.last() {
            1nat
        } else {
            0nat
        }
    }
}

proof fn lemma_unpicked(left: Seq<bool>, g: int)
    requires
        0 <= g < left.len(),
        left[g],
    ensures
        unpicked(left.update(g, false)) < unpicked(left),
    decreases left.len(),
{
    let after = left.update(g, false);
    if g == left.len() - 1 {
        assert(after.drop_last() =~= left.drop_last());
    } else {
        lemma_unpicked(left.drop_last(), g);
        assert(after.drop_last() =~= left.drop_last().update(g, false));
    }
}

proof fn lemma_without_group_keeps(images: Seq<ImageEntry>, group: Seq<ImageId>, i: int)
    requires
        0 <= i < images.len(),
        forall|k: int| 0 <= k < group.len() ==> (#[trigger] group[k]).0 != i,
    ensures
        without_group(images, group).len() == images.len(),
        without_group(images, group)[i] == images[i],
    decreases group.len(),
{
    if group.len() > 0 {
        assert forall|k: int| 0 <= k < group.len() - 1 implies (#[trigger] group.drop_last()[k]).0
            != i by {
            assert(group[k].0 != i);
        }
        lemma_without_group_keeps(images, group.drop_last(), i);
        assert(group[group.len() - 1].0 != i);
    }
}

/// Where all bytes were counted, all bytes of what is left are counted after a
/// group has left.
proof fn lemma_bytes_after(images: Seq<ImageEntry>, group: Seq<ImageId>)
    ensures
        bytes_after(images, bytes_of(images), group) == bytes_of(without_group(images, group)),
    decreases group.len(),
{
    if group.len() > 0 {
        lemma_bytes_after(images, group.drop_last());
        let before = without_group(images, group.drop_last());
        let id = group.last();
        if present(before, id) {
            lemma_bytes_update(before, id.0 as int, emptied(before[id.0 as int]));
        }
    }
}

/// Where all bytes were counted, all bytes of what is left are counted after
/// groups have left.
pub proof fn lemma_bytes_after_groups(
    images: Seq<ImageEntry>,
    groups: Seq<Seq<ImageId>>,
    picks: Seq<int>,
)
    ensures
        bytes_after_groups(images, bytes_of(images), groups, picks) == bytes_of(
            without_groups(images, groups, picks),
        ),
    decreases picks.len(),
{
    if picks.len() > 0 {
        lemma_bytes_after_groups(images, groups, picks.drop_last());
        lemma_bytes_after(without_groups(images, groups, picks.drop_last()), groups[picks.last()]);
    }
}

proof fn lemma_without_group_empties(images: Seq<ImageEntry>, group: Seq<ImageId>, i: int)
    requires
        0 <= i < images.len(),
        images[i].img is None || exists|k: int|
            0 <= k < group.len() && (#[trigger] group[k]).0 == i,
    ensures
        without_group(images, group).len() == images.len(),
        without_group(images, group)[i].img is None,
    decreases group.len(),
{
    if group.len() > 0 {
        let front = group.drop_last();
        if images[i].img is None {
            lemma_without_group_empties(images, front, i);
        } else {
            let k = choose|k: int| 0 <= k < group.len() && (#[trigger] group[k]).0 == i;
            if k < front.len() {
                assert(front[k].0 == i);
                lemma_without_group_empties(images, front, i);
            } else {
                lemma_without_group_len(images, front);
            }
        }
    }
}

proof fn lemma_without_group_len(images: Seq<ImageEntry>, group: Seq<ImageId>)
    ensures
        without_group(images, group).len() == images.len(),
    decreases group.len(),
{
    if group.len() > 0 {
        lemma_without_group_len(images, group.drop_last());
    }
}

proof fn lemma_without_groups_len(
    images: Seq<ImageEntry>,
    groups: Seq<Seq<ImageId>>,
    picks: Seq<int>,
)
    ensures
        without_groups(images, groups, picks).len() == images.len(),
    decreases picks.len(),
{
    if picks.len() > 0 {
        lemma_without_groups_len(images, groups, picks.drop_last());
        lemma_without_group_len(
            without_groups(images, groups, picks.drop_last()),
            groups[picks.last()],
        );
    }
}

/// An image of a group that was picked has left.
pub proof fn images_of_picked_groups_leave(
    images: Seq<ImageEntry>,
    groups: Seq<Seq<ImageId>>,
    picks: Seq<int>,
    p: int,
    k: int,
)
    requires
        0 <= p < picks.len(),
        0 <= picks[p] < groups.len(),
        0 <= k < groups[picks[p]].len(),
        groups[picks[p]][k].0 < images.len(),
    ensures
        without_groups(images, groups, picks)[groups[picks[p]][k].0 as int].img is None,
    decreases picks.len(),
{
    let i = groups[picks[p]][k].0 as int;
    let front = picks.drop_last();
    let before = without_groups(images, groups, front);
    lemma_without_groups_len(images, groups, front);
    if p < front.len() {
        assert(front[p] == picks[p]);
        images_of_picked_groups_leave(images, groups, front, p, k);
        lemma_without_group_empties(before, groups[picks.last()], i);
    } else {
        let group = groups[picks.last()];
        assert(group[k].0 == i);
        lemma_without_group_empties(before, group, i);
    }
}

/// An image that is in none of the groups stays as it is.
pub proof fn images_outside_the_groups_stay(
    images: Seq<ImageEntry>,
    groups: Seq<Seq<ImageId>>,
    picks: Seq<int>,
    i: int,
)
    requires
        0 <= i < images.len(),
        forall|k: int| 0 <= k < picks.len() ==> 0 <= #[trigger] picks[k] < groups.len(),
        forall|g: int, k: int|
            #![trigger groups[g][k]]
            0 <= g < groups.len() && 0 <= k < groups[g].len() ==> groups[g][k].0 != i,
    ensures
        without_groups(images, groups, picks).len() == images.len(),
        without_groups(images, groups, picks)[i] == images[i],
    decreases picks.len(),
{
    if picks.len() > 0 {
        assert forall|k: int| 0 <= k < picks.len() - 1 implies 0 <= #[trigger] picks.drop_last()[k]
            < groups.len() by {
            assert(0 <= picks[k] < groups.len());
        }
        images_outside_the_groups_stay(images, groups, picks.drop_last(), i);
        let g = picks.last();
        assert(picks[picks.len() - 1] == g);
        let before = without_groups(images, groups, picks.drop_last());
        assert forall|k: int| 0 <= k < groups[g].len() implies (#[trigger] groups[g][k]).0 != i by {
        }
        lemma_without_group_keeps(before, groups[g], i);
    }
}

/// An image that is in no group that left stays.
pub proof fn images_outside_the_picked_groups_stay(
    images: Seq<ImageEntry>,
    groups: Seq<Seq<ImageId>>,
    picks: Seq<int>,
    i: int,
)
    requires
        0 <= i < images.len(),
        forall|p: int, k: int|
            #![trigger groups[picks[p]][k]]
            0 <= p < picks.len() && 0 <= k < groups[picks[p]].len() ==> groups[picks[p]][k].0 != i,
    ensures
        without_groups(images, groups, picks).len() == images.len(),
        without_groups(images, groups, picks)[i] == images[i],
    decreases picks.len(),
{
    if picks.len() > 0 {
        let front = picks.drop_last();
        assert forall|p: int, k: int|
            #![trigger groups[front[p]][k]]
            0 <= p < front.len() && 0 <= k < groups[front[p]].len() implies groups[front[p]][k].0
            != i by {
            assert(groups[picks[p]][k].0 != i);
        }
        images_outside_the_picked_groups_stay(images, groups, front, i);
        let g = picks.last();
        let before = without_groups(images, groups, front);
        assert forall|k: int| 0 <= k < groups[g].len() implies (#[trigger] groups[g][k]).0 != i by {
            assert(groups[picks[picks.len() - 1]][k].0 != i);
        }
        lemma_without_group_keeps(before, groups[g], i);
    }
}

} // verus!
