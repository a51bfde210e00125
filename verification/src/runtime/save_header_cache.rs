//! Headers of saves for the save menu.
//!
//! One scan of the save directory says which saves there are. The header of a
//! save is read again only when its file has changed.

use vstd::prelude::*;
use crate::number_text;
use crate::number_text::{decimal_u64, padded_decimal, parse_u64_chars};
use crate::paths;
use crate::paths::is_same_path;
use crate::table;
use crate::table::TableKey;
use crate::text;
use crate::text::{chars_of, same_ignoring_case, same_text, text_of};
use crate::text_parts;
use crate::text_parts::{find_last_char, join};

verus! {

/// A time in seconds and nanoseconds.
#[derive(Debug, Clone, Copy, PartialEq, Eq, Structural)]
pub struct Moment {
    pub secs: i64,
    pub nanos: i64,
}

/// By what a change of a file is seen.
#[derive(Debug, Clone, Copy, PartialEq, Eq, Structural)]
pub struct Stamp {
    pub len: u64,
    /// The last change of the contents, where it is known.
    pub modified: Option<Moment>,
    /// The last change of the file.
    pub changed: Moment,
}

/// What the menu shows of a save.
#[derive(Debug)]
pub struct SaveSlotState {
    pub exist: bool,
    pub year: i32,
    pub title: String,
}

/// What a state shows.
pub struct SlotView {
    pub exist: bool,
    pub year: i32,
    pub title: Seq<char>,
}

impl SaveSlotState {
    pub open spec fn view(&self) -> SlotView {
        SlotView { exist: self.exist, year: self.year, title: self.title@ }
    }

    /// The state of a slot without a save.
    pub fn empty() -> (s: SaveSlotState)
        ensures
            s@ == no_save(),
    {
        let s = SaveSlotState { exist: false, year: 0, title: String::new() };
        proof {
            assert(s.title@ =~= Seq::<char>::empty());
        }
        s
    }

    pub fn copy(&self) -> (s: SaveSlotState)
        ensures
            s@ == self@,
    {
        SaveSlotState { exist: self.exist, year: self.year, title: self.title.clone() }
    }
}

pub open spec fn no_save() -> SlotView {
    SlotView { exist: false, year: 0, title: Seq::empty() }
}

/// A save that the scan found.
#[derive(Debug)]
pub struct Entry {
    pub path: String,
    /// By what the header was read last.
    pub stamp: Option<Stamp>,
    pub slot: SaveSlotState,
}

#[derive(Debug)]
pub struct SaveHeaderCache {
    pub directory: String,
    pub directory_stamp: Option<Stamp>,
    pub entries: Vec<(usize, Entry)>,
}

// The names of saves.

/// The name that the save with a number has: four digits at least.
pub open spec fn save_name(index: int) -> Seq<char> {
    number_text::zero_padded(index, 4) + ".sav"@
}

/// The number of a save by its file name. Letters may be of either case, and
/// the digits must be those of the save's own name.
pub open spec fn number_of_name(name: Seq<char>) -> Option<int> {
    match text_parts::last_of(name, '.') {
        None => None,
        Some(k) => match number_text::natural_within(name.take(k), usize::MAX as int) {
            None => None,
            Some(n) => if text::lower(name.skip(k + 1)) == text::lower("sav"@) && text::lower(name)
                == text::lower(save_name(n)) {
                Some(n)
            } else {
                None
            },
        },
    }
}

proof fn lemma_digit_count(n: nat, k: nat)
    requires
        n >= pow10(k),
    ensures
        number_text::digits_of(n).len() > k,
    decreases n,
{
    if k > 0 {
        assert(n / 10 >= pow10((k - 1) as nat)) by (nonlinear_arith)
            requires
                n >= 10 * pow10((k - 1) as nat),
        ;
        lemma_pow10((k - 1) as nat);
        lemma_digit_count(n / 10, (k - 1) as nat);
    } else {
        assert(number_text::digits_of(n).len() > 0);
    }
}

proof fn lemma_pow10(k: nat)
    ensures
        pow10(k) >= 1,
    decreases k,
{
    if k > 0 {
        lemma_pow10((k - 1) as nat);
    }
}

spec fn pow10(k: nat) -> nat
    decreases k,
{
    if k == 0 {
        1
    } else {
        10 * pow10((k - 1) as nat)
    }
}

/// The name that the save with a number has.
pub fn save_file_name(index: usize) -> (r: String)
    ensures
        r@ == save_name(index as int),
{
    if index as u64 > 9999 {
        let digits = decimal_u64(index as u64);
        proof {
            reveal_with_fuel(pow10, 5);
            lemma_digit_count(index as nat, 4);
            assert(digits@ =~= number_text::zero_padded(index as int, 4));
        }
        return join(digits.as_str(), ".sav");
    }
    let digits = padded_decimal(index as i64, 4);
    join(digits.as_str(), ".sav")
}

/// The number of a save by its file name.
pub fn save_number(name: &str) -> (r: Option<usize>)
    ensures
        match r {
            Some(n) => number_of_name(name@) == Some(n as int),
            None => number_of_name(name@) is None,
        },
{
    let chars = chars_of(name);
    let len: usize = chars.len();
    let k: usize = match find_last_char(chars.as_slice(), '.') {
        Some(k) => k,
        None => {
            return None;
        },
    };
    let stem = vstd::slice::slice_subrange(chars.as_slice(), 0, k);
    let tail = vstd::slice::slice_subrange(chars.as_slice(), k + 1, len);
    proof {
        assert(stem@ =~= name@.take(k as int));
        assert(tail@ =~= name@.skip(k + 1));
    }
    let n: u64 = match parse_u64_chars(stem) {
        Some(n) => n,
        None => {
            return None;
        },
    };
    if n > usize::MAX as u64 {
        return None;
    }
    let ext = text_of(tail);
    if !same_ignoring_case(ext.as_str(), "sav") {
        return None;
    }
    let canonical = save_file_name(n as usize);
    if !same_ignoring_case(name, canonical.as_str()) {
        return None;
    }
    Some(n as usize)
}

// The saves of a directory.

/// The place of a number in a list.
pub open spec fn at_number(list: Seq<(usize, Seq<char>)>, index: usize, i: int) -> bool {
    &&& 0 <= i < list.len()
    &&& list[i].0 == index
    &&& forall|k: int| 0 <= k < i ==> (#[trigger] list[k]).0 != index
}

/// The list with a file of a save. Of two files of one save, the one with the
/// save's own name counts, and otherwise the first.
pub open spec fn with_save(
    list: Seq<(usize, Seq<char>)>,
    index: usize,
    name: Seq<char>,
    path: Seq<char>,
) -> Seq<(usize, Seq<char>)> {
    if exists|i: int| at_number(list, index, i) {
        let i = choose|i: int| at_number(list, index, i);
        if name == save_name(index as int) {
            list.update(i, (index, path))
        } else {
            list
        }
    } else {
        list.push((index, path))
    }
}

/// The saves among the first `n` files. A file is its name and its path.
pub open spec fn saves_among(files: Seq<(String, String)>, n: int) -> Seq<(usize, Seq<char>)>
    decreases n,
{
    if n <= 0 {
        Seq::empty()
    } else {
        let front = saves_among(files, n - 1);
        match number_of_name(files[n - 1].0@) {
            Some(index) => with_save(front, index as usize, files[n - 1].0@, files[n - 1].1@),
            None => front,
        }
    }
}

pub open spec fn listed(list: Seq<(usize, String)>) -> Seq<(usize, Seq<char>)> {
    list.map_values(|p: (usize, String)| (p.0, p.1@))
}

proof fn lemma_at_number(list: Seq<(usize, Seq<char>)>, index: usize, i: int, j: int)
    requires
        at_number(list, index, i),
        at_number(list, index, j),
    ensures
        i == j,
{
    if i < j {
        assert(list[i].0 != index);
    } else if j < i {
        assert(list[j].0 != index);
    }
}

fn add_save(list: &mut Vec<(usize, String)>, index: usize, name: &str, path: &str)
    ensures
        listed(final(list)@) == with_save(listed(old(list)@), index, name@, path@),
{
    let ghost before = listed(list@);
    let mut i: usize = 0;
    while i < list.len()
        invariant
            *list == *old(list),
            i <= list@.len(),
            before == listed(list@),
            forall|k: int| 0 <= k < i ==> (#[trigger] before[k]).0 != index,
        decreases list@.len() - i,
    {
        if list[i].0 == index {
            proof {
                assert(before[i as int].0 == index);
                assert(at_number(before, index, i as int));
                let j = choose|j: int| at_number(before, index, j);
                lemma_at_number(before, index, i as int, j);
            }
            let canonical = save_file_name(index);
            if same_text(name, canonical.as_str()) {
                let e = &mut list[i];
                e.1 = path.to_owned();
                proof {
                    assert(listed(list@) =~= before.update(i as int, (index, path@)));
                }
            }
            return;
        }
        i = i + 1;
    }
    list.push((index, path.to_owned()));
    proof {
        assert(listed(list@) =~= before.push((index, path@)));
        assert forall|j: int| !at_number(before, index, j) by {
            if 0 <= j < before.len() {
                assert(before[j].0 != index);
            }
        }
    }
}

/// The saves among files. A file is its name and its path.
pub fn index_files(files: &Vec<(String, String)>) -> (r: Vec<(usize, String)>)
    ensures
        listed(r@) == saves_among(files@, files@.len() as int),
{
    let mut r: Vec<(usize, String)> = Vec::new();
    let mut i: usize = 0;
    proof {
        assert(listed(r@) =~= Seq::<(usize, Seq<char>)>::empty());
    }
    while i < files.len()
        invariant
            i <= files@.len(),
            listed(r@) == saves_among(files@, i as int),
        decreases files@.len() - i,
    {
        match save_number(files[i].0.as_str()) {
            Some(index) => {
                add_save(&mut r, index, files[i].0.as_str(), files[i].1.as_str());
            },
            None => {},
        }
        i = i + 1;
    }
    r
}

proof fn lemma_with_save_distinct(
    list: Seq<(usize, Seq<char>)>,
    index: usize,
    name: Seq<char>,
    path: Seq<char>,
)
    requires
        distinct(list),
    ensures
        distinct(with_save(list, index, name, path)),
{
    let after = with_save(list, index, name, path);
    if exists|i: int| at_number(list, index, i) {
        let i = choose|i: int| at_number(list, index, i);
        assert(at_number(list, index, i));
        assert forall|a: int, b: int|
            #![trigger after[a], after[b]]
            0 <= a < b < after.len() implies after[a].0 != after[b].0 by {
            assert(list[a].0 != list[b].0);
        }
    } else {
        assert forall|a: int, b: int|
            #![trigger after[a], after[b]]
            0 <= a < b < after.len() implies after[a].0 != after[b].0 by {
            if b < list.len() {
                assert(list[a].0 != list[b].0);
            } else if list[a].0 == index {
                lemma_first(list, index, a);
            }
        }
    }
}

proof fn lemma_first(list: Seq<(usize, Seq<char>)>, index: usize, a: int)
    requires
        0 <= a < list.len(),
        list[a].0 == index,
    ensures
        exists|i: int| at_number(list, index, i),
    decreases a,
{
    if forall|k: int| 0 <= k < a ==> (#[trigger] list[k]).0 != index {
        assert(at_number(list, index, a));
    } else {
        let k = choose|k: int| 0 <= k < a && (#[trigger] list[k]).0 == index;
        lemma_first(list, index, k);
    }
}

pub open spec fn distinct(list: Seq<(usize, Seq<char>)>) -> bool {
    forall|a: int, b: int|
        #![trigger list[a], list[b]]
        0 <= a < b < list.len() ==> list[a].0 != list[b].0
}

/// Every save is listed once, however many files it has.
pub proof fn saves_are_listed_once(files: Seq<(String, String)>, n: int)
    ensures
        distinct(saves_among(files, n)),
    decreases n,
{
    if n > 0 {
        saves_are_listed_once(files, n - 1);
        let front = saves_among(files, n - 1);
        if let Some(index) = number_of_name(files[n - 1].0@) {
            lemma_with_save_distinct(front, index as usize, files[n - 1].0@, files[n - 1].1@);
        }
    }
}

// The cache.

/// What is known of a save.
pub struct EntryView {
    pub path: Seq<char>,
    pub stamp: Option<Stamp>,
    pub slot: SlotView,
}

impl Entry {
    pub open spec fn view(&self) -> EntryView {
        EntryView { path: self.path@, stamp: self.stamp, slot: self.slot@ }
    }
}

pub open spec fn known(entries: Seq<(usize, Entry)>) -> Seq<(usize, EntryView)> {
    entries.map_values(|e: (usize, Entry)| (e.0, e.1@))
}

/// What is known of a save that the scan found. What was known of the same
/// file before stays.
pub open spec fn carried_over(
    before: Seq<(usize, EntryView)>,
    index: usize,
    path: Seq<char>,
) -> EntryView {
    if table::has_key(before, index) && paths::same_path(
        table::value_under(before, index).path,
        path,
    ) {
        table::value_under(before, index)
    } else {
        EntryView { path, stamp: None, slot: no_save() }
    }
}

/// What is known of the saves of a directory after a scan.
pub open spec fn scanned(
    before: Seq<(usize, EntryView)>,
    saves: Seq<(usize, Seq<char>)>,
) -> Seq<(usize, EntryView)> {
    saves.map_values(
        |p: (usize, Seq<char>)| (p.0, carried_over(before, p.0, p.1)),
    )
}

/// What is to be done to show a save.
#[derive(Debug)]
pub enum SlotStep {
    /// This is shown.
    Known(SaveSlotState),
    /// Read the header of the file and call `set_slot`.
    Read(String),
}

/// What a step says.
pub enum StepView {
    Known(SlotView),
    Read(Seq<char>),
}

impl SlotStep {
    pub open spec fn view(&self) -> StepView {
        match self {
            SlotStep::Known(s) => StepView::Known(s@),
            SlotStep::Read(path) => StepView::Read(path@),
        }
    }
}

/// What is to be done to show a save whose file has this stamp, or is gone.
pub open spec fn step(
    entries: Seq<(usize, EntryView)>,
    index: usize,
    stamp: Option<Stamp>,
) -> StepView {
    if !table::has_key(entries, index) {
        StepView::Known(no_save())
    } else {
        let e = table::value_under(entries, index);
        match stamp {
            None => StepView::Known(no_save()),
            Some(t) => if e.stamp == stamp && t.modified is Some {
                StepView::Known(e.slot)
            } else {
                StepView::Read(e.path)
            },
        }
    }
}

/// The saves after one was asked for. What was known of a file that is gone is
/// forgotten.
pub open spec fn asked(
    entries: Seq<(usize, EntryView)>,
    index: usize,
    stamp: Option<Stamp>,
) -> Seq<(usize, EntryView)> {
    if table::has_key(entries, index) && stamp is None {
        let path = table::value_under(entries, index).path;
        table::put(entries, index, EntryView { path, stamp: None, slot: no_save() })
    } else {
        entries
    }
}

/// The saves after the header of one was read.
pub open spec fn noted(
    entries: Seq<(usize, EntryView)>,
    index: usize,
    stamp: Stamp,
    slot: SlotView,
) -> Seq<(usize, EntryView)> {
    if table::has_key(entries, index) {
        let path = table::value_under(entries, index).path;
        table::put(entries, index, EntryView { path, stamp: Some(stamp), slot })
    } else {
        entries
    }
}

/// A header that was read, or could not be read, is shown without being read
/// again, as long as its file does not change.
pub proof fn unchanged_header_is_not_read_again(
    entries: Seq<(usize, EntryView)>,
    index: usize,
    stamp: Stamp,
    slot: SlotView,
)
    requires
        table::has_key(entries, index),
        stamp.modified is Some,
    ensures
        step(noted(entries, index, stamp, slot), index, Some(stamp)) == StepView::Known(slot),
{
    let path = table::value_under(entries, index).path;
    table::put_value_is_found(entries, index, EntryView { path, stamp: Some(stamp), slot });
}

/// A changed file is read again.
pub proof fn changed_file_is_read_again(
    entries: Seq<(usize, EntryView)>,
    index: usize,
    stamp: Stamp,
    slot: SlotView,
    other: Stamp,
)
    requires
        table::has_key(entries, index),
        other != stamp,
    ensures
        step(noted(entries, index, stamp, slot), index, Some(other)) is Read,
{
    let path = table::value_under(entries, index).path;
    table::put_value_is_found(entries, index, EntryView { path, stamp: Some(stamp), slot });
}

/// A file that was gone is read again when it comes back.
pub proof fn returned_file_is_read_again(
    entries: Seq<(usize, EntryView)>,
    index: usize,
    stamp: Stamp,
)
    requires
        table::has_key(entries, index),
    ensures
        step(asked(entries, index, None), index, Some(stamp)) is Read,
{
    let path = table::value_under(entries, index).path;
    table::put_value_is_found(entries, index, EntryView { path, stamp: None, slot: no_save() });
}

fn find_entry(entries: &Vec<(usize, Entry)>, index: usize) -> (r: Option<usize>)
    ensures
        match r {
            Some(i) => {
                &&& table::first_under(known(entries@), index, i as int)
                &&& table::has_key(known(entries@), index)
                &&& table::value_under(known(entries@), index) == entries@[i as int].1@
            },
            None => !table::has_key(known(entries@), index),
        },
{
    let ghost all = known(entries@);
    let mut i: usize = 0;
    while i < entries.len()
        invariant
            i <= entries@.len(),
            all == known(entries@),
            forall|k: int| 0 <= k < i ==> !(#[trigger] all[k]).0.same(&index),
        decreases entries@.len() - i,
    {
        if entries[i].0 == index {
            proof {
                assert(table::first_under(all, index, i as int));
                table::lemma_first(all, index, i as int);
            }
            return Some(i);
        }
        i = i + 1;
    }
    None
}

proof fn lemma_put_at(entries: Seq<(usize, EntryView)>, index: usize, i: int, v: EntryView)
    requires
        table::first_under(entries, index, i),
    ensures
        table::put(entries, index, v) == entries.update(i, (index, v)),
{
    let j = choose|j: int| table::first_under(entries, index, j);
    assert(table::first_under(entries, index, j));
    if j < i {
        assert(!entries[j].0.same(&index));
    } else if i < j {
        assert(!entries[i].0.same(&index));
    }
    assert(table::put(entries, index, v) =~= entries.update(i, (index, v)));
}

impl SaveHeaderCache {
    pub fn new() -> (c: SaveHeaderCache)
        ensures
            c.directory@ == Seq::<char>::empty(),
            c.directory_stamp is None,
            c.entries@.len() == 0,
    {
        let c = SaveHeaderCache {
            directory: String::new(),
            directory_stamp: None,
            entries: Vec::new(),
        };
        proof {
            assert(c.directory@ =~= Seq::<char>::empty());
        }
        c
    }

    /// Whether the directory is to be scanned: it is another one, it has
    /// changed, or it does not say when it changed.
    pub fn needs_scan(&self, directory: &str, stamp: Stamp) -> (r: bool)
        ensures
            r == !(paths::same_path(self.directory@, directory@) && self.directory_stamp == Some(stamp)
                && stamp.modified is Some),
    {
        let same: bool = match self.directory_stamp {
            Some(s) => s == stamp,
            None => false,
        };
        !(is_same_path(self.directory.as_str(), directory) && same && stamp.modified.is_some())
    }

    /// Takes in the files of a directory. A save that was there before with
    /// the same file keeps what is known of it.
    pub fn take_listing(&mut self, directory: &str, stamp: Stamp, files: &Vec<(String, String)>)
        ensures
            final(self).directory@ == directory@,
            final(self).directory_stamp == Some(stamp),
            known(final(self).entries@) == scanned(
                if paths::same_path(old(self).directory@, directory@) {
                    known(old(self).entries@)
                } else {
                    Seq::empty()
                },
                saves_among(files@, files@.len() as int),
            ),
    {
        let list = index_files(files);
        let same: bool = is_same_path(self.directory.as_str(), directory);
        let ghost before = if same {
            known(old(self).entries@)
        } else {
            Seq::empty()
        };
        let ghost all = scanned(before, listed(list@));
        let mut fresh: Vec<(usize, Entry)> = Vec::new();
        let mut i: usize = 0;
        proof {
            assert(known(fresh@) =~= all.take(0));
        }
        while i < list.len()
            invariant
                *self == *old(self),
                i <= list@.len(),
                before == (if same {
                    known(old(self).entries@)
                } else {
                    Seq::empty()
                }),
                all == scanned(before, listed(list@)),
                known(fresh@) == all.take(i as int),
            decreases list@.len() - i,
        {
            let index: usize = list[i].0;
            let path = list[i].1.clone();
            let ghost found_path = path@;
            let found: Option<usize> = if same {
                find_entry(&self.entries, index)
            } else {
                None
            };
            let mut e = Entry { path, stamp: None, slot: SaveSlotState::empty() };
            if let Some(k) = found {
                let was = &self.entries[k].1;
                if is_same_path(was.path.as_str(), e.path.as_str()) {
                    e = Entry { path: was.path.clone(), stamp: was.stamp, slot: was.slot.copy() };
                }
            }
            proof {
                assert(all[i as int] == (index, carried_over(before, index, found_path)));
                assert(e@ == carried_over(before, index, found_path));
            }
            let ghost front = known(fresh@);
            fresh.push((index, e));
            i = i + 1;
            proof {
                assert(known(fresh@) =~= front.push((index, e@)));
                assert(known(fresh@) =~= all.take(i as int));
            }
        }
        proof {
            assert(all.take(i as int) =~= all);
        }
        self.entries = fresh;
        self.directory = directory.to_owned();
        self.directory_stamp = Some(stamp);
    }

    /// Forgets everything, where the directory cannot be read. It is scanned
    /// again the next time.
    pub fn directory_failed(&mut self)
        ensures
            final(self).entries@.len() == 0,
            final(self).directory_stamp is None,
            final(self).directory == old(self).directory,
    {
        self.entries.clear();
        self.directory_stamp = None;
    }

    /// The file of a save.
    pub fn path_of(&self, index: usize) -> (r: Option<&str>)
        ensures
            match r {
                Some(path) => table::has_key(known(self.entries@), index) && table::value_under(
                    known(self.entries@),
                    index,
                ).path == path@,
                None => !table::has_key(known(self.entries@), index),
            },
    {
        match find_entry(&self.entries, index) {
            Some(i) => Some(self.entries[i].1.path.as_str()),
            None => None,
        }
    }

    /// What is to be done to show a save. `stamp` is that of its file, where
    /// it is still there.
    pub fn slot_step(&mut self, index: usize, stamp: Option<Stamp>) -> (r: SlotStep)
        ensures
            r@ == step(known(old(self).entries@), index, stamp),
            known(final(self).entries@) == asked(known(old(self).entries@), index, stamp),
            final(self).directory == old(self).directory,
            final(self).directory_stamp == old(self).directory_stamp,
    {
        let i: usize = match find_entry(&self.entries, index) {
            Some(i) => i,
            None => {
                return SlotStep::Known(SaveSlotState::empty());
            },
        };
        match stamp {
            None => {
                let ghost before = known(self.entries@);
                let e = &mut self.entries[i];
                e.1.stamp = None;
                e.1.slot = SaveSlotState::empty();
                proof {
                    let v = self.entries@[i as int].1@;
                    lemma_put_at(before, index, i as int, v);
                    assert(known(self.entries@) =~= before.update(i as int, (index, v)));
                }
                SlotStep::Known(SaveSlotState::empty())
            },
            Some(t) => {
                let same: bool = match self.entries[i].1.stamp {
                    Some(s) => s == t,
                    None => false,
                };
                if same && t.modified.is_some() {
                    SlotStep::Known(self.entries[i].1.slot.copy())
                } else {
                    SlotStep::Read(self.entries[i].1.path.clone())
                }
            },
        }
    }

    /// Takes in what the header of a save says, or that it cannot be read, and
    /// gives what is shown.
    pub fn set_slot(&mut self, index: usize, stamp: Stamp, header: Option<SaveSlotState>) -> (r:
        SaveSlotState)
        ensures
            r@ == (match header {
                Some(h) => h@,
                None => no_save(),
            }),
            known(final(self).entries@) == noted(known(old(self).entries@), index, stamp, r@),
            final(self).directory == old(self).directory,
            final(self).directory_stamp == old(self).directory_stamp,
    {
        let slot = match header {
            Some(h) => h,
            None => SaveSlotState::empty(),
        };
        let shown = slot.copy();
        match find_entry(&self.entries, index) {
            Some(i) => {
                let ghost before = known(self.entries@);
                let e = &mut self.entries[i];
                e.1.stamp = Some(stamp);
                e.1.slot = slot;
                proof {
                    let v = self.entries@[i as int].1@;
                    lemma_put_at(before, index, i as int, v);
                    assert(known(self.entries@) =~= before.update(i as int, (index, v)));
                }
            },
            None => {},
        }
        shown
    }
}

/// A file under the very name of its save is the one that is listed, whatever files came before
/// it. A file under another spelling is listed only where no other was. The other saves stay.
pub proof fn saves_are_listed_under_their_own_name(
    list: Seq<(usize, Seq<char>)>,
    index: usize,
    name: Seq<char>,
    path: Seq<char>,
    k: int,
)
    requires
        distinct(list),
    ensures
        ({
            let after = with_save(list, index, name, path);
            &&& 0 <= k < list.len() && list[k].0 != index ==> after[k] == list[k]
            &&& 0 <= k < list.len() && list[k].0 == index ==> {
                &&& after.len() == list.len()
                &&& after[k].0 == index
                &&& name == save_name(index as int) ==> after[k].1 == path
                &&& name != save_name(index as int) ==> after[k].1 == list[k].1
            }
            &&& (forall|i: int| 0 <= i < list.len() ==> (#[trigger] list[i]).0 != index) ==> after
                == list.push((index, path))
        }),
{
    if 0 <= k < list.len() && list[k].0 == index {
        lemma_first(list, index, k);
        let i = choose|i: int| at_number(list, index, i);
        assert(at_number(list, index, i));
        if i != k {
            assert(list[i].0 == list[k].0);
        }
    } else if exists|i: int| at_number(list, index, i) {
        let i = choose|i: int| at_number(list, index, i);
        assert(at_number(list, index, i));
    }
}

/// What a file is known for is kept while its path stays the same, and forgotten where another
/// file has taken its place. Exactly the saves that were found are known.
pub proof fn only_files_in_their_place_stay_known(
    before: Seq<(usize, EntryView)>,
    saves: Seq<(usize, Seq<char>)>,
    k: int,
)
    requires
        0 <= k < saves.len(),
    ensures
        scanned(before, saves).len() == saves.len(),
        scanned(before, saves)[k].0 == saves[k].0,
        paths::same_path(scanned(before, saves)[k].1.path, saves[k].1),
        !table::has_key(before, saves[k].0) ==> scanned(before, saves)[k].1.stamp is None,
        table::has_key(before, saves[k].0) && paths::same_path(
            table::value_under(before, saves[k].0).path,
            saves[k].1,
        ) ==> scanned(before, saves)[k].1 == table::value_under(before, saves[k].0),
        table::has_key(before, saves[k].0) && !paths::same_path(
            table::value_under(before, saves[k].0).path,
            saves[k].1,
        ) ==> scanned(before, saves)[k].1.stamp is None,
{
}

} // verus!
