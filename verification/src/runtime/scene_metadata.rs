//! The names of the scenes and how many read flags each has.

use vstd::prelude::*;
use crate::number_text;
use crate::number_text::{decimal_u64, parse_u64_chars};
use crate::text;
use crate::text::{chars_of, same_ignoring_case};
use crate::text_map::TextMap;

verus! {

/// What a package says of one scene: its name, where it has one, and its
/// count of read flags, where it has data.
#[derive(Debug)]
pub struct PackedScene {
    pub name: Option<String>,
    pub read_flag_cnt: Option<i32>,
}

/// The scenes by number and by name.
#[derive(Debug)]
pub struct SceneMetadata {
    pub rows: Vec<(String, usize)>,
    pub names: TextMap<usize>,
}

/// Whether `no` is the last scene with the name `name`.
pub open spec fn last_named(rows: Seq<(String, usize)>, name: Seq<char>, no: int) -> bool {
    &&& 0 <= no < rows.len()
    &&& rows[no].0@ == name
    &&& forall|k: int| no < k < rows.len() ==> (#[trigger] rows[k]).0@ != name
}

/// Whether the table by name has every scene; the last one where several have
/// the same name.
pub open spec fn indexes(names: Map<Seq<char>, usize>, rows: Seq<(String, usize)>) -> bool {
    &&& forall|name: Seq<char>| #[trigger]
        names.dom().contains(name) ==> last_named(rows, name, names[name] as int)
    &&& forall|k: int| 0 <= k < rows.len() ==> names.dom().contains((#[trigger] rows[k]).0@)
}

/// The row of one scene of a package: a scene without a name goes by its
/// number, and one without data has no flags.
pub open spec fn row_of(scene: PackedScene, no: int) -> (Seq<char>, int) {
    (
        match scene.name {
            Some(name) => name@,
            None => number_text::decimal(no),
        },
        match scene.read_flag_cnt {
            Some(n) => if n < 0 {
                0
            } else {
                n as int
            },
            None => 0,
        },
    )
}

/// The names that are `name` but for the case of ASCII letters.
pub open spec fn alike(names: Map<Seq<char>, usize>, name: Seq<char>, key: Seq<char>) -> bool {
    names.dom().contains(key) && text::lower(key) == text::lower(name)
}

/// Whether `no` is the least number under a name like `name`.
pub open spec fn least_alike(names: Map<Seq<char>, usize>, name: Seq<char>, no: int) -> bool {
    &&& exists|key: Seq<char>| #[trigger] alike(names, name, key) && names[key] == no
    &&& forall|key: Seq<char>| #[trigger] alike(names, name, key) ==> no <= names[key]
}

impl SceneMetadata {
    pub open spec fn wf(&self) -> bool {
        self.names.wf()
    }

    /// The scenes of a package, with the package's own table of names.
    pub fn from_pack(scenes: &[PackedScene], names: TextMap<usize>) -> (m: SceneMetadata)
        requires
            names.wf(),
        ensures
            m.wf(),
            m.names == names,
            m.rows@.len() == scenes@.len(),
            forall|i: int|
                0 <= i < scenes@.len() ==> ((#[trigger] m.rows@[i]).0@, m.rows@[i].1 as int)
                    == row_of(scenes@[i], i),
    {
        let mut rows: Vec<(String, usize)> = Vec::new();
        let mut no: usize = 0;
        while no < scenes.len()
            invariant
                no <= scenes@.len(),
                rows@.len() == no,
                forall|i: int|
                    0 <= i < no ==> ((#[trigger] rows@[i]).0@, rows@[i].1 as int) == row_of(
                        scenes@[i],
                        i,
                    ),
            decreases scenes@.len() - no,
        {
            let name = match &scenes[no].name {
                Some(name) => name.clone(),
                None => decimal_u64(no as u64),
            };
            let flags: usize = match scenes[no].read_flag_cnt {
                Some(n) => if n < 0 {
                    0
                } else {
                    n as usize
                },
                None => 0,
            };
            rows.push((name, flags));
            no = no + 1;
        }
        SceneMetadata { rows, names }
    }

    /// The scenes of a list of rows.
    pub fn from_rows(rows: Vec<(String, usize)>) -> (m: SceneMetadata)
        ensures
            m.wf(),
            m.rows == rows,
            indexes(m.names@, rows@),
    {
        let mut names: TextMap<usize> = TextMap::new();
        let mut no: usize = 0;
        proof {
            assert(rows@.take(0) =~= Seq::<(String, usize)>::empty());
        }
        while no < rows.len()
            invariant
                no <= rows@.len(),
                names.wf(),
                indexes(names@, rows@.take(no as int)),
            decreases rows@.len() - no,
        {
            let ghost before = names@;
            let ghost done = rows@.take(no as int);
            names.insert(rows[no].0.clone(), no);
            proof {
                let next = rows@.take(no + 1);
                let key = rows@[no as int].0@;
                assert(next.len() == no + 1);
                assert forall|name: Seq<char>| #[trigger] names@.dom().contains(name) implies
                    last_named(next, name, names@[name] as int) by {
                    if name == key {
                        assert(next[no as int].0@ == key);
                    } else {
                        assert(before.dom().contains(name));
                        assert(last_named(done, name, before[name] as int));
                        assert forall|k: int| before[name] < k < next.len() implies (
                        #[trigger] next[k]).0@ != name by {
                            if k < no {
                                assert(done[k].0@ != name);
                            }
                        }
                        assert(next[before[name] as int] == done[before[name] as int]);
                    }
                }
                assert forall|k: int| 0 <= k < next.len() implies names@.dom().contains(
                    (#[trigger] next[k]).0@,
                ) by {
                    if k < no {
                        assert(before.dom().contains(done[k].0@));
                    }
                }
            }
            no = no + 1;
        }
        proof {
            assert(rows@.take(no as int) =~= rows@);
        }
        SceneMetadata { rows, names }
    }

    /// The number of a scene: a number stands for itself, then the exact name
    /// counts, then a name that differs in case alone, the least number first.
    pub fn find_scene_no(&self, name: &str) -> (r: Option<usize>)
        requires
            self.wf(),
        ensures
            match number_text::natural_within(name@, usize::MAX as int) {
                Some(no) => r == Some(no as usize),
                None => if self.names@.dom().contains(name@) {
                    r == Some(self.names@[name@])
                } else {
                    match r {
                        Some(no) => least_alike(self.names@, name@, no as int),
                        None => forall|key: Seq<char>| !alike(self.names@, name@, key),
                    }
                },
            },
    {
        let chars = chars_of(name);
        if let Some(no) = parse_u64_chars(chars.as_slice()) {
            if no <= usize::MAX as u64 {
                return Some(no as usize);
            }
        }
        if let Some(no) = self.names.get(name) {
            return Some(*no);
        }
        let mut best: Option<usize> = None;
        let mut i: usize = 0;
        let ghost entries = self.names.entries@;
        while i < self.names.entries.len()
            invariant
                self.wf(),
                entries == self.names.entries@,
                i <= entries.len(),
                match best {
                    Some(no) => {
                        &&& exists|k: int|
                            0 <= k < i && text::lower((#[trigger] entries[k]).0@) == text::lower(
                                name@,
                            ) && entries[k].1 == no
                        &&& forall|k: int|
                            0 <= k < i && text::lower((#[trigger] entries[k]).0@) == text::lower(
                                name@,
                            ) ==> no <= entries[k].1
                    },
                    None => forall|k: int|
                        0 <= k < i ==> text::lower((#[trigger] entries[k]).0@) != text::lower(name@),
                },
            decreases entries.len() - i,
        {
            let e = &self.names.entries[i];
            if same_ignoring_case(e.0.as_str(), name) {
                let no: usize = e.1;
                best = match best {
                    Some(old) => if no < old {
                        Some(no)
                    } else {
                        Some(old)
                    },
                    None => Some(no),
                };
            }
            i = i + 1;
        }
        proof {
            assert forall|key: Seq<char>| alike(self.names@, name@, key) implies ({
                let k = self.names.place(key);
                &&& 0 <= k < entries.len()
                &&& entries[k].0@ == key
                &&& self.names@[key] == entries[k].1
            }) by {
                assert(self.names.holds(key, self.names.place(key)));
            }
            match best {
                Some(no) => {
                    let k = choose|k: int|
                        0 <= k < entries.len() && text::lower((#[trigger] entries[k]).0@)
                            == text::lower(name@) && entries[k].1 == no;
                    self.names.lemma_place(entries[k].0@, k);
                    assert(alike(self.names@, name@, entries[k].0@));
                    assert forall|key: Seq<char>| #[trigger] alike(self.names@, name@, key) implies no
                        <= self.names@[key] by {
                        let j = self.names.place(key);
                        assert(self.names.holds(key, j));
                        assert(entries[j].0@ == key);
                    }
                },
                None => {
                    assert forall|key: Seq<char>| !alike(self.names@, name@, key) by {
                        if alike(self.names@, name@, key) {
                            let j = self.names.place(key);
                            assert(self.names.holds(key, j));
                            assert(entries[j].0@ == key);
                        }
                    }
                },
            }
        }
        best
    }
}

/// A scene without a name is named by its number, and a count that is missing or below zero is
/// none.
pub proof fn scenes_are_named_or_numbered(scene: PackedScene, no: int)
    ensures
        scene.name matches Some(name) ==> row_of(scene, no).0 == name@,
        scene.name is None ==> number_text::number_of(row_of(scene, no).0) == Some(no),
        scene.read_flag_cnt is None ==> row_of(scene, no).1 == 0,
        scene.read_flag_cnt matches Some(n) ==> row_of(scene, no).1 >= 0 && row_of(scene, no).1 >= n
            && (row_of(scene, no).1 == 0 || row_of(scene, no).1 == n),
{
    number_text::number_round_trip(no);
}

/// Of the scenes with one name the last one is found.
pub proof fn the_last_scene_of_a_name_is_found(
    names: Map<Seq<char>, usize>,
    rows: Seq<(String, usize)>,
    i: int,
)
    requires
        indexes(names, rows),
        0 <= i < rows.len(),
    ensures
        names.contains_key(rows[i].0@),
        i <= names[rows[i].0@] < rows.len(),
        rows[names[rows[i].0@] as int].0@ == rows[i].0@,
{
    assert(names.dom().contains(rows[i].0@));
}

} // verus!
