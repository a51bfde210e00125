//! Faces that stand in for a face that lacks a character.
//!
//! A character that the primary face does not have is drawn from the first
//! face of a chain that has it. Which face that is, and what it drew, is kept
//! in tables of bounded size, from which the entry used least recently leaves
//! first. A change of the primary face or of the game empties them.

use vstd::prelude::*;
use std::collections::HashSet;
use ab_glyph::Font;
use crate::assets;
use crate::assets::lower_extension;
use crate::glyph_atlas::RasterGlyph;
use crate::paths;
use crate::paths::{file_name_chars, is_same_path, join_path};
use crate::table;
use crate::table::TableKey;
use crate::text;
use crate::text::{chars_of, same_ignoring_case, same_text, text_of, to_lower_char};
use crate::text_parts;
use crate::text_parts::{is_before, join, trim, trim_chars};

verus! {

broadcast use vstd::std_specs::hash::group_hash_axioms;

/// How many choices of faces are kept.
pub const RESOLVE_CACHE_CAP: usize = 4096;

/// How many drawn characters are kept.
pub const RASTER_CACHE_CAP: usize = 2048;

/// Whether `ab_glyph::FontRef::try_from_slice` reads the bytes as a face.
pub uninterp spec fn is_font_file(bytes: Seq<u8>) -> bool;

/// The number that `ab_glyph::Font::glyph_id` gives to a character in the face
/// that the bytes hold. It is 0 where the face lacks the character.
pub uninterp spec fn glyph_number(bytes: Seq<u8>, ch: char) -> u16;

/// `ab_glyph::FontRef::try_from_slice` reads a face, and `glyph_id` looks a
/// character up in it. Both depend on the bytes and the character alone.
#[verifier::external_body]
fn glyph_number_of(font: &[u8], ch: char) -> (r: Option<u16>)
    ensures
        match r {
            Some(n) => is_font_file(font@) && n == glyph_number(font@, ch),
            None => !is_font_file(font@),
        },
{
    let face = ab_glyph::FontRef::try_from_slice(font).ok()?;
    Some(face.glyph_id(ch).0)
}

/// Whether a face has a character.
pub open spec fn covers(font: Seq<u8>, ch: char) -> bool {
    is_font_file(font) && glyph_number(font, ch) != 0
}

/// Whether a face has a character.
pub fn font_covers(font: &[u8], ch: char) -> (r: bool)
    ensures
        r == covers(font@, ch),
{
    match glyph_number_of(font, ch) {
        Some(n) => n != 0,
        None => false,
    }
}

/// The face of a file.
#[derive(Debug)]
pub enum FontSlot {
    NotTried,
    /// The file could not be read as a face. It is not tried again.
    Failed,
    Loaded(Vec<u8>),
}

/// A face of the chain.
#[derive(Debug)]
pub struct FallbackFace {
    pub source: String,
    pub path: String,
    pub font: FontSlot,
}

impl TableKey for char {
    open spec fn same(&self, other: &Self) -> bool {
        *self == *other
    }

    fn is_same(&self, other: &Self) -> (r: bool) {
        *self == *other
    }
}

/// A drawn character: the face (0 is the primary one), the character and the
/// size in quarters of a pixel.
#[derive(Debug, Clone, Copy, PartialEq, Eq, Structural)]
pub struct RasterKey {
    pub face: u32,
    pub ch: char,
    pub px: u16,
}

impl TableKey for RasterKey {
    open spec fn same(&self, other: &Self) -> bool {
        *self == *other
    }

    fn is_same(&self, other: &Self) -> (r: bool) {
        *self == *other
    }
}

/// Whether no entry was used less recently than the one at `i`.
pub open spec fn is_oldest<K, V>(entries: Seq<(K, (V, u64))>, i: int) -> bool {
    &&& 0 <= i < entries.len()
    &&& forall|k: int|
        0 <= k < entries.len() ==> entries[i].1.1 <= (#[trigger] entries[k]).1.1
}

/// Whether a value has been put in. Where the table was full and the key is
/// new, an oldest entry has left.
pub open spec fn lru_inserted<K: TableKey, V>(
    before: Seq<(K, (V, u64))>,
    after: Seq<(K, (V, u64))>,
    key: K,
    value: (V, u64),
    cap: int,
) -> bool {
    if before.len() >= cap && !table::has_key(before, key) && before.len() > 0 {
        exists|i: int| #[trigger]
            is_oldest(before, i) && after == before.remove(i).push((key, value))
    } else {
        after == table::put(before, key, value)
    }
}

fn oldest<K, V>(entries: &Vec<(K, (V, u64))>) -> (i: usize)
    requires
        entries@.len() > 0,
    ensures
        is_oldest(entries@, i as int),
{
    let mut best: usize = 0;
    let mut k: usize = 1;
    while k < entries.len()
        invariant
            best < k <= entries@.len(),
            forall|j: int| 0 <= j < k ==> entries@[best as int].1.1 <= (#[trigger] entries@[j]).1.1,
        decreases entries@.len() - k,
    {
        if entries[k].1.1 < entries[best].1.1 {
            best = k;
        }
        k = k + 1;
    }
    best
}

/// Puts a value into a table of bounded size.
pub fn insert_lru<K: TableKey, V>(
    entries: &mut Vec<(K, (V, u64))>,
    key: K,
    value: (V, u64),
    cap: usize,
)
    ensures
        lru_inserted(old(entries)@, final(entries)@, key, value, cap as int),
{
    match find_entry(entries, &key) {
        Some(i) => {
            let ghost before = entries@;
            proof {
                let j = choose|j: int| table::first_under(before, key, j);
                assert(table::first_under(before, key, j));
                if j < i {
                    assert(!before[j].0.same(&key));
                } else if i < j {
                    assert(!before[i as int].0.same(&key));
                }
            }
            let e = &mut entries[i];
            e.1 = value;
            proof {
                assert(entries@ =~= table::put(before, key, value));
            }
        },
        None => {
            if entries.len() >= cap && entries.len() > 0 {
                let i: usize = oldest(entries);
                let _gone: (K, (V, u64)) = entries.remove(i);
            }
            entries.push((key, value));
        },
    }
}

fn find_entry<K: TableKey, V>(entries: &Vec<(K, (V, u64))>, key: &K) -> (r: Option<usize>)
    ensures
        match r {
            Some(i) => table::first_under(entries@, *key, i as int) && table::has_key(
                entries@,
                *key,
            ),
            None => !table::has_key(entries@, *key),
        },
{
    let mut i: usize = 0;
    while i < entries.len()
        invariant
            i <= entries@.len(),
            forall|k: int| 0 <= k < i ==> !(#[trigger] entries@[k]).0.same(key),
        decreases entries@.len() - i,
    {
        if entries[i].0.is_same(key) {
            proof {
                assert(table::first_under(entries@, *key, i as int));
            }
            return Some(i);
        }
        i = i + 1;
    }
    None
}

/// A table of bounded size never grows above its bound.
pub proof fn bounded_table_stays_bounded<K: TableKey, V>(
    before: Seq<(K, (V, u64))>,
    after: Seq<(K, (V, u64))>,
    key: K,
    value: (V, u64),
    cap: int,
)
    requires
        lru_inserted(before, after, key, value, cap),
        before.len() <= cap,
        cap >= 1,
    ensures
        after.len() <= cap,
        after.len() >= before.len(),
{
    if table::has_key(before, key) {
        let i = choose|i: int| table::first_under(before, key, i);
        assert(table::first_under(before, key, i));
    }
}

/// What is known of the faces of a game.
#[derive(Debug)]
pub struct FallbackState {
    /// Counts the changes of the primary face and the game.
    pub generation: u64,
    pub project_dir: Option<String>,
    pub primary_source: Option<String>,
    pub chain: Vec<FallbackFace>,
    pub chain_built: bool,
    pub chain_disabled: bool,
    /// Which face a character is drawn from.
    pub resolve: Vec<(char, (u32, u64))>,
    pub resolve_stamp: u64,
    pub raster: Vec<(RasterKey, (RasterGlyph, u64))>,
    pub raster_stamp: u64,
    pub stats_primary: u64,
    pub stats_face_hits: Vec<u64>,
    pub stats_miss: u64,
    pub resolved_chars: u64,
    /// The characters that have been reported, by their numbers.
    pub logged_chars: HashSet<u32>,
}

pub open spec fn opt_text(s: Option<String>) -> Option<Seq<char>> {
    match s {
        Some(t) => Some(t@),
        None => None,
    }
}

pub open spec fn opt_str(s: Option<&str>) -> Option<Seq<char>> {
    match s {
        Some(t) => Some(t@),
        None => None,
    }
}

/// A directory, where it is not empty.
pub open spec fn given_dir(dir: Seq<char>) -> Option<Seq<char>> {
    if dir.len() == 0 {
        None
    } else {
        Some(dir)
    }
}

/// Whether both paths are the same, or both are missing.
pub open spec fn same_file(a: Option<Seq<char>>, b: Option<Seq<char>>) -> bool {
    match (a, b) {
        (Some(x), Some(y)) => paths::same_path(x, y),
        (None, None) => true,
        _ => false,
    }
}

fn same_opt(a: &Option<String>, b: Option<&str>) -> (r: bool)
    ensures
        r == same_file(opt_text(*a), opt_str(b)),
{
    match a {
        Some(x) => match b {
            Some(y) => is_same_path(x.as_str(), y),
            None => false,
        },
        None => b.is_none(),
    }
}

fn own_opt(s: Option<&str>) -> (r: Option<String>)
    ensures
        opt_text(r) == opt_str(s),
{
    match s {
        Some(t) => Some(t.to_owned()),
        None => None,
    }
}

/// Whether everything that was learned of the faces is forgotten.
pub open spec fn forgotten(st: FallbackState) -> bool {
    &&& st.chain@.len() == 0
    &&& !st.chain_built
    &&& st.resolve@.len() == 0
    &&& st.raster@.len() == 0
    &&& st.stats_primary == 0
    &&& st.stats_face_hits@.len() == 0
    &&& st.stats_miss == 0
    &&& st.resolved_chars == 0
    &&& st.logged_chars@ == Set::<u32>::empty()
}

/// Whether the game and the file of the primary face are the ones noted.
pub open spec fn noted(
    st: FallbackState,
    dir: Option<Seq<char>>,
    source: Option<Seq<char>>,
) -> bool {
    same_file(opt_text(st.project_dir), dir) && same_file(opt_text(st.primary_source), source)
}

/// Notes the game and the file of the primary face. A change makes everything
/// forgotten that was learned of the faces before.
pub fn note_primary_font(st: &mut FallbackState, project_dir: &str, primary_source: Option<&str>)
    ensures
        noted(*old(st), given_dir(project_dir@), opt_str(primary_source)) ==> *final(st) == *old(
            st,
        ),
        !noted(*old(st), given_dir(project_dir@), opt_str(primary_source)) ==> {
            &&& opt_text(final(st).project_dir) == given_dir(project_dir@)
            &&& opt_text(final(st).primary_source) == opt_str(primary_source)
            &&& final(st).generation == old(st).generation.wrapping_add(1)
            &&& forgotten(*final(st))
            &&& final(st).chain_disabled == old(st).chain_disabled
            &&& final(st).resolve_stamp == old(st).resolve_stamp
            &&& final(st).raster_stamp == old(st).raster_stamp
        },
{
    let dir: Option<&str> = if project_dir.unicode_len() == 0 {
        None
    } else {
        Some(project_dir)
    };
    if same_opt(&st.project_dir, dir) && same_opt(&st.primary_source, primary_source) {
        return;
    }
    st.project_dir = own_opt(dir);
    st.primary_source = own_opt(primary_source);
    st.generation = st.generation.wrapping_add(1);
    st.chain.clear();
    st.chain_built = false;
    st.resolve.clear();
    st.raster.clear();
    st.stats_primary = 0;
    st.stats_face_hits.clear();
    st.stats_miss = 0;
    st.resolved_chars = 0;
    st.logged_chars.clear();
}

/// What is needed to choose a face for a character.
#[derive(Debug, Clone, Copy, PartialEq, Eq, Structural)]
pub enum ResolveStep {
    /// The face: 0 is the primary one, and 1 the first of the chain.
    Face(u32),
    /// Look for the files of the chain, call `set_chain`, and ask again.
    NeedChain,
    /// Read the file of this face of the chain, call `set_font`, and ask
    /// again.
    NeedFont(usize),
}

/// The first face of the chain from `from` on that has the character, or the
/// first one on the way there that has not been tried.
pub open spec fn scan(chain: Seq<FallbackFace>, ch: char, from: int) -> ResolveStep
    decreases chain.len() - from,
{
    if from < 0 || from >= chain.len() {
        ResolveStep::Face(0)
    } else {
        match chain[from].font {
            FontSlot::NotTried => ResolveStep::NeedFont(from as usize),
            FontSlot::Failed => scan(chain, ch, from + 1),
            FontSlot::Loaded(bytes) => if covers(bytes@, ch) {
                ResolveStep::Face((from + 1) as u32)
            } else {
                scan(chain, ch, from + 1)
            },
        }
    }
}

/// The choice for a character that is not in the table.
pub open spec fn choice(st: FallbackState, primary: Seq<u8>, ch: char) -> ResolveStep {
    if covers(primary, ch) || st.chain_disabled {
        ResolveStep::Face(0)
    } else if !st.chain_built {
        ResolveStep::NeedChain
    } else {
        scan(st.chain@, ch, 0)
    }
}

pub open spec fn sat_inc(n: u64) -> u64 {
    if n == u64::MAX {
        n
    } else {
        (n + 1) as u64
    }
}

/// The counts of a face with one more.
pub open spec fn hit(hits: Seq<u64>, i: int) -> Seq<u64> {
    let grown = if hits.len() > i {
        hits
    } else {
        hits + Seq::new((i + 1 - hits.len()) as nat, |k: int| 0u64)
    };
    grown.update(i, sat_inc(grown[i]))
}

/// Whether a new choice has been noted and counted.
pub open spec fn choice_noted(
    before: FallbackState,
    after: FallbackState,
    primary_covers: bool,
    face: u32,
    ch: char,
) -> bool {
    &&& after.resolve_stamp == before.resolve_stamp + 1
    &&& lru_inserted(
        before.resolve@,
        after.resolve@,
        ch,
        (face, after.resolve_stamp),
        RESOLVE_CACHE_CAP as int,
    )
    &&& after.resolved_chars == sat_inc(before.resolved_chars)
    &&& after.stats_primary == (if face == 0 && primary_covers {
        sat_inc(before.stats_primary)
    } else {
        before.stats_primary
    })
    &&& after.stats_miss == (if face == 0 && !primary_covers {
        sat_inc(before.stats_miss)
    } else {
        before.stats_miss
    })
    &&& after.stats_face_hits@ == (if face == 0 {
        before.stats_face_hits@
    } else {
        hit(before.stats_face_hits@, face - 1)
    })
    &&& after == (FallbackState {
        resolve: after.resolve,
        resolve_stamp: after.resolve_stamp,
        resolved_chars: after.resolved_chars,
        stats_primary: after.stats_primary,
        stats_miss: after.stats_miss,
        stats_face_hits: after.stats_face_hits,
        ..before
    })
}

fn increment(n: u64) -> (r: u64)
    ensures
        r == sat_inc(n),
{
    if n == u64::MAX {
        n
    } else {
        n + 1
    }
}

/// What becomes of the state when the face for a character is asked for. A
/// choice that was made before stands.
pub open spec fn face_resolved(
    before: FallbackState,
    after: FallbackState,
    primary: Seq<u8>,
    ch: char,
    r: ResolveStep,
) -> bool {
    if table::has_key(before.resolve@, ch) {
        &&& exists|i: int| #[trigger]
            table::first_under(before.resolve@, ch, i) && r == ResolveStep::Face(
                before.resolve@[i].1.0,
            ) && after.resolve@ == before.resolve@.update(
                i,
                (ch, (before.resolve@[i].1.0, after.resolve_stamp)),
            )
        &&& after.resolve_stamp == before.resolve_stamp + 1
        &&& after == (FallbackState {
            resolve: after.resolve,
            resolve_stamp: after.resolve_stamp,
            ..before
        })
    } else {
        &&& r == choice(before, primary, ch)
        &&& match r {
            ResolveStep::Face(face) => choice_noted(
                before,
                after,
                covers(primary, ch),
                face,
                ch,
            ),
            _ => after == before,
        }
    }
}

/// Whether `face` may draw a character: the primary one may, and one of the
/// chain where it has the character and the primary one has not.
pub open spec fn right_choice(st: FallbackState, primary: Seq<u8>, ch: char, face: u32) -> bool {
    face == 0 || {
        &&& face <= st.chain@.len()
        &&& !covers(primary, ch)
        &&& st.chain@[face - 1].font matches FontSlot::Loaded(bytes) && covers(bytes@, ch)
    }
}

/// Whether all choices that have been noted are right.
pub open spec fn choices_are_right(st: FallbackState, primary: Seq<u8>) -> bool {
    forall|i: int|
        0 <= i < st.resolve@.len() ==> right_choice(
            st,
            primary,
            (#[trigger] st.resolve@[i]).0,
            st.resolve@[i].1.0,
        )
}

proof fn lemma_scan(chain: Seq<FallbackFace>, ch: char, from: int)
    requires
        0 <= from,
        chain.len() < u32::MAX,
    ensures
        scan(chain, ch, from) matches ResolveStep::Face(face) ==> face == 0 || (face
            <= chain.len() && (chain[face - 1].font matches FontSlot::Loaded(bytes) && covers(
            bytes@,
            ch,
        ))),
    decreases chain.len() - from,
{
    if from < chain.len() {
        lemma_scan(chain, ch, from + 1);
    }
}

/// While the primary face and the chain stay the same, a character is drawn
/// from a face of the chain only where that face has it and the primary one
/// has not, however many choices have been noted and dropped before.
pub proof fn choices_stay_right(
    before: FallbackState,
    after: FallbackState,
    primary: Seq<u8>,
    ch: char,
    r: ResolveStep,
)
    requires
        choices_are_right(before, primary),
        before.chain@.len() < u32::MAX,
        face_resolved(before, after, primary, ch, r),
    ensures
        choices_are_right(after, primary),
        r matches ResolveStep::Face(face) ==> right_choice(after, primary, ch, face),
{
    if table::has_key(before.resolve@, ch) {
        let i = choose|i: int| #[trigger]
            table::first_under(before.resolve@, ch, i) && r == ResolveStep::Face(
                before.resolve@[i].1.0,
            ) && after.resolve@ == before.resolve@.update(
                i,
                (ch, (before.resolve@[i].1.0, after.resolve_stamp)),
            );
        assert(before.resolve@[i].0 == ch);
        assert forall|k: int| 0 <= k < after.resolve@.len() implies right_choice(
            after,
            primary,
            (#[trigger] after.resolve@[k]).0,
            after.resolve@[k].1.0,
        ) by {
            assert(right_choice(before, primary, before.resolve@[k].0, before.resolve@[k].1.0));
        }
    } else {
        lemma_scan(before.chain@, ch, 0);
        if let ResolveStep::Face(face) = r {
            let value = (face, after.resolve_stamp);
            assert(right_choice(before, primary, ch, face));
            assert forall|k: int| 0 <= k < after.resolve@.len() implies right_choice(
                after,
                primary,
                (#[trigger] after.resolve@[k]).0,
                after.resolve@[k].1.0,
            ) by {
                if before.resolve@.len() >= RESOLVE_CACHE_CAP {
                    let i = choose|i: int| #[trigger]
                        is_oldest(before.resolve@, i) && after.resolve@ == before.resolve@.remove(
                            i,
                        ).push((ch, value));
                    if k < after.resolve@.len() - 1 {
                        let j = if k < i {
                            k
                        } else {
                            k + 1
                        };
                        assert(after.resolve@[k] == before.resolve@[j]);
                    }
                } else if k < before.resolve@.len() {
                    assert(after.resolve@[k] == before.resolve@[k]);
                }
            }
        }
    }
}

impl FallbackState {
    pub fn new() -> (st: FallbackState)
        ensures
            forgotten(st),
            st.generation == 0,
            st.project_dir is None,
            st.primary_source is None,
            !st.chain_disabled,
            st.resolve_stamp == 0,
            st.raster_stamp == 0,
    {
        FallbackState {
            generation: 0,
            project_dir: None,
            primary_source: None,
            chain: Vec::new(),
            chain_built: false,
            chain_disabled: false,
            resolve: Vec::new(),
            resolve_stamp: 0,
            raster: Vec::new(),
            raster_stamp: 0,
            stats_primary: 0,
            stats_face_hits: Vec::new(),
            stats_miss: 0,
            resolved_chars: 0,
            logged_chars: HashSet::new(),
        }
    }

    fn note_choice(&mut self, primary_covers: bool, face: u32, ch: char)
        requires
            old(self).resolve_stamp < u64::MAX,
        ensures
            choice_noted(*old(self), *final(self), primary_covers, face, ch),
    {
        if face == 0 {
            if primary_covers {
                self.stats_primary = increment(self.stats_primary);
            } else {
                self.stats_miss = increment(self.stats_miss);
            }
        } else {
            let i: usize = face as usize - 1;
            let ghost before = self.stats_face_hits@;
            if self.stats_face_hits.len() <= i {
                self.stats_face_hits.resize(i + 1, 0);
            }
            let n: u64 = increment(self.stats_face_hits[i]);
            self.stats_face_hits.set(i, n);
            proof {
                assert(self.stats_face_hits@ =~= hit(before, i as int));
            }
        }
        self.resolved_chars = increment(self.resolved_chars);
        self.resolve_stamp = self.resolve_stamp + 1;
        let stamp: u64 = self.resolve_stamp;
        insert_lru(&mut self.resolve, ch, (face, stamp), RESOLVE_CACHE_CAP);
    }

    /// Whether the face for a character has been chosen.
    pub fn knows(&self, ch: char) -> (r: bool)
        ensures
            r == table::has_key(self.resolve@, ch),
    {
        find_entry(&self.resolve, &ch).is_some()
    }

    /// Chooses the face for a character. A choice that was made before
    /// stands.
    pub fn resolve_face(&mut self, primary: &[u8], ch: char) -> (r: ResolveStep)
        requires
            old(self).resolve_stamp < u64::MAX,
            old(self).chain@.len() < u32::MAX,
        ensures
            face_resolved(*old(self), *final(self), primary@, ch, r),
    {
        if let Some(i) = find_entry(&self.resolve, &ch) {
            self.resolve_stamp = self.resolve_stamp + 1;
            let stamp: u64 = self.resolve_stamp;
            let face: u32 = self.resolve[i].1.0;
            let ghost before = self.resolve@;
            let e = &mut self.resolve[i];
            e.1.1 = stamp;
            proof {
                assert(table::first_under(old(self).resolve@, ch, i as int));
                assert(self.resolve@ =~= before.update(i as int, (ch, (face, stamp))));
            }
            return ResolveStep::Face(face);
        }
        let primary_covers: bool = font_covers(primary, ch);
        if primary_covers || self.chain_disabled {
            self.note_choice(primary_covers, 0, ch);
            return ResolveStep::Face(0);
        }
        if !self.chain_built {
            return ResolveStep::NeedChain;
        }
        let mut k: usize = 0;
        while k < self.chain.len()
            invariant
                *self == *old(self),
                self.chain@.len() < u32::MAX,
                self.resolve_stamp < u64::MAX,
                k <= self.chain@.len(),
                !table::has_key(self.resolve@, ch),
                !primary_covers,
                primary_covers == covers(primary@, ch),
                !self.chain_disabled,
                self.chain_built,
                scan(self.chain@, ch, 0) == scan(self.chain@, ch, k as int),
            decreases self.chain@.len() - k,
        {
            match &self.chain[k].font {
                FontSlot::NotTried => {
                    return ResolveStep::NeedFont(k);
                },
                FontSlot::Failed => {},
                FontSlot::Loaded(bytes) => {
                    if font_covers(bytes.as_slice(), ch) {
                        let face: u32 = k as u32 + 1;
                        self.note_choice(false, face, ch);
                        return ResolveStep::Face(face);
                    }
                },
            }
            k = k + 1;
        }
        self.note_choice(false, 0, ch);
        ResolveStep::Face(0)
    }

    /// Takes in the files of the chain. `off` says that the chain is switched
    /// off.
    pub fn set_chain(&mut self, sources: Vec<(String, String)>, off: bool)
        ensures
            final(self).chain_built,
            final(self).chain_disabled == (sources@.len() == 0 && off),
            final(self).chain@.len() == sources@.len(),
            forall|i: int|
                0 <= i < sources@.len() ==> {
                    &&& (#[trigger] final(self).chain@[i]).path@ == sources@[i].0@
                    &&& final(self).chain@[i].source@ == sources@[i].1@
                    &&& final(self).chain@[i].font is NotTried
                },
            *final(self) == (FallbackState {
                chain: final(self).chain,
                chain_built: true,
                chain_disabled: final(self).chain_disabled,
                ..*old(self)
            }),
    {
        let mut chain: Vec<FallbackFace> = Vec::new();
        let mut i: usize = 0;
        while i < sources.len()
            invariant
                i <= sources@.len(),
                chain@.len() == i,
                forall|k: int|
                    0 <= k < i ==> {
                        &&& (#[trigger] chain@[k]).path@ == sources@[k].0@
                        &&& chain@[k].source@ == sources@[k].1@
                        &&& chain@[k].font is NotTried
                    },
            decreases sources@.len() - i,
        {
            chain.push(
                FallbackFace {
                    path: sources[i].0.clone(),
                    source: sources[i].1.clone(),
                    font: FontSlot::NotTried,
                },
            );
            i = i + 1;
        }
        self.chain_disabled = sources.len() == 0 && off;
        self.chain_built = true;
        self.chain = chain;
    }

    /// Takes in the bytes of a face's file, where it could be read. Bytes that
    /// are no face count as a failure.
    pub fn set_font(&mut self, index: usize, bytes: Option<Vec<u8>>)
        requires
            index < old(self).chain@.len(),
        ensures
            final(self).chain@.len() == old(self).chain@.len(),
            final(self).chain@[index as int].path == old(self).chain@[index as int].path,
            final(self).chain@[index as int].source == old(self).chain@[index as int].source,
            final(self).chain@[index as int].font == (match bytes {
                Some(b) => if is_font_file(b@) {
                    FontSlot::Loaded(b)
                } else {
                    FontSlot::Failed
                },
                None => FontSlot::Failed,
            }),
            forall|k: int|
                0 <= k < old(self).chain@.len() && k != index ==> #[trigger] final(self).chain@[k]
                    == old(self).chain@[k],
            *final(self) == (FallbackState { chain: final(self).chain, ..*old(self) }),
    {
        let slot = match bytes {
            Some(b) => match glyph_number_of(b.as_slice(), ' ') {
                Some(_) => FontSlot::Loaded(b),
                None => FontSlot::Failed,
            },
            None => FontSlot::Failed,
        };
        let e = &mut self.chain[index];
        e.font = slot;
    }

    /// The place of a drawn character in the table. It counts as used.
    pub fn find_raster(&mut self, key: RasterKey) -> (r: Option<usize>)
        requires
            old(self).raster_stamp < u64::MAX,
        ensures
            match r {
                Some(i) => {
                    &&& table::first_under(old(self).raster@, key, i as int)
                    &&& final(self).raster_stamp == old(self).raster_stamp + 1
                    &&& final(self).raster@.len() == old(self).raster@.len()
                    &&& final(self).raster@[i as int].0 == key
                    &&& final(self).raster@[i as int].1.0 == old(self).raster@[i as int].1.0
                    &&& final(self).raster@[i as int].1.1 == final(self).raster_stamp
                    &&& forall|k: int|
                        0 <= k < old(self).raster@.len() && k != i ==> (#[trigger] final(self).raster@[k])
                            == old(self).raster@[k]
                    &&& *final(self) == (FallbackState {
                        raster: final(self).raster,
                        raster_stamp: final(self).raster_stamp,
                        ..*old(self)
                    })
                },
                None => !table::has_key(old(self).raster@, key) && *final(self) == *old(self),
            },
    {
        match find_entry(&self.raster, &key) {
            Some(i) => {
                self.raster_stamp = self.raster_stamp + 1;
                let stamp: u64 = self.raster_stamp;
                let e = &mut self.raster[i];
                e.1.1 = stamp;
                Some(i)
            },
            None => None,
        }
    }

    /// Keeps a drawn character.
    pub fn insert_raster(&mut self, key: RasterKey, glyph: RasterGlyph)
        requires
            old(self).raster_stamp < u64::MAX,
        ensures
            final(self).raster_stamp == old(self).raster_stamp + 1,
            lru_inserted(
                old(self).raster@,
                final(self).raster@,
                key,
                (glyph, final(self).raster_stamp),
                RASTER_CACHE_CAP as int,
            ),
            *final(self) == (FallbackState {
                raster: final(self).raster,
                raster_stamp: final(self).raster_stamp,
                ..*old(self)
            }),
    {
        self.raster_stamp = self.raster_stamp + 1;
        let stamp: u64 = self.raster_stamp;
        insert_lru(&mut self.raster, key, (glyph, stamp), RASTER_CACHE_CAP);
    }
}

// The files of the chain.

/// What the setting for the chain says.
#[derive(Debug)]
pub enum ChainSetting {
    /// The chain is switched off.
    Off,
    /// These files come first.
    Files(Vec<String>),
}

pub open spec fn is_separator(c: char) -> bool {
    c == ':' || c == ';'
}

/// The parts of the setting, without white space and without empty ones.
pub open spec fn setting_parts(s: Seq<char>) -> Seq<Seq<char>>
    decreases s.len(),
{
    let n = part_len(s);
    let part = text_parts::trimmed(s.take(n));
    let head = if part.len() == 0 {
        Seq::empty()
    } else {
        seq![part]
    };
    if 0 <= n < s.len() {
        head + setting_parts(s.skip(n + 1))
    } else {
        head
    }
}

/// How long the first part is.
pub open spec fn part_len(s: Seq<char>) -> int
    decreases s.len(),
{
    if s.len() == 0 || is_separator(s[0]) {
        0
    } else {
        1 + part_len(s.drop_first())
    }
}

fn find_part_len(s: &[char]) -> (n: usize)
    ensures
        n == part_len(s@),
        n <= s@.len(),
{
    let mut n: usize = 0;
    proof {
        assert(s@.skip(0) =~= s@);
    }
    while n < s.len() && s[n] != ':' && s[n] != ';'
        invariant
            n <= s@.len(),
            part_len(s@) == n + part_len(s@.skip(n as int)),
        decreases s@.len() - n,
    {
        proof {
            assert(s@.skip(n as int).drop_first() =~= s@.skip(n + 1));
        }
        n = n + 1;
    }
    n
}

/// Whether a setting switches the chain off.
pub open spec fn is_off(raw: Seq<char>) -> bool {
    text::lower(text_parts::trimmed(raw)) == text::lower("off"@)
}

/// Reads the setting for the chain: `off`, or files with `:` or `;` between
/// them.
pub fn read_setting(raw: &str) -> (r: ChainSetting)
    ensures
        match r {
            ChainSetting::Off => is_off(raw@),
            ChainSetting::Files(files) => !is_off(raw@) && text_parts::texts(files@) == setting_parts(
                text_parts::trimmed(raw@),
            ),
        },
{
    let t = trim(raw);
    if same_ignoring_case(t.as_str(), "off") {
        return ChainSetting::Off;
    }
    let chars = chars_of(t.as_str());
    let mut files: Vec<String> = Vec::new();
    let mut rest: &[char] = chars.as_slice();
    let ghost whole = t@;
    proof {
        assert(text_parts::texts(files@) + setting_parts(whole) =~= setting_parts(whole));
    }
    loop
        invariant_except_break
            text_parts::texts(files@) + setting_parts(rest@) == setting_parts(whole),
        ensures
            text_parts::texts(files@) == setting_parts(whole),
        decreases rest@.len(),
    {
        let n: usize = find_part_len(rest);
        let len: usize = rest.len();
        let head = vstd::slice::slice_subrange(rest, 0, n);
        proof {
            assert(head@ =~= rest@.take(n as int));
        }
        let part = trim_chars(head);
        let ghost before = text_parts::texts(files@);
        if part.len() > 0 {
            files.push(text_of(part));
            proof {
                assert(text_parts::texts(files@) =~= before.push(part@));
            }
        }
        if n >= len {
            proof {
                assert(text_parts::texts(files@) =~= before + setting_parts(rest@));
            }
            break;
        }
        let tail = vstd::slice::slice_subrange(rest, n + 1, len);
        proof {
            assert(tail@ =~= rest@.skip(n + 1));
            assert(text_parts::texts(files@) + setting_parts(tail@) =~= before + setting_parts(rest@));
        }
        rest = tail;
    }
    ChainSetting::Files(files)
}

/// Whether a file is a face by its extension.
pub open spec fn is_font_path(path: Seq<char>) -> bool {
    let ext = assets::extension_of(path);
    ext == "ttf"@ || ext == "otf"@ || ext == "ttc"@
}

/// Whether a file is a face by its extension.
pub fn is_supported_font_path(path: &str) -> (r: bool)
    ensures
        r == is_font_path(path@),
{
    let ext = lower_extension(path);
    let e = ext.as_str();
    same_text(e, "ttf") || same_text(e, "otf") || same_text(e, "ttc")
}

/// The name by which the faces of a game are put in order.
pub open spec fn sort_key(path: Seq<char>) -> Seq<char> {
    match paths::file_name_of(path) {
        Some(name) => text::lower(name),
        None => Seq::empty(),
    }
}

fn key_of(path: &str) -> (r: Vec<char>)
    ensures
        r@ == sort_key(path@),
{
    let chars = chars_of(path);
    match file_name_chars(chars.as_slice()) {
        Some(name) => {
            let mut r: Vec<char> = Vec::new();
            let mut i: usize = 0;
            while i < name.len()
                invariant
                    i <= name@.len(),
                    r@ == text::lower(name@).take(i as int),
                decreases name@.len() - i,
            {
                r.push(to_lower_char(name[i]));
                i = i + 1;
                proof {
                    assert(r@ =~= text::lower(name@).take(i as int));
                }
            }
            proof {
                assert(r@ =~= text::lower(name@));
            }
            r
        },
        None => Vec::new(),
    }
}

/// The place for `path` in a list that is in order: behind all that do not
/// come after it.
pub open spec fn place_for(list: Seq<Seq<char>>, path: Seq<char>) -> int
    decreases list.len(),
{
    if list.len() > 0 && text_parts::before(sort_key(path), sort_key(list.last())) {
        place_for(list.drop_last(), path)
    } else {
        list.len() as int
    }
}

/// The paths in the order of their names. Paths whose names are the same stay
/// in their order.
pub open spec fn in_order(list: Seq<Seq<char>>) -> Seq<Seq<char>>
    decreases list.len(),
{
    if list.len() == 0 {
        Seq::empty()
    } else {
        let sorted = in_order(list.drop_last());
        sorted.insert(place_for(sorted, list.last()), list.last())
    }
}

proof fn lemma_place(list: Seq<Seq<char>>, path: Seq<char>)
    ensures
        0 <= place_for(list, path) <= list.len(),
    decreases list.len(),
{
    if list.len() > 0 && text_parts::before(sort_key(path), sort_key(list.last())) {
        lemma_place(list.drop_last(), path);
    }
}

/// What stands behind the place for `path` comes after it; what stands right
/// before it does not.
proof fn lemma_place_splits(list: Seq<Seq<char>>, path: Seq<char>)
    ensures
        ({
            let at = place_for(list, path);
            &&& 0 <= at <= list.len()
            &&& forall|k: int|
                at <= k < list.len() ==> text_parts::before(
                    sort_key(path),
                    sort_key(#[trigger] list[k]),
                )
            &&& at > 0 ==> !text_parts::before(sort_key(path), sort_key(list[at - 1]))
        }),
    decreases list.len(),
{
    if list.len() > 0 && text_parts::before(sort_key(path), sort_key(list.last())) {
        let front = list.drop_last();
        lemma_place_splits(front, path);
        let at = place_for(front, path);
        assert forall|k: int| at <= k < list.len() implies text_parts::before(
            sort_key(path),
            sort_key(#[trigger] list[k]),
        ) by {
            if k < front.len() {
                assert(front[k] == list[k]);
            }
        }
        if at > 0 {
            assert(front[at - 1] == list[at - 1]);
        }
    }
}

proof fn lemma_none_kept(list: Seq<Seq<char>>, pred: spec_fn(Seq<char>) -> bool)
    requires
        forall|k: int| 0 <= k < list.len() ==> !pred(#[trigger] list[k]),
    ensures
        list.filter(pred) == Seq::<Seq<char>>::empty(),
    decreases list.len(),
{
    reveal(Seq::filter);
    if list.len() > 0 {
        let front = list.drop_last();
        assert forall|k: int| 0 <= k < front.len() implies !pred(#[trigger] front[k]) by {
            assert(front[k] == list[k]);
        }
        assert(!pred(list[list.len() - 1]));
        lemma_none_kept(front, pred);
    }
}

/// The paths of a list that have this name.
pub open spec fn of_name(list: Seq<Seq<char>>, name: Seq<char>) -> Seq<Seq<char>> {
    list.filter(|path: Seq<char>| sort_key(path) == name)
}

/// The files of a game are tried in the order of their names: none stands
/// behind one whose name comes after its own. Of each name just the same files
/// are tried as were found, in the order in which they were found.
pub proof fn files_are_in_stable_order(list: Seq<Seq<char>>)
    ensures
        forall|i: int, j: int|
            #![trigger in_order(list)[i], in_order(list)[j]]
            0 <= i < j < in_order(list).len() ==> !text_parts::before(
                sort_key(in_order(list)[j]),
                sort_key(in_order(list)[i]),
            ),
        forall|name: Seq<char>| #[trigger] of_name(in_order(list), name) == of_name(list, name),
    decreases list.len(),
{
    if list.len() > 0 {
        let front = list.drop_last();
        let path = list.last();
        let sorted = in_order(front);
        let now = in_order(list);
        let at = place_for(sorted, path);
        files_are_in_stable_order(front);
        lemma_place_splits(sorted, path);
        assert forall|i: int, j: int|
            #![trigger now[i], now[j]]
            0 <= i < j < now.len() implies !text_parts::before(sort_key(now[j]), sort_key(now[i])) by {
            if j == at {
                if i < at - 1 {
                    assert(!text_parts::before(sort_key(sorted[at - 1]), sort_key(sorted[i])));
                    if text_parts::before(sort_key(path), sort_key(sorted[i])) {
                        text_parts::order_has_no_gap(
                            sort_key(path),
                            sort_key(sorted[at - 1]),
                            sort_key(sorted[i]),
                        );
                    }
                }
            } else if i == at {
                text_parts::texts_are_ordered(sort_key(path), sort_key(sorted[j - 1]));
            } else {
                let m = if i < at {
                    i
                } else {
                    i - 1
                };
                let n = if j < at {
                    j
                } else {
                    j - 1
                };
                assert(now[i] == sorted[m] && now[j] == sorted[n]);
            }
        }
        assert forall|name: Seq<char>| #[trigger] of_name(now, name) == of_name(list, name) by {
            let named = |path: Seq<char>| sort_key(path) == name;
            let left = sorted.take(at);
            let right = sorted.skip(at);
            assert(sorted =~= left + right);
            assert(now =~= left.push(path) + right);
            Seq::filter_distributes_over_add(left, right, named);
            Seq::filter_distributes_over_add(left.push(path), right, named);
            left.lemma_filter_push(path, named);
            assert(list =~= front.push(path));
            front.lemma_filter_push(path, named);
            assert(of_name(sorted, name) == of_name(front, name));
            if named(path) {
                assert forall|k: int| 0 <= k < right.len() implies !named(#[trigger] right[k]) by {
                    assert(right[k] == sorted[at + k]);
                    text_parts::texts_are_ordered(sort_key(path), sort_key(right[k]));
                }
                lemma_none_kept(right, named);
                assert(now.filter(named) =~= list.filter(named));
            }
        }
    }
}

fn sort_by_name(list: Vec<String>) -> (r: Vec<String>)
    ensures
        text_parts::texts(r@) == in_order(text_parts::texts(list@)),
{
    let mut r: Vec<String> = Vec::new();
    let ghost all = text_parts::texts(list@);
    let mut i: usize = 0;
    proof {
        assert(all.take(0) =~= Seq::<Seq<char>>::empty());
        assert(text_parts::texts(r@) =~= Seq::<Seq<char>>::empty());
    }
    while i < list.len()
        invariant
            all == text_parts::texts(list@),
            i <= list@.len(),
            text_parts::texts(r@) == in_order(all.take(i as int)),
            r@.len() == i,
        decreases list@.len() - i,
    {
        let key = key_of(list[i].as_str());
        let mut at: usize = r.len();
        let ghost sorted = text_parts::texts(r@);
        let ghost path = list@[i as int]@;
        proof {
            assert(sorted.take(at as int) =~= sorted);
        }
        while at > 0
            invariant
                sorted == text_parts::texts(r@),
                key@ == sort_key(path),
                at <= r@.len(),
                place_for(sorted, path) == place_for(sorted.take(at as int), path),
            ensures
                place_for(sorted, path) == at,
                at <= r@.len(),
            decreases at,
        {
            let other = key_of(r[at - 1].as_str());
            proof {
                assert(sorted.take(at as int).last() == r@[at - 1]@);
                assert(sorted.take(at as int).drop_last() =~= sorted.take(at - 1));
            }
            if !is_before(key.as_slice(), other.as_slice()) {
                break;
            }
            at = at - 1;
        }
        proof {
            let taken = all.take(i + 1);
            assert(taken.drop_last() =~= all.take(i as int));
            assert(taken.last() == path);
        }
        r.insert(at, list[i].clone());
        proof {
            assert(text_parts::texts(r@) =~= sorted.insert(at as int, path));
        }
        i = i + 1;
    }
    proof {
        assert(all.take(i as int) =~= all);
    }
    r
}

/// A file of the chain and what it is called.
pub open spec fn pairs(list: Seq<(String, String)>) -> Seq<(Seq<char>, Seq<char>)> {
    list.map_values(|p: (String, String)| (p.0@, p.1@))
}

/// Whether some file of the chain has this path.
pub open spec fn has_path(list: Seq<(Seq<char>, Seq<char>)>, path: Seq<char>) -> bool {
    exists|i: int| 0 <= i < list.len() && paths::same_path((#[trigger] list[i]).0, path)
}

/// The chain with a file behind it, unless it is the primary face's or is
/// there already.
pub open spec fn with_file(
    list: Seq<(Seq<char>, Seq<char>)>,
    path: Seq<char>,
    source: Seq<char>,
    primary: Option<Seq<char>>,
) -> Seq<(Seq<char>, Seq<char>)> {
    if path.len() == 0 || same_file(primary, Some(path)) || has_path(list, path) {
        list
    } else {
        list.push((path, source))
    }
}

/// Where a file comes from.
#[derive(Debug, Clone, Copy, PartialEq, Eq, Structural)]
pub enum Origin {
    Setting,
    Game,
    Platform,
}

/// What a file is called.
pub open spec fn label(path: Seq<char>, origin: Origin) -> Seq<char> {
    match origin {
        Origin::Setting => "env:"@ + path,
        Origin::Game => "game:"@ + match paths::file_name_of(path) {
            Some(name) => name,
            None => "game font"@,
        },
        Origin::Platform => path,
    }
}

/// The chain with the files of one origin behind it.
pub open spec fn with_files(
    list: Seq<(Seq<char>, Seq<char>)>,
    files: Seq<Seq<char>>,
    origin: Origin,
    primary: Option<Seq<char>>,
) -> Seq<(Seq<char>, Seq<char>)>
    decreases files.len(),
{
    if files.len() == 0 {
        list
    } else {
        with_file(
            with_files(list, files.drop_last(), origin, primary),
            files.last(),
            label(files.last(), origin),
            primary,
        )
    }
}

fn label_of(path: &str, origin: Origin) -> (r: String)
    ensures
        r@ == label(path@, origin),
{
    match origin {
        Origin::Setting => join("env:", path),
        Origin::Game => {
            let chars = chars_of(path);
            match file_name_chars(chars.as_slice()) {
                Some(name) => {
                    let n = text_of(name.as_slice());
                    join("game:", n.as_str())
                },
                None => join("game:", "game font"),
            }
        },
        Origin::Platform => path.to_owned(),
    }
}

fn add_file(out: &mut Vec<(String, String)>, path: &str, origin: Origin, primary: Option<&str>)
    ensures
        pairs(final(out)@) == with_file(
            pairs(old(out)@),
            path@,
            label(path@, origin),
            opt_str(primary),
        ),
{
    if path.unicode_len() == 0 {
        return;
    }
    if let Some(p) = primary {
        if is_same_path(p, path) {
            return;
        }
    }
    let mut i: usize = 0;
    while i < out.len()
        invariant
            *out == *old(out),
            i <= out@.len(),
            forall|k: int|
                0 <= k < i ==> !paths::same_path((#[trigger] pairs(out@)[k]).0, path@),
        decreases out@.len() - i,
    {
        if is_same_path(out[i].0.as_str(), path) {
            proof {
                assert(paths::same_path(pairs(out@)[i as int].0, path@));
            }
            return;
        }
        i = i + 1;
    }
    let ghost before = pairs(out@);
    out.push((path.to_owned(), label_of(path, origin)));
    proof {
        assert(pairs(out@) =~= before.push((path@, label(path@, origin))));
    }
}

fn add_files(
    out: &mut Vec<(String, String)>,
    files: &Vec<String>,
    origin: Origin,
    primary: Option<&str>,
)
    ensures
        pairs(final(out)@) == with_files(
            pairs(old(out)@),
            text_parts::texts(files@),
            origin,
            opt_str(primary),
        ),
{
    let ghost all = text_parts::texts(files@);
    let ghost start = pairs(out@);
    let mut i: usize = 0;
    proof {
        assert(all.take(0) =~= Seq::<Seq<char>>::empty());
    }
    while i < files.len()
        invariant
            all == text_parts::texts(files@),
            i <= files@.len(),
            pairs(out@) == with_files(start, all.take(i as int), origin, opt_str(primary)),
        decreases files@.len() - i,
    {
        proof {
            let taken = all.take(i + 1);
            assert(taken.drop_last() =~= all.take(i as int));
            assert(taken.last() == files@[i as int]@);
        }
        add_file(out, files[i].as_str(), origin, primary);
        i = i + 1;
    }
    proof {
        assert(all.take(i as int) =~= all);
    }
}

/// The systems that are known to have faces of their own.
#[derive(Debug, Clone, Copy, PartialEq, Eq, Structural)]
pub enum FontPlatform {
    /// Linux, FreeBSD or Android.
    Unix,
    Windows,
    MacOs,
    Other,
}

/// Where faces are to be expected on a system. Those of Windows stand in the
/// directory for faces in `windir`.
pub open spec fn platform_files(platform: FontPlatform, windir: Option<Seq<char>>) -> Seq<Seq<char>> {
    let fonts = paths::joined(
        match windir {
            Some(dir) => dir,
            None => "C:\\Windows"@,
        },
        "Fonts"@,
    );
    match platform {
        FontPlatform::Unix => seq![
            "/usr/share/fonts/opentype/noto/NotoSansCJK-Regular.ttc"@,
            "/usr/share/fonts/noto-cjk/NotoSansCJK-Regular.ttc"@,
            "/usr/share/fonts/opentype/noto/NotoSansCJKsc-Regular.otf"@,
            "/usr/share/fonts/opentype/noto/NotoSansCJKjp-Regular.otf"@,
            "/usr/share/fonts/truetype/noto/NotoSansCJK-Regular.ttc"@,
            "/usr/share/fonts/truetype/wqy/wqy-microhei.ttc"@,
            "/usr/share/fonts/truetype/wqy/wqy-zenhei.ttc"@,
            "/usr/share/fonts/truetype/droid/DroidSansFallbackFull.ttf"@,
            "/usr/share/fonts/truetype/fonts-japanese-gothic.ttf"@,
        ],
        FontPlatform::Windows => seq![
            paths::joined(fonts, "msyh.ttc"@),
            paths::joined(fonts, "simsun.ttc"@),
            paths::joined(fonts, "simhei.ttf"@),
            paths::joined(fonts, "msgothic.ttc"@),
        ],
        FontPlatform::MacOs => seq![
            "/System/Library/Fonts/Supplemental/Arial Unicode.ttf"@,
            "/System/Library/Fonts/ヒラギノ角ゴシック W3.ttc"@,
            "/System/Library/Fonts/Supplemental/Osaka.ttf"@,
        ],
        FontPlatform::Other => Seq::empty(),
    }
}

/// Where faces are to be expected on a system.
pub fn platform_fallback_candidates(platform: FontPlatform, windir: Option<&str>) -> (r: Vec<String>)
    ensures
        text_parts::texts(r@) == platform_files(platform, opt_str(windir)),
{
    let mut r: Vec<String> = Vec::new();
    match platform {
        FontPlatform::Unix => {
            r.push("/usr/share/fonts/opentype/noto/NotoSansCJK-Regular.ttc".to_owned());
            r.push("/usr/share/fonts/noto-cjk/NotoSansCJK-Regular.ttc".to_owned());
            r.push("/usr/share/fonts/opentype/noto/NotoSansCJKsc-Regular.otf".to_owned());
            r.push("/usr/share/fonts/opentype/noto/NotoSansCJKjp-Regular.otf".to_owned());
            r.push("/usr/share/fonts/truetype/noto/NotoSansCJK-Regular.ttc".to_owned());
            r.push("/usr/share/fonts/truetype/wqy/wqy-microhei.ttc".to_owned());
            r.push("/usr/share/fonts/truetype/wqy/wqy-zenhei.ttc".to_owned());
            r.push("/usr/share/fonts/truetype/droid/DroidSansFallbackFull.ttf".to_owned());
            r.push("/usr/share/fonts/truetype/fonts-japanese-gothic.ttf".to_owned());
        },
        FontPlatform::Windows => {
            let fonts = match windir {
                Some(dir) => join_path(dir, "Fonts"),
                None => join_path("C:\\Windows", "Fonts"),
            };
            r.push(join_path(fonts.as_str(), "msyh.ttc"));
            r.push(join_path(fonts.as_str(), "simsun.ttc"));
            r.push(join_path(fonts.as_str(), "simhei.ttf"));
            r.push(join_path(fonts.as_str(), "msgothic.ttc"));
        },
        FontPlatform::MacOs => {
            r.push("/System/Library/Fonts/Supplemental/Arial Unicode.ttf".to_owned());
            r.push("/System/Library/Fonts/ヒラギノ角ゴシック W3.ttc".to_owned());
            r.push("/System/Library/Fonts/Supplemental/Osaka.ttf".to_owned());
        },
        FontPlatform::Other => {},
    }
    proof {
        assert(text_parts::texts(r@) =~= platform_files(platform, opt_str(windir)));
    }
    r
}

/// Where faces are to be expected beside the program.
pub open spec fn runtime_files(exe_dir: Option<Seq<char>>) -> Seq<Seq<char>> {
    match exe_dir {
        Some(dir) => seq![
            paths::joined(dir, "aetherkiri-runtime-cjk.otf"@),
            paths::joined(dir, "assets/fonts/aetherkiri-runtime-cjk.otf"@),
            paths::joined(dir, "assets/font/aetherkiri-runtime-cjk.otf"@),
            paths::joined(dir, "fonts/aetherkiri-runtime-cjk.otf"@),
        ],
        None => Seq::empty(),
    }
}

/// Where faces are to be expected beside the program.
pub fn runtime_candidates(exe_dir: Option<&str>) -> (r: Vec<String>)
    ensures
        text_parts::texts(r@) == runtime_files(opt_str(exe_dir)),
{
    let mut r: Vec<String> = Vec::new();
    if let Some(dir) = exe_dir {
        r.push(join_path(dir, "aetherkiri-runtime-cjk.otf"));
        r.push(join_path(dir, "assets/fonts/aetherkiri-runtime-cjk.otf"));
        r.push(join_path(dir, "assets/font/aetherkiri-runtime-cjk.otf"));
        r.push(join_path(dir, "fonts/aetherkiri-runtime-cjk.otf"));
    }
    proof {
        assert(text_parts::texts(r@) =~= runtime_files(opt_str(exe_dir)));
    }
    r
}

/// The files that exist.
pub open spec fn only_existing(files: Seq<Seq<char>>, existing: Seq<Seq<char>>) -> Seq<Seq<char>>
    decreases files.len(),
{
    if files.len() == 0 {
        Seq::empty()
    } else {
        let front = only_existing(files.drop_last(), existing);
        if existing.contains(files.last()) {
            front.push(files.last())
        } else {
            front
        }
    }
}

/// The files that are faces by their extensions.
pub open spec fn only_faces(files: Seq<Seq<char>>) -> Seq<Seq<char>>
    decreases files.len(),
{
    if files.len() == 0 {
        Seq::empty()
    } else {
        let front = only_faces(files.drop_last());
        if is_font_path(files.last()) {
            front.push(files.last())
        } else {
            front
        }
    }
}

fn is_existing(existing: &Vec<String>, path: &str) -> (r: bool)
    ensures
        r == text_parts::texts(existing@).contains(path@),
{
    let mut i: usize = 0;
    while i < existing.len()
        invariant
            i <= existing@.len(),
            forall|k: int| 0 <= k < i ==> (#[trigger] text_parts::texts(existing@)[k]) != path@,
        decreases existing@.len() - i,
    {
        if same_text(existing[i].as_str(), path) {
            proof {
                assert(text_parts::texts(existing@)[i as int] == path@);
            }
            return true;
        }
        i = i + 1;
    }
    false
}

fn keep_existing(files: &Vec<String>, existing: &Vec<String>) -> (r: Vec<String>)
    ensures
        text_parts::texts(r@) == only_existing(text_parts::texts(files@), text_parts::texts(existing@)),
{
    let ghost all = text_parts::texts(files@);
    let mut r: Vec<String> = Vec::new();
    let mut i: usize = 0;
    proof {
        assert(all.take(0) =~= Seq::<Seq<char>>::empty());
        assert(text_parts::texts(r@) =~= Seq::<Seq<char>>::empty());
    }
    while i < files.len()
        invariant
            all == text_parts::texts(files@),
            i <= files@.len(),
            text_parts::texts(r@) == only_existing(all.take(i as int), text_parts::texts(existing@)),
        decreases files@.len() - i,
    {
        proof {
            let taken = all.take(i + 1);
            assert(taken.drop_last() =~= all.take(i as int));
            assert(taken.last() == files@[i as int]@);
        }
        let ghost front = text_parts::texts(r@);
        if is_existing(existing, files[i].as_str()) {
            r.push(files[i].clone());
            proof {
                assert(text_parts::texts(r@) =~= front.push(files@[i as int]@));
            }
        }
        i = i + 1;
    }
    proof {
        assert(all.take(i as int) =~= all);
    }
    r
}

fn keep_faces(files: &Vec<String>) -> (r: Vec<String>)
    ensures
        text_parts::texts(r@) == only_faces(text_parts::texts(files@)),
{
    let ghost all = text_parts::texts(files@);
    let mut r: Vec<String> = Vec::new();
    let mut i: usize = 0;
    proof {
        assert(all.take(0) =~= Seq::<Seq<char>>::empty());
        assert(text_parts::texts(r@) =~= Seq::<Seq<char>>::empty());
    }
    while i < files.len()
        invariant
            all == text_parts::texts(files@),
            i <= files@.len(),
            text_parts::texts(r@) == only_faces(all.take(i as int)),
        decreases files@.len() - i,
    {
        proof {
            let taken = all.take(i + 1);
            assert(taken.drop_last() =~= all.take(i as int));
            assert(taken.last() == files@[i as int]@);
        }
        let ghost front = text_parts::texts(r@);
        if is_supported_font_path(files[i].as_str()) {
            r.push(files[i].clone());
            proof {
                assert(text_parts::texts(r@) =~= front.push(files@[i as int]@));
            }
        }
        i = i + 1;
    }
    proof {
        assert(all.take(i as int) =~= all);
    }
    r
}

/// The files that a setting names, where there is one and it does not switch
/// the chain off.
pub open spec fn named_files(setting: Option<Seq<char>>) -> Seq<Seq<char>> {
    match setting {
        Some(raw) => setting_parts(text_parts::trimmed(raw)),
        None => Seq::empty(),
    }
}

/// The files of the chain with what they are called: those of the setting,
/// those of the game by name, those of the platform and those beside the
/// program. A setting may switch the chain off.
pub open spec fn chain_files(
    setting: Option<Seq<char>>,
    game: Seq<Seq<char>>,
    platform: Seq<Seq<char>>,
    runtime: Seq<Seq<char>>,
    existing: Seq<Seq<char>>,
    primary: Option<Seq<char>>,
) -> Seq<(Seq<char>, Seq<char>)> {
    if setting matches Some(raw) && is_off(raw) {
        Seq::empty()
    } else {
        let first = with_files(
            Seq::empty(),
            only_existing(named_files(setting), existing),
            Origin::Setting,
            primary,
        );
        let second = with_files(first, in_order(only_faces(game)), Origin::Game, primary);
        let third = with_files(
            second,
            only_existing(platform, existing),
            Origin::Platform,
            primary,
        );
        with_files(third, only_existing(runtime, existing), Origin::Platform, primary)
    }
}

/// The files of the chain in order. `game` has the files in the game's
/// directories for faces, and `existing` the paths that exist among those that
/// the setting names, `platform` and `runtime`.
pub fn fallback_sources(
    setting: Option<&str>,
    game: &Vec<String>,
    platform: &Vec<String>,
    runtime: &Vec<String>,
    existing: &Vec<String>,
    primary: Option<&str>,
) -> (out: Vec<(String, String)>)
    ensures
        pairs(out@) == chain_files(
            opt_str(setting),
            text_parts::texts(game@),
            text_parts::texts(platform@),
            text_parts::texts(runtime@),
            text_parts::texts(existing@),
            opt_str(primary),
        ),
{
    let mut out: Vec<(String, String)> = Vec::new();
    proof {
        assert(pairs(out@) =~= Seq::<(Seq<char>, Seq<char>)>::empty());
    }
    let named: Vec<String> = match setting {
        Some(raw) => match read_setting(raw) {
            ChainSetting::Off => {
                return out;
            },
            ChainSetting::Files(files) => files,
        },
        None => Vec::new(),
    };
    proof {
        assert(text_parts::texts(named@) =~= named_files(opt_str(setting)));
    }
    let first = keep_existing(&named, existing);
    add_files(&mut out, &first, Origin::Setting, primary);
    let sorted = sort_by_name(keep_faces(game));
    add_files(&mut out, &sorted, Origin::Game, primary);
    let third = keep_existing(platform, existing);
    add_files(&mut out, &third, Origin::Platform, primary);
    let fourth = keep_existing(runtime, existing);
    add_files(&mut out, &fourth, Origin::Platform, primary);
    out
}

/// No file stands in the chain twice, and the primary face's does not stand
/// in it.
pub proof fn chain_has_no_file_twice(
    setting: Option<Seq<char>>,
    game: Seq<Seq<char>>,
    platform: Seq<Seq<char>>,
    runtime: Seq<Seq<char>>,
    existing: Seq<Seq<char>>,
    primary: Option<Seq<char>>,
)
    ensures
        distinct_paths(
            chain_files(setting, game, platform, runtime, existing, primary),
            primary,
        ),
{
    if setting matches Some(raw) && is_off(raw) {
    } else {
        let a = only_existing(named_files(setting), existing);
        let b = in_order(only_faces(game));
        let c = only_existing(platform, existing);
        let d = only_existing(runtime, existing);
        let first = with_files(Seq::empty(), a, Origin::Setting, primary);
        let second = with_files(first, b, Origin::Game, primary);
        let third = with_files(second, c, Origin::Platform, primary);
        lemma_distinct(Seq::empty(), a, Origin::Setting, primary);
        lemma_distinct(first, b, Origin::Game, primary);
        lemma_distinct(second, c, Origin::Platform, primary);
        lemma_distinct(third, d, Origin::Platform, primary);
    }
}

proof fn lemma_distinct(
    list: Seq<(Seq<char>, Seq<char>)>,
    files: Seq<Seq<char>>,
    origin: Origin,
    primary: Option<Seq<char>>,
)
    requires
        distinct_paths(list, primary),
    ensures
        distinct_paths(with_files(list, files, origin, primary), primary),
    decreases files.len(),
{
    if files.len() > 0 {
        lemma_distinct(list, files.drop_last(), origin, primary);
        let before = with_files(list, files.drop_last(), origin, primary);
        let path = files.last();
        let after = with_file(before, path, label(path, origin), primary);
        assert forall|i: int, j: int|
            #![trigger after[i], after[j]]
            0 <= i < j < after.len() implies !paths::same_path(after[i].0, after[j].0) by {
            if j < before.len() {
                assert(!paths::same_path(before[i].0, before[j].0));
            } else if paths::same_path(before[i].0, path) {
                assert(has_path(before, path));
            }
        }
        assert forall|i: int| 0 <= i < after.len() implies (#[trigger] after[i]).0.len() > 0 && !(
        primary matches Some(own) && paths::same_path(own, after[i].0)) by {
            if i < before.len() {
                assert(before[i].0.len() > 0);
            }
        }
    }
}

pub open spec fn distinct_paths(
    list: Seq<(Seq<char>, Seq<char>)>,
    primary: Option<Seq<char>>,
) -> bool {
    &&& forall|i: int, j: int|
        #![trigger list[i], list[j]]
        0 <= i < j < list.len() ==> !paths::same_path(list[i].0, list[j].0)
    &&& forall|i: int|
        0 <= i < list.len() ==> (#[trigger] list[i]).0.len() > 0 && !(primary matches Some(own)
            && paths::same_path(own, list[i].0))
}

/// A character that the primary face has is drawn from it. Any other is drawn
/// from the first face of the chain that has it, and from the primary one where
/// none has, or where the chain is switched off.
pub proof fn the_first_face_that_has_a_character_draws_it(
    st: FallbackState,
    primary: Seq<u8>,
    ch: char,
    k: int,
)
    requires
        st.chain_built,
        st.chain@.len() < u32::MAX,
        forall|i: int| 0 <= i < st.chain@.len() ==> !((#[trigger] st.chain@[i]).font is NotTried),
        0 <= k <= st.chain@.len(),
        forall|i: int|
            0 <= i < k ==> !((#[trigger] st.chain@[i]).font matches FontSlot::Loaded(bytes)
                && is_font_file(bytes@) && glyph_number(bytes@, ch) != 0),
        k < st.chain@.len() ==> (st.chain@[k].font matches FontSlot::Loaded(bytes)
            && is_font_file(bytes@) && glyph_number(bytes@, ch) != 0),
    ensures
        is_font_file(primary) && glyph_number(primary, ch) != 0 ==> choice(st, primary, ch)
            == ResolveStep::Face(0),
        st.chain_disabled ==> choice(st, primary, ch) == ResolveStep::Face(0),
        !(is_font_file(primary) && glyph_number(primary, ch) != 0) && !st.chain_disabled ==> choice(
            st,
            primary,
            ch,
        ) == ResolveStep::Face(
            if k < st.chain@.len() {
                (k + 1) as u32
            } else {
                0
            },
        ),
{
    lemma_scan_to(st.chain@, ch, 0, k);
}

proof fn lemma_scan_to(chain: Seq<FallbackFace>, ch: char, from: int, k: int)
    requires
        0 <= from <= k <= chain.len(),
        forall|i: int| 0 <= i < chain.len() ==> !((#[trigger] chain[i]).font is NotTried),
        forall|i: int|
            from <= i < k ==> !((#[trigger] chain[i]).font matches FontSlot::Loaded(bytes) && covers(
                bytes@,
                ch,
            )),
        k < chain.len() ==> (chain[k].font matches FontSlot::Loaded(bytes) && covers(bytes@, ch)),
    ensures
        scan(chain, ch, from) == ResolveStep::Face(
            if k < chain.len() {
                (k + 1) as u32
            } else {
                0
            },
        ),
    decreases k - from,
{
    if from < k {
        assert(!(chain[from].font is NotTried));
        assert(!(chain[from].font matches FontSlot::Loaded(bytes) && covers(bytes@, ch)));
        lemma_scan_to(chain, ch, from + 1, k);
    } else if k < chain.len() {
        assert(!(chain[k].font is NotTried));
    }
}

/// A face of the chain is read only when it is needed: no face before it has the
/// character, and all of those have been tried; and the chain is looked for only
/// where the primary face lacks the character.
pub proof fn faces_are_read_when_they_are_needed(
    st: FallbackState,
    primary: Seq<u8>,
    ch: char,
    from: int,
)
    requires
        st.chain@.len() < u32::MAX,
        0 <= from,
    ensures
        scan(st.chain@, ch, from) matches ResolveStep::NeedFont(i) ==> {
            &&& from <= i < st.chain@.len()
            &&& st.chain@[i as int].font is NotTried
            &&& forall|j: int|
                from <= j < i ==> !((#[trigger] st.chain@[j]).font is NotTried) && !(
                st.chain@[j].font matches FontSlot::Loaded(bytes) && covers(bytes@, ch))
        },
        choice(st, primary, ch) == ResolveStep::NeedChain ==> !st.chain_built && !(is_font_file(
            primary,
        ) && glyph_number(primary, ch) != 0),
    decreases st.chain@.len() - from,
{
    lemma_scan_ends(st.chain@, ch, 0);
    if from < st.chain@.len() {
        faces_are_read_when_they_are_needed(st, primary, ch, from + 1);
    }
}

proof fn lemma_scan_ends(chain: Seq<FallbackFace>, ch: char, from: int)
    ensures
        scan(chain, ch, from) != ResolveStep::NeedChain,
    decreases chain.len() - from,
{
    if 0 <= from < chain.len() {
        lemma_scan_ends(chain, ch, from + 1);
    }
}

/// A full table lets go of what was used least recently, and of nothing else; what
/// is put in is in it afterwards.
pub proof fn the_least_recently_used_entry_leaves<K: TableKey, V>(
    before: Seq<(K, (V, u64))>,
    after: Seq<(K, (V, u64))>,
    key: K,
    value: (V, u64),
    cap: int,
    k: int,
)
    requires
        lru_inserted(before, after, key, value, cap),
        !table::has_key(before, key),
        0 <= k < before.len(),
    ensures
        after.last() == (key, value),
        before.len() < cap ==> after == before.push((key, value)),
        before.len() >= cap ==> after.len() == before.len() && (after.contains(before[k])
            || forall|j: int|
            0 <= j < before.len() ==> before[k].1.1 <= (#[trigger] before[j]).1.1),
{
    if before.len() >= cap {
        let i = choose|i: int| #[trigger]
            is_oldest(before, i) && after == before.remove(i).push((key, value));
        if k < i {
            assert(after[k] == before[k]);
        } else if k > i {
            assert(after[k - 1] == before[k]);
        }
    }
}

/// Every new choice is counted once: for the primary face, for a face of the
/// chain, or as a miss.
pub proof fn choices_are_counted_once(
    before: FallbackState,
    after: FallbackState,
    primary_covers: bool,
    face: u32,
    ch: char,
    i: int,
)
    requires
        choice_noted(before, after, primary_covers, face, ch),
        before.resolved_chars < u64::MAX,
        before.stats_primary < u64::MAX,
        before.stats_miss < u64::MAX,
        0 <= i < before.stats_face_hits@.len(),
        before.stats_face_hits@[i] < u64::MAX,
    ensures
        after.resolved_chars == before.resolved_chars + 1,
        after.stats_primary - before.stats_primary == (if face == 0 && primary_covers {
            1int
        } else {
            0
        }),
        after.stats_miss - before.stats_miss == (if face == 0 && !primary_covers {
            1int
        } else {
            0
        }),
        i < after.stats_face_hits@.len(),
        after.stats_face_hits@[i] - before.stats_face_hits@[i] == (if face == i + 1 {
            1int
        } else {
            0
        }),
{
}

proof fn lemma_with_files(
    list: Seq<(Seq<char>, Seq<char>)>,
    files: Seq<Seq<char>>,
    origin: Origin,
    primary: Option<Seq<char>>,
)
    ensures
        list.is_prefix_of(with_files(list, files, origin, primary)),
        forall|i: int|
            0 <= i < files.len() && (#[trigger] files[i]).len() > 0 && !same_file(
                primary,
                Some(files[i]),
            ) ==> has_path(with_files(list, files, origin, primary), files[i]),
    decreases files.len(),
{
    if files.len() > 0 {
        let front = files.drop_last();
        lemma_with_files(list, front, origin, primary);
        let was = with_files(list, front, origin, primary);
        let now = with_files(list, files, origin, primary);
        assert(was.is_prefix_of(now));
        assert(list.is_prefix_of(now)) by {
            assert forall|i: int| 0 <= i < list.len() implies list[i] == now[i] by {
                assert(was[i] == now[i]);
            }
            assert(list =~= now.take(list.len() as int));
        }
        assert forall|i: int|
            0 <= i < files.len() && (#[trigger] files[i]).len() > 0 && !same_file(
                primary,
                Some(files[i]),
            ) implies has_path(now, files[i]) by {
            if i < front.len() {
                assert(front[i] == files[i]);
                let j = choose|j: int|
                    0 <= j < was.len() && paths::same_path((#[trigger] was[j]).0, files[i]);
                assert(now[j] == was[j]);
            } else if !has_path(was, files[i]) {
                assert(now[was.len() as int].0 == files[i]);
            }
        }
    }
}

/// The chain is in the order of its origins: first the files that the setting
/// names, then those of the game, then those of the system, and last those of the
/// program itself. What is added later changes nothing in front of it. Switched
/// off, the chain is empty.
pub proof fn the_chain_is_in_the_order_of_its_origins(
    setting: Option<Seq<char>>,
    game: Seq<Seq<char>>,
    platform: Seq<Seq<char>>,
    runtime: Seq<Seq<char>>,
    existing: Seq<Seq<char>>,
    primary: Option<Seq<char>>,
)
    ensures
        ({
            let none = Seq::<Seq<char>>::empty();
            let first = chain_files(setting, none, none, none, existing, primary);
            let second = chain_files(setting, game, none, none, existing, primary);
            let third = chain_files(setting, game, platform, none, existing, primary);
            let all = chain_files(setting, game, platform, runtime, existing, primary);
            &&& first.is_prefix_of(second)
            &&& second.is_prefix_of(third)
            &&& third.is_prefix_of(all)
            &&& (setting matches Some(raw) && text::lower(text_parts::trimmed(raw)) == text::lower(
                "off"@,
            )) ==> all.len() == 0
            &&& chain_files(None, none, none, none, existing, primary).len() == 0
        }),
{
    let none = Seq::<Seq<char>>::empty();
    let a = with_files(
        Seq::empty(),
        only_existing(named_files(setting), existing),
        Origin::Setting,
        primary,
    );
    let b = with_files(a, in_order(only_faces(game)), Origin::Game, primary);
    let c = with_files(b, only_existing(platform, existing), Origin::Platform, primary);
    lemma_with_files(a, in_order(only_faces(game)), Origin::Game, primary);
    lemma_with_files(b, only_existing(platform, existing), Origin::Platform, primary);
    lemma_with_files(c, only_existing(runtime, existing), Origin::Platform, primary);
    assert(only_faces(none) == none && only_existing(none, existing) == none);
    assert(in_order(none) == none);
    assert forall|list: Seq<(Seq<char>, Seq<char>)>, origin: Origin|
        #[trigger] with_files(list, none, origin, primary) == list by {}
}

/// A file that the setting names and that is there stands in the chain, unless it
/// is the primary face's.
pub proof fn files_of_the_setting_stand_in_the_chain(
    setting: Option<Seq<char>>,
    game: Seq<Seq<char>>,
    platform: Seq<Seq<char>>,
    runtime: Seq<Seq<char>>,
    existing: Seq<Seq<char>>,
    primary: Option<Seq<char>>,
    i: int,
)
    requires
        !(setting matches Some(raw) && is_off(raw)),
        0 <= i < named_files(setting).len(),
        existing.contains(named_files(setting)[i]),
        named_files(setting)[i].len() > 0,
        !same_file(primary, Some(named_files(setting)[i])),
    ensures
        has_path(
            chain_files(setting, game, platform, runtime, existing, primary),
            named_files(setting)[i],
        ),
{
    let none = Seq::<Seq<char>>::empty();
    let f = named_files(setting)[i];
    let kept = only_existing(named_files(setting), existing);
    lemma_only_existing(named_files(setting), existing, i);
    let k = choose|k: int| 0 <= k < kept.len() && kept[k] == f;
    let first = with_files(Seq::empty(), kept, Origin::Setting, primary);
    lemma_with_files(Seq::empty(), kept, Origin::Setting, primary);
    assert(kept[k].len() > 0);
    assert(has_path(first, f));
    the_chain_is_in_the_order_of_its_origins(setting, game, platform, runtime, existing, primary);
    let j = choose|j: int| 0 <= j < first.len() && paths::same_path((#[trigger] first[j]).0, f);
    let all = chain_files(setting, game, platform, runtime, existing, primary);
    let second = with_files(first, in_order(only_faces(game)), Origin::Game, primary);
    let third = with_files(second, only_existing(platform, existing), Origin::Platform, primary);
    lemma_with_files(first, in_order(only_faces(game)), Origin::Game, primary);
    lemma_with_files(second, only_existing(platform, existing), Origin::Platform, primary);
    lemma_with_files(third, only_existing(runtime, existing), Origin::Platform, primary);
    assert(second[j] == first[j]);
    assert(third[j] == first[j]);
    assert(all[j] == first[j]);
}

proof fn lemma_only_existing(files: Seq<Seq<char>>, existing: Seq<Seq<char>>, i: int)
    requires
        0 <= i < files.len(),
        existing.contains(files[i]),
    ensures
        only_existing(files, existing).contains(files[i]),
    decreases files.len(),
{
    let front = only_existing(files.drop_last(), existing);
    let now = only_existing(files, existing);
    if i < files.len() - 1 {
        lemma_only_existing(files.drop_last(), existing, i);
        let k = choose|k: int| 0 <= k < front.len() && front[k] == files[i];
        assert(now[k] == files[i]);
    } else {
        assert(now[front.len() as int] == files[i]);
    }
}

/// A setting names its files with `:` or `;` between them, each without the white
/// space around it; an empty one is left out.
pub proof fn settings_name_their_files(name: Seq<char>, separator: char, rest: Seq<char>)
    requires
        separator == ':' || separator == ';',
        !name.contains(':'),
        !name.contains(';'),
    ensures
        setting_parts(name) == (if text_parts::trimmed(name).len() == 0 {
            Seq::empty()
        } else {
            seq![text_parts::trimmed(name)]
        }),
        setting_parts(name.push(separator) + rest) == setting_parts(name) + setting_parts(rest),
{
    let s = name.push(separator) + rest;
    lemma_part_len(name, seq![separator] + rest);
    lemma_part_len(name, Seq::empty());
    assert(name + (seq![separator] + rest) =~= s);
    assert(name + Seq::<char>::empty() =~= name);
    assert(s.take(name.len() as int) =~= name);
    assert(name.take(name.len() as int) =~= name);
    assert(s.skip(name.len() as int + 1) =~= rest);
}

proof fn lemma_part_len(name: Seq<char>, rest: Seq<char>)
    requires
        !name.contains(':'),
        !name.contains(';'),
        rest.len() > 0 ==> rest[0] == ':' || rest[0] == ';',
    ensures
        part_len(name + rest) == name.len(),
    decreases name.len(),
{
    let s = name + rest;
    if name.len() > 0 {
        let tail = name.drop_first();
        assert(name.contains(name[0]));
        assert(!tail.contains(':') && !tail.contains(';')) by {
            if tail.contains(':') {
                let i = choose|i: int| 0 <= i < tail.len() && tail[i] == ':';
                assert(name[i + 1] == ':');
            }
            if tail.contains(';') {
                let i = choose|i: int| 0 <= i < tail.len() && tail[i] == ';';
                assert(name[i + 1] == ';');
            }
        }
        lemma_part_len(tail, rest);
        assert(s.drop_first() =~= tail + rest);
    } else {
        assert(s =~= rest);
    }
}

} // verus!
