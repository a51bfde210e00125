//! Files and directories that a language package puts beside those of the
//! game.
//!
//! A package keeps the stem of a file and replaces its extension
//! (`Gameexe.dat` becomes `Gameexe.chs`), and it has a save directory of its
//! own. Which package is in use is chosen by a setting. Without the setting
//! every package is a candidate, and a mapping takes effect only where the
//! variant file exists.

use vstd::prelude::*;
use crate::paths;
use crate::paths::{file_name_chars, join_path, rename_chars, split_stem_ext};
use crate::text;
use crate::text::{chars_of, same_text, text_of};
use crate::text_parts;
use crate::text_parts::{same_chars_ignoring_case, trim};
use crate::runtime::string_semantics::ascii_lower;

verus! {

/// What one language package replaces.
#[derive(Debug)]
pub struct LangVariantSet {
    pub tag: String,
    /// Extensions and what they become.
    pub ext_map: Vec<(String, String)>,
    /// Directories and what they become.
    pub dir_map: Vec<(String, String)>,
    /// Files that show that a package is there.
    pub sentinels: Vec<String>,
}

pub open spec fn pairs(map: Seq<(String, String)>) -> Seq<(Seq<char>, Seq<char>)> {
    map.map_values(|p: (String, String)| (p.0@, p.1@))
}

/// The replacement for `from`, whatever the case of its letters: that of the
/// first row that matches.
pub open spec fn replacement(map: Seq<(Seq<char>, Seq<char>)>, from: Seq<char>) -> Option<Seq<char>>
    decreases map.len(),
{
    if map.len() == 0 {
        None
    } else if text::lower(map[0].0) == text::lower(from) {
        Some(map[0].1)
    } else {
        replacement(map.drop_first(), from)
    }
}

/// The extensions of the package for simplified Chinese.
pub open spec fn chinese_extensions() -> Seq<(Seq<char>, Seq<char>)> {
    seq![("dat"@, "chs"@), ("pck"@, "chs"@), ("g00"@, "g01"@), ("dbs"@, "dbc"@)]
}

/// The directories of the package for simplified Chinese.
pub open spec fn chinese_directories() -> Seq<(Seq<char>, Seq<char>)> {
    seq![("savedata"@, "save_chs"@)]
}

/// The package for simplified Chinese.
pub fn zh_hans() -> (set: LangVariantSet)
    ensures
        set.tag@ == "zh"@,
        pairs(set.ext_map@) == chinese_extensions(),
        pairs(set.dir_map@) == chinese_directories(),
        set.sentinels@.map_values(|s: String| s@) == seq!["Gameexe.chs"@, "Scene.chs"@],
{
    let mut ext_map: Vec<(String, String)> = Vec::new();
    ext_map.push(("dat".to_owned(), "chs".to_owned()));
    ext_map.push(("pck".to_owned(), "chs".to_owned()));
    ext_map.push(("g00".to_owned(), "g01".to_owned()));
    ext_map.push(("dbs".to_owned(), "dbc".to_owned()));
    let mut dir_map: Vec<(String, String)> = Vec::new();
    dir_map.push(("savedata".to_owned(), "save_chs".to_owned()));
    let mut sentinels: Vec<String> = Vec::new();
    sentinels.push("Gameexe.chs".to_owned());
    sentinels.push("Scene.chs".to_owned());
    proof {
        assert(pairs(ext_map@) =~= chinese_extensions());
        assert(pairs(dir_map@) =~= chinese_directories());
        assert(sentinels@.map_values(|s: String| s@) =~= seq!["Gameexe.chs"@, "Scene.chs"@]);
    }
    LangVariantSet { tag: "zh".to_owned(), ext_map, dir_map, sentinels }
}

/// Which files are used.
#[derive(Debug, Clone, Copy, PartialEq, Eq, Structural)]
pub enum Selection {
    /// Those of a package where they exist.
    Auto,
    /// Those of the Chinese package where they exist.
    Chinese,
    /// Those of the game alone.
    Original,
}

/// The choice that a setting makes. An unknown one chooses nothing.
pub open spec fn chosen(setting: Option<Seq<char>>) -> Selection {
    match setting {
        None => Selection::Auto,
        Some(raw) => {
            let s = text::lower(text_parts::trimmed(raw));
            if s == "zh"@ || s == "chs"@ || s == "zh-hans"@ || s == "zh-cn"@ {
                Selection::Chinese
            } else if s == "ja"@ || s == "jp"@ || s == "jpn"@ || s == "en"@ || s == "off"@ || s
                == "none"@ {
                Selection::Original
            } else {
                Selection::Auto
            }
        },
    }
}

/// The choice that a setting makes.
pub fn selection(setting: Option<&str>) -> (r: Selection)
    ensures
        r == chosen(
            match setting {
                Some(raw) => Some(raw@),
                None => None,
            },
        ),
{
    match setting {
        None => Selection::Auto,
        Some(raw) => {
            let trimmed = trim(raw);
            let key = ascii_lower(trimmed.as_str());
            let s = key.as_str();
            if same_text(s, "zh") || same_text(s, "chs") || same_text(s, "zh-hans") || same_text(
                s,
                "zh-cn",
            ) {
                Selection::Chinese
            } else if same_text(s, "ja") || same_text(s, "jp") || same_text(s, "jpn") || same_text(
                s,
                "en",
            ) || same_text(s, "off") || same_text(s, "none") {
                Selection::Original
            } else {
                Selection::Auto
            }
        },
    }
}

fn find_replacement(map: &Vec<(String, String)>, from: &[char]) -> (r: Option<Vec<char>>)
    ensures
        match r {
            Some(to) => replacement(pairs(map@), from@) == Some(to@),
            None => replacement(pairs(map@), from@) is None,
        },
{
    let mut i: usize = 0;
    let ghost all = pairs(map@);
    proof {
        assert(all.skip(0) =~= all);
    }
    while i < map.len()
        invariant
            all == pairs(map@),
            i <= map@.len(),
            replacement(all, from@) == replacement(all.skip(i as int), from@),
        decreases map@.len() - i,
    {
        let key = chars_of(map[i].0.as_str());
        if same_chars_ignoring_case(key.as_slice(), from) {
            return Some(chars_of(map[i].1.as_str()));
        }
        proof {
            assert(all.skip(i as int).drop_first() =~= all.skip(i + 1));
        }
        i = i + 1;
    }
    None
}

/// The variant of a file: the same place and stem, with the replaced
/// extension.
pub open spec fn variant_of(
    extensions: Seq<(Seq<char>, Seq<char>)>,
    path: Seq<char>,
) -> Option<Seq<char>> {
    match paths::file_name_of(path) {
        None => None,
        Some(name) => match paths::stem_and_extension(name) {
            None => None,
            Some((stem, ext)) => match replacement(extensions, ext) {
                None => None,
                Some(to) => Some(paths::renamed(path, stem.push('.') + to)),
            },
        },
    }
}

/// The variant of a file that the choice allows. Whether it exists is for the
/// caller to find out.
pub fn map_file_candidate(path: &str, choice: Selection) -> (r: Option<String>)
    ensures
        match r {
            Some(variant) => choice != Selection::Original && variant_of(
                chinese_extensions(),
                path@,
            ) == Some(variant@),
            None => choice == Selection::Original || variant_of(chinese_extensions(), path@) is None,
        },
{
    if let Selection::Original = choice {
        return None;
    }
    let set = zh_hans();
    let chars = chars_of(path);
    let name = match file_name_chars(chars.as_slice()) {
        Some(name) => name,
        None => {
            return None;
        },
    };
    let (stem, ext) = match split_stem_ext(name.as_slice()) {
        Some(parts) => parts,
        None => {
            return None;
        },
    };
    let to = match find_replacement(&set.ext_map, ext.as_slice()) {
        Some(to) => to,
        None => {
            return None;
        },
    };
    let ghost stem_was = stem@;
    let ghost to_was = to@;
    let mut renamed = stem;
    renamed.push('.');
    let mut tail = to;
    renamed.append(&mut tail);
    proof {
        assert(renamed@ =~= stem_was.push('.') + to_was);
    }
    Some(text_of(rename_chars(chars.as_slice(), renamed.as_slice()).as_slice()))
}

/// The save directory of a package, below the game's.
pub open spec fn variant_directory(project_dir: Seq<char>, base_dir: Seq<char>) -> Option<Seq<char>> {
    match replacement(chinese_directories(), base_dir) {
        Some(to) => Some(paths::joined(project_dir, to)),
        None => None,
    }
}

/// The save directory of a package that the choice allows. It is used only
/// where it exists, which is for the caller to find out.
pub fn variant_save_dir_candidate(project_dir: &str, base_dir: &str, choice: Selection) -> (r:
    Option<String>)
    ensures
        match r {
            Some(dir) => choice != Selection::Original && variant_directory(project_dir@, base_dir@)
                == Some(dir@),
            None => choice == Selection::Original || variant_directory(
                project_dir@,
                base_dir@,
            ) is None,
        },
{
    if let Selection::Original = choice {
        return None;
    }
    let set = zh_hans();
    let base = chars_of(base_dir);
    match find_replacement(&set.dir_map, base.as_slice()) {
        Some(to) => {
            let name = text_of(to.as_slice());
            Some(join_path(project_dir, name.as_str()))
        },
        None => None,
    }
}

/// The save directory of a package, where the choice allows it and `exists`
/// says that it is there.
pub fn variant_save_dir(
    project_dir: &str,
    base_dir: &str,
    choice: Selection,
    exists: bool,
) -> (r: Option<String>)
    ensures
        r is Some <==> exists && choice != Selection::Original && variant_directory(
            project_dir@,
            base_dir@,
        ) is Some,
        r matches Some(dir) ==> variant_directory(project_dir@, base_dir@) == Some(dir@),
{
    if exists {
        variant_save_dir_candidate(project_dir, base_dir, choice)
    } else {
        None
    }
}

/// How many substitutions are reported one by one.
pub const MAX_PER_FILE_LOGS: usize = 24;

/// What has been reported of substitutions.
#[derive(Debug, Clone, Copy, PartialEq, Eq, Structural)]
pub struct ReportState {
    pub announced: bool,
    pub logged: usize,
    pub suppressed_note: bool,
}

/// What is to be reported of one substitution.
#[derive(Debug, Clone, Copy, PartialEq, Eq, Structural)]
pub struct Report {
    /// The package, once.
    pub announce: bool,
    /// The substitution itself.
    pub file: bool,
    /// That no more will be reported, once.
    pub suppress: bool,
}

impl ReportState {
    pub fn new() -> (s: ReportState)
        ensures
            s == (ReportState { announced: false, logged: 0, suppressed_note: false }),
    {
        ReportState { announced: false, logged: 0, suppressed_note: false }
    }
}

/// Notes that a variant was used and says what to report. With the original
/// files nothing is.
pub fn note_variant_file_used(state: &mut ReportState, choice: Selection) -> (r: Report)
    ensures
        choice == Selection::Original ==> *final(state) == *old(state) && r == (Report {
            announce: false,
            file: false,
            suppress: false,
        }),
        choice != Selection::Original ==> {
            &&& final(state).announced
            &&& r.announce == !old(state).announced
            &&& r.file == (old(state).logged < MAX_PER_FILE_LOGS)
            &&& final(state).logged == old(state).logged + if r.file {
                1int
            } else {
                0int
            }
            &&& r.suppress == (!r.file && !old(state).suppressed_note)
            &&& final(state).suppressed_note == (old(state).suppressed_note || r.suppress)
        },
{
    if let Selection::Original = choice {
        return Report { announce: false, file: false, suppress: false };
    }
    let announce: bool = !state.announced;
    state.announced = true;
    if state.logged < MAX_PER_FILE_LOGS {
        state.logged = state.logged + 1;
        return Report { announce, file: true, suppress: false };
    }
    let suppress: bool = !state.suppressed_note;
    state.suppressed_note = true;
    Report { announce, file: false, suppress }
}

/// A variant is never taken for a file that is to be replaced again.
pub proof fn variants_are_not_mapped_again(ext: Seq<char>, to: Seq<char>)
    requires
        replacement(chinese_extensions(), ext) == Some(to),
    ensures
        replacement(chinese_extensions(), to) is None,
{
    reveal_strlit("dat");
    reveal_strlit("pck");
    reveal_strlit("g00");
    reveal_strlit("dbs");
    reveal_strlit("chs");
    reveal_strlit("g01");
    reveal_strlit("dbc");
    let all = chinese_extensions();
    reveal_with_fuel(replacement, 5);
    assert(all.drop_first() =~= seq![("pck"@, "chs"@), ("g00"@, "g01"@), ("dbs"@, "dbc"@)]);
    assert(all.drop_first().drop_first() =~= seq![("g00"@, "g01"@), ("dbs"@, "dbc"@)]);
    assert(all.drop_first().drop_first().drop_first() =~= seq![("dbs"@, "dbc"@)]);
    assert(to == "chs"@ || to == "g01"@ || to == "dbc"@);
    let t = text::lower(to);
    assert(t[0] == 'c' || t[0] == 'g' || t[0] == 'd');
    assert(text::lower("dat"@)[1] == 'a');
    assert(text::lower("pck"@)[0] == 'p');
    assert(text::lower("g00"@)[2] == '0');
    assert(text::lower("g00"@)[0] == 'g');
    assert(text::lower("dbs"@)[2] == 's');
    assert(text::lower("dbs"@)[0] == 'd');
    if to == "chs"@ {
        assert(t[0] == 'c');
        assert(text::lower("dat"@)[0] == 'd');
    } else if to == "g01"@ {
        assert(t[2] == '1');
        assert(t[0] == 'g');
        assert(text::lower("dat"@)[0] == 'd');
    } else {
        assert(t[0] == 'd');
        assert(t[1] == 'b');
        assert(t[2] == 'c');
    }
}

/// Archives and scenes, pictures and tables each have a file of their own in the other language,
/// which is told by its extension, whatever the size of its letters. Other files have none.
pub proof fn extensions_name_their_variants(ext: Seq<char>)
    ensures
        text::lower(ext) == "dat"@ ==> replacement(chinese_extensions(), ext) == Some("chs"@),
        text::lower(ext) == "pck"@ ==> replacement(chinese_extensions(), ext) == Some("chs"@),
        text::lower(ext) == "g00"@ ==> replacement(chinese_extensions(), ext) == Some("g01"@),
        text::lower(ext) == "dbs"@ ==> replacement(chinese_extensions(), ext) == Some("dbc"@),
        text::lower(ext) != "dat"@ && text::lower(ext) != "pck"@ && text::lower(ext) != "g00"@
            && text::lower(ext) != "dbs"@ ==> replacement(chinese_extensions(), ext) is None,
{
    reveal_strlit("dat");
    reveal_strlit("pck");
    reveal_strlit("g00");
    reveal_strlit("dbs");
    let all = chinese_extensions();
    reveal_with_fuel(replacement, 5);
    assert(all.drop_first() =~= seq![("pck"@, "chs"@), ("g00"@, "g01"@), ("dbs"@, "dbc"@)]);
    assert(all.drop_first().drop_first() =~= seq![("g00"@, "g01"@), ("dbs"@, "dbc"@)]);
    assert(all.drop_first().drop_first().drop_first() =~= seq![("dbs"@, "dbc"@)]);
    assert(text::lower("dat"@) =~= "dat"@);
    assert(text::lower("pck"@) =~= "pck"@);
    assert(text::lower("g00"@) =~= "g00"@);
    assert(text::lower("dbs"@) =~= "dbs"@);
    assert("dat"@[0] == 'd' && "dat"@[1] == 'a');
    assert("pck"@[0] == 'p');
    assert("g00"@[0] == 'g');
    assert("dbs"@[0] == 'd' && "dbs"@[1] == 'b');
}

/// The saves of the other language lie in a directory of their own within the project.
pub proof fn saves_have_their_variant(project_dir: Seq<char>, base_dir: Seq<char>)
    ensures
        text::lower(base_dir) == "savedata"@ ==> variant_directory(project_dir, base_dir) == Some(
            paths::joined(project_dir, "save_chs"@),
        ),
        text::lower(base_dir) != "savedata"@ ==> variant_directory(project_dir, base_dir) is None,
{
    reveal_strlit("savedata");
    reveal_with_fuel(replacement, 2);
    assert(text::lower("savedata"@) =~= "savedata"@);
    assert(chinese_directories().drop_first() =~= Seq::<(Seq<char>, Seq<char>)>::empty());
}

/// The setting names the language by one of its short names, whatever the size of its letters
/// and whatever blanks stand around them.
pub proof fn settings_name_their_language(raw: Seq<char>)
    ensures
        ({
            let s = text::lower(text_parts::trimmed(raw));
            &&& (s == "zh"@ || s == "chs"@ || s == "zh-hans"@ || s == "zh-cn"@) <==> chosen(
                Some(raw),
            ) == Selection::Chinese
            &&& chosen(Some(raw)) == Selection::Original ==> (s == "ja"@ || s == "jp"@ || s
                == "jpn"@ || s == "en"@ || s == "off"@ || s == "none"@)
            &&& chosen(None) == Selection::Auto
        }),
{
}

} // verus!
