//! The flags of the environment that switch traces on.
//!
//! The flags do not change while the program runs, so they are read once and
//! kept in a table with one slot per key.

use vstd::prelude::*;
use crate::text::same_text;

verus! {

/// How many flags the table holds.
pub const SLOT_COUNT: usize = 28;

/// The key of a slot.
pub open spec fn key_at(slot: int) -> Seq<char> {
    if slot == 0 {
        "SG_DEBUG"@
    } else if slot == 1 {
        "SG_PROC_FLOW_TRACE"@
    } else if slot == 2 {
        "SG_CTX_TICK_TRACE"@
    } else if slot == 3 {
        "SG_MSGBK_TRACE"@
    } else if slot == 4 {
        "SG_MOVIE_TRACE"@
    } else if slot == 5 {
        "SG_SAVELOAD_TRACE"@
    } else if slot == 6 {
        "SG_OBJECT_MOTION_TRACE"@
    } else if slot == 7 {
        "SG_INPUT_TRACE"@
    } else if slot == 8 {
        "SG_MWND_OBJECT_TRACE"@
    } else if slot == 9 {
        "SG_RENDER_TREE_DEBUG"@
    } else if slot == 10 {
        "SG_CONFIG_BUTTON_TRACE"@
    } else if slot == 11 {
        "SG_AUDIO_TRACE"@
    } else if slot == 12 {
        "SG_TICK_TRACE"@
    } else if slot == 13 {
        "SG_FRAME_ACTION_TRACE"@
    } else if slot == 14 {
        "SG_SYSCOM_PROC_TRACE"@
    } else if slot == 15 {
        "SG_COUNTER_TRACE"@
    } else if slot == 16 {
        "SG_TITLE_CHAIN_TRACE"@
    } else if slot == 17 {
        "SG_TRACE_OBJECT_SLOT"@
    } else if slot == 18 {
        "SIGLUS_TRACE_VM"@
    } else if slot == 19 {
        "SIGLUS_TRACE_VM_SCENE"@
    } else if slot == 20 {
        "SIGLUS_TRACE_VM_PC"@
    } else if slot == 21 {
        "SIGLUS_TRACE_VM_COMMANDS"@
    } else if slot == 22 {
        "SIGLUS_TRACE_CALL_RETURN_PC"@
    } else if slot == 23 {
        "SIGLUS_TRACE_FRAME_ACTION_CALL"@
    } else if slot == 24 {
        "SIGLUS_TRACE_CODES"@
    } else if slot == 25 {
        "SIGLUS_TRACE_UNKNOWN_FORMS"@
    } else if slot == 26 {
        "SIGLUS_INLINE_USER_CMD_MAX_STEPS"@
    } else if slot == 27 {
        "SIGLUS_FRAME_ACTION_MAX_STEPS"@
    } else {
        Seq::empty()
    }
}

/// The key of a slot.
pub fn slot_key(slot: usize) -> (r: Option<&'static str>)
    ensures
        match r {
            Some(key) => slot < SLOT_COUNT && key@ == key_at(slot as int),
            None => slot >= SLOT_COUNT,
        },
{
    if slot == 0 {
        Some("SG_DEBUG")
    } else if slot == 1 {
        Some("SG_PROC_FLOW_TRACE")
    } else if slot == 2 {
        Some("SG_CTX_TICK_TRACE")
    } else if slot == 3 {
        Some("SG_MSGBK_TRACE")
    } else if slot == 4 {
        Some("SG_MOVIE_TRACE")
    } else if slot == 5 {
        Some("SG_SAVELOAD_TRACE")
    } else if slot == 6 {
        Some("SG_OBJECT_MOTION_TRACE")
    } else if slot == 7 {
        Some("SG_INPUT_TRACE")
    } else if slot == 8 {
        Some("SG_MWND_OBJECT_TRACE")
    } else if slot == 9 {
        Some("SG_RENDER_TREE_DEBUG")
    } else if slot == 10 {
        Some("SG_CONFIG_BUTTON_TRACE")
    } else if slot == 11 {
        Some("SG_AUDIO_TRACE")
    } else if slot == 12 {
        Some("SG_TICK_TRACE")
    } else if slot == 13 {
        Some("SG_FRAME_ACTION_TRACE")
    } else if slot == 14 {
        Some("SG_SYSCOM_PROC_TRACE")
    } else if slot == 15 {
        Some("SG_COUNTER_TRACE")
    } else if slot == 16 {
        Some("SG_TITLE_CHAIN_TRACE")
    } else if slot == 17 {
        Some("SG_TRACE_OBJECT_SLOT")
    } else if slot == 18 {
        Some("SIGLUS_TRACE_VM")
    } else if slot == 19 {
        Some("SIGLUS_TRACE_VM_SCENE")
    } else if slot == 20 {
        Some("SIGLUS_TRACE_VM_PC")
    } else if slot == 21 {
        Some("SIGLUS_TRACE_VM_COMMANDS")
    } else if slot == 22 {
        Some("SIGLUS_TRACE_CALL_RETURN_PC")
    } else if slot == 23 {
        Some("SIGLUS_TRACE_FRAME_ACTION_CALL")
    } else if slot == 24 {
        Some("SIGLUS_TRACE_CODES")
    } else if slot == 25 {
        Some("SIGLUS_TRACE_UNKNOWN_FORMS")
    } else if slot == 26 {
        Some("SIGLUS_INLINE_USER_CMD_MAX_STEPS")
    } else if slot == 27 {
        Some("SIGLUS_FRAME_ACTION_MAX_STEPS")
    } else {
        None
    }
}

/// The slot of a key.
pub fn slot_index(key: &str) -> (r: Option<usize>)
    ensures
        match r {
            Some(slot) => slot < SLOT_COUNT && key@ == key_at(slot as int),
            None => forall|slot: int| 0 <= slot < SLOT_COUNT ==> key@ != #[trigger] key_at(slot),
        },
{
    let mut slot: usize = 0;
    while slot < SLOT_COUNT
        invariant
            slot <= SLOT_COUNT,
            forall|k: int| 0 <= k < slot ==> key@ != #[trigger] key_at(k),
        decreases SLOT_COUNT - slot,
    {
        if let Some(here) = slot_key(slot) {
            if same_text(key, here) {
                return Some(slot);
            }
        }
        slot = slot + 1;
    }
    None
}

proof fn lemma_lengths(slot: int)
    requires
        0 <= slot < SLOT_COUNT,
    ensures
        slot == 0 ==> key_at(slot).len() == 8,
        slot == 1 ==> key_at(slot).len() == 18,
        slot == 2 ==> key_at(slot).len() == 17,
        slot == 3 ==> key_at(slot).len() == 14,
        slot == 4 ==> key_at(slot).len() == 14,
        slot == 5 ==> key_at(slot).len() == 17,
        slot == 6 ==> key_at(slot).len() == 22,
        slot == 7 ==> key_at(slot).len() == 14,
        slot == 8 ==> key_at(slot).len() == 20,
        slot == 9 ==> key_at(slot).len() == 20,
        slot == 10 ==> key_at(slot).len() == 22,
        slot == 11 ==> key_at(slot).len() == 14,
        slot == 12 ==> key_at(slot).len() == 13,
        slot == 13 ==> key_at(slot).len() == 21,
        slot == 14 ==> key_at(slot).len() == 20,
        slot == 15 ==> key_at(slot).len() == 16,
        slot == 16 ==> key_at(slot).len() == 20,
        slot == 17 ==> key_at(slot).len() == 20,
        slot == 18 ==> key_at(slot).len() == 15,
        slot == 19 ==> key_at(slot).len() == 21,
        slot == 20 ==> key_at(slot).len() == 18,
        slot == 21 ==> key_at(slot).len() == 24,
        slot == 22 ==> key_at(slot).len() == 27,
        slot == 23 ==> key_at(slot).len() == 30,
        slot == 24 ==> key_at(slot).len() == 18,
        slot == 25 ==> key_at(slot).len() == 26,
        slot == 26 ==> key_at(slot).len() == 32,
        slot == 27 ==> key_at(slot).len() == 29,
{
    reveal_strlit("SG_DEBUG");
    reveal_strlit("SG_PROC_FLOW_TRACE");
    reveal_strlit("SG_CTX_TICK_TRACE");
    reveal_strlit("SG_MSGBK_TRACE");
    reveal_strlit("SG_MOVIE_TRACE");
    reveal_strlit("SG_SAVELOAD_TRACE");
    reveal_strlit("SG_OBJECT_MOTION_TRACE");
    reveal_strlit("SG_INPUT_TRACE");
    reveal_strlit("SG_MWND_OBJECT_TRACE");
    reveal_strlit("SG_RENDER_TREE_DEBUG");
    reveal_strlit("SG_CONFIG_BUTTON_TRACE");
    reveal_strlit("SG_AUDIO_TRACE");
    reveal_strlit("SG_TICK_TRACE");
    reveal_strlit("SG_FRAME_ACTION_TRACE");
    reveal_strlit("SG_SYSCOM_PROC_TRACE");
    reveal_strlit("SG_COUNTER_TRACE");
    reveal_strlit("SG_TITLE_CHAIN_TRACE");
    reveal_strlit("SG_TRACE_OBJECT_SLOT");
    reveal_strlit("SIGLUS_TRACE_VM");
    reveal_strlit("SIGLUS_TRACE_VM_SCENE");
    reveal_strlit("SIGLUS_TRACE_VM_PC");
    reveal_strlit("SIGLUS_TRACE_VM_COMMANDS");
    reveal_strlit("SIGLUS_TRACE_CALL_RETURN_PC");
    reveal_strlit("SIGLUS_TRACE_FRAME_ACTION_CALL");
    reveal_strlit("SIGLUS_TRACE_CODES");
    reveal_strlit("SIGLUS_TRACE_UNKNOWN_FORMS");
    reveal_strlit("SIGLUS_INLINE_USER_CMD_MAX_STEPS");
    reveal_strlit("SIGLUS_FRAME_ACTION_MAX_STEPS");
}

/// No two slots have the same key, so a key's slot and a slot's key give each
/// other back.
pub proof fn keys_are_distinct(a: int, b: int)
    requires
        0 <= a < SLOT_COUNT,
        0 <= b < SLOT_COUNT,
        key_at(a) == key_at(b),
    ensures
        a == b,
{
    lemma_lengths(a);
    lemma_lengths(b);
    reveal_strlit("SG_DEBUG");
    reveal_strlit("SG_PROC_FLOW_TRACE");
    reveal_strlit("SG_CTX_TICK_TRACE");
    reveal_strlit("SG_MSGBK_TRACE");
    reveal_strlit("SG_MOVIE_TRACE");
    reveal_strlit("SG_SAVELOAD_TRACE");
    reveal_strlit("SG_OBJECT_MOTION_TRACE");
    reveal_strlit("SG_INPUT_TRACE");
    reveal_strlit("SG_MWND_OBJECT_TRACE");
    reveal_strlit("SG_RENDER_TREE_DEBUG");
    reveal_strlit("SG_CONFIG_BUTTON_TRACE");
    reveal_strlit("SG_AUDIO_TRACE");
    reveal_strlit("SG_TICK_TRACE");
    reveal_strlit("SG_FRAME_ACTION_TRACE");
    reveal_strlit("SG_SYSCOM_PROC_TRACE");
    reveal_strlit("SG_COUNTER_TRACE");
    reveal_strlit("SG_TITLE_CHAIN_TRACE");
    reveal_strlit("SG_TRACE_OBJECT_SLOT");
    reveal_strlit("SIGLUS_TRACE_VM");
    reveal_strlit("SIGLUS_TRACE_VM_SCENE");
    reveal_strlit("SIGLUS_TRACE_VM_PC");
    reveal_strlit("SIGLUS_TRACE_VM_COMMANDS");
    reveal_strlit("SIGLUS_TRACE_CALL_RETURN_PC");
    reveal_strlit("SIGLUS_TRACE_FRAME_ACTION_CALL");
    reveal_strlit("SIGLUS_TRACE_CODES");
    reveal_strlit("SIGLUS_TRACE_UNKNOWN_FORMS");
    reveal_strlit("SIGLUS_INLINE_USER_CMD_MAX_STEPS");
    reveal_strlit("SIGLUS_FRAME_ACTION_MAX_STEPS");
    assert("SG_PROC_FLOW_TRACE"@[1] != "SIGLUS_TRACE_VM_PC"@[1]);
    assert("SG_PROC_FLOW_TRACE"@[1] != "SIGLUS_TRACE_CODES"@[1]);
    assert("SG_CTX_TICK_TRACE"@[3] != "SG_SAVELOAD_TRACE"@[3]);
    assert("SG_MSGBK_TRACE"@[4] != "SG_MOVIE_TRACE"@[4]);
    assert("SG_MSGBK_TRACE"@[3] != "SG_INPUT_TRACE"@[3]);
    assert("SG_MSGBK_TRACE"@[3] != "SG_AUDIO_TRACE"@[3]);
    assert("SG_MOVIE_TRACE"@[3] != "SG_INPUT_TRACE"@[3]);
    assert("SG_MOVIE_TRACE"@[3] != "SG_AUDIO_TRACE"@[3]);
    assert("SG_OBJECT_MOTION_TRACE"@[3] != "SG_CONFIG_BUTTON_TRACE"@[3]);
    assert("SG_INPUT_TRACE"@[3] != "SG_AUDIO_TRACE"@[3]);
    assert("SG_MWND_OBJECT_TRACE"@[3] != "SG_RENDER_TREE_DEBUG"@[3]);
    assert("SG_MWND_OBJECT_TRACE"@[3] != "SG_SYSCOM_PROC_TRACE"@[3]);
    assert("SG_MWND_OBJECT_TRACE"@[3] != "SG_TITLE_CHAIN_TRACE"@[3]);
    assert("SG_MWND_OBJECT_TRACE"@[3] != "SG_TRACE_OBJECT_SLOT"@[3]);
    assert("SG_RENDER_TREE_DEBUG"@[3] != "SG_SYSCOM_PROC_TRACE"@[3]);
    assert("SG_RENDER_TREE_DEBUG"@[3] != "SG_TITLE_CHAIN_TRACE"@[3]);
    assert("SG_RENDER_TREE_DEBUG"@[3] != "SG_TRACE_OBJECT_SLOT"@[3]);
    assert("SG_FRAME_ACTION_TRACE"@[1] != "SIGLUS_TRACE_VM_SCENE"@[1]);
    assert("SG_SYSCOM_PROC_TRACE"@[3] != "SG_TITLE_CHAIN_TRACE"@[3]);
    assert("SG_SYSCOM_PROC_TRACE"@[3] != "SG_TRACE_OBJECT_SLOT"@[3]);
    assert("SG_TITLE_CHAIN_TRACE"@[4] != "SG_TRACE_OBJECT_SLOT"@[4]);
    assert("SIGLUS_TRACE_VM_PC"@[13] != "SIGLUS_TRACE_CODES"@[13]);
}

/// The spellings that switch a flag on.
pub open spec fn truthy(raw: Seq<char>) -> bool {
    raw == "1"@ || raw == "true"@ || raw == "TRUE"@ || raw == "yes"@ || raw == "YES"@
}

pub open spec fn truthy_value(raw: Option<Seq<char>>) -> bool {
    match raw {
        Some(s) => truthy(s),
        None => false,
    }
}

/// What the environment holds under a key.
#[derive(Debug)]
pub enum Variable {
    Absent,
    /// A value that is not UTF-8.
    Bytes,
    Text(String),
}

impl Variable {
    /// The text of the variable, where it has one.
    pub open spec fn text(&self) -> Option<Seq<char>> {
        match self {
            Variable::Text(s) => Some(s@),
            _ => None,
        }
    }
}

/// One flag.
#[derive(Debug)]
pub struct FlagValue {
    /// Whether the key has a value, whatever it is.
    pub present: bool,
    pub truthy: bool,
    pub raw: Option<String>,
}

pub open spec fn text_of(raw: Option<String>) -> Option<Seq<char>> {
    match raw {
        Some(s) => Some(s@),
        None => None,
    }
}

pub open spec fn str_text(raw: Option<&str>) -> Option<Seq<char>> {
    match raw {
        Some(s) => Some(s@),
        None => None,
    }
}

fn is_truthy_text(raw: &str) -> (r: bool)
    ensures
        r == truthy(raw@),
{
    same_text(raw, "1") || same_text(raw, "true") || same_text(raw, "TRUE") || same_text(raw, "yes")
        || same_text(raw, "YES")
}

impl FlagValue {
    pub open spec fn wf(&self) -> bool {
        &&& self.raw is Some ==> self.present
        &&& self.truthy == truthy_value(text_of(self.raw))
    }

    /// Whether the flag is what the environment holds.
    pub open spec fn holds(&self, var: Variable) -> bool {
        &&& self.present == !(var is Absent)
        &&& text_of(self.raw) == var.text()
    }

    /// The flag for what the environment holds under its key.
    pub fn from_env(var: Variable) -> (f: FlagValue)
        ensures
            f.wf(),
            f.holds(var),
    {
        match var {
            Variable::Absent => FlagValue { present: false, truthy: false, raw: None },
            Variable::Bytes => FlagValue { present: true, truthy: false, raw: None },
            Variable::Text(s) => {
                let on: bool = is_truthy_text(s.as_str());
                FlagValue { present: true, truthy: on, raw: Some(s) }
            },
        }
    }
}

/// The flags by their slots.
#[derive(Debug)]
pub struct FlagTable {
    pub slots: Vec<FlagValue>,
}

/// Whether the table has a slot for the key.
pub open spec fn tabled(key: Seq<char>) -> bool {
    exists|slot: int| 0 <= slot < SLOT_COUNT && key == #[trigger] key_at(slot)
}

impl FlagTable {
    pub open spec fn wf(&self) -> bool {
        &&& self.slots@.len() == SLOT_COUNT
        &&& forall|i: int| 0 <= i < SLOT_COUNT ==> (#[trigger] self.slots@[i]).wf()
    }

    /// The flag under a key of the table.
    pub open spec fn flag(&self, key: Seq<char>) -> FlagValue {
        self.slots@[choose|slot: int| 0 <= slot < SLOT_COUNT && key == #[trigger] key_at(slot)]
    }

    /// An empty table, to be filled by `push` in the order of the slots.
    pub fn new() -> (t: FlagTable)
        ensures
            t.slots@.len() == 0,
    {
        FlagTable { slots: Vec::new() }
    }

    /// Fills the next slot with what the environment holds under its key.
    pub fn push(&mut self, var: Variable)
        requires
            old(self).slots@.len() < SLOT_COUNT,
        ensures
            final(self).slots@.len() == old(self).slots@.len() + 1,
            final(self).slots@.drop_last() == old(self).slots@,
            final(self).slots@.last().wf(),
            final(self).slots@.last().holds(var),
    {
        self.slots.push(FlagValue::from_env(var));
        proof {
            assert(self.slots@.drop_last() =~= old(self).slots@);
        }
    }

    fn find(&self, key: &str) -> (r: Option<&FlagValue>)
        requires
            self.wf(),
        ensures
            match r {
                Some(f) => tabled(key@) && *f == self.flag(key@) && f.wf(),
                None => !tabled(key@),
            },
    {
        match slot_index(key) {
            Some(slot) => {
                proof {
                    let chosen = choose|s: int|
                        0 <= s < SLOT_COUNT && key@ == #[trigger] key_at(s);
                    keys_are_distinct(slot as int, chosen);
                }
                Some(&self.slots[slot])
            },
            None => None,
        }
    }
}

/// Whether a flag is set, to whatever value. A flag that the table does not hold is set where
/// `outside` says so.
pub fn is_set(flags: &FlagTable, key: &str, outside: bool) -> (r: bool)
    requires
        flags.wf(),
    ensures
        r == (if tabled(key@) {
            flags.flag(key@).present
        } else {
            outside
        }),
{
    match flags.find(key) {
        Some(f) => f.present,
        None => outside,
    }
}

/// Whether a flag is switched on. A flag that the table does not hold has the
/// text `outside`.
pub fn is_truthy(flags: &FlagTable, key: &str, outside: Option<&str>) -> (r: bool)
    requires
        flags.wf(),
    ensures
        r == (if tabled(key@) {
            truthy_value(text_of(flags.flag(key@).raw))
        } else {
            match outside {
                Some(raw) => truthy(raw@),
                None => false,
            }
        }),
{
    match flags.find(key) {
        Some(f) => f.truthy,
        None => match outside {
            Some(raw) => is_truthy_text(raw),
            None => false,
        },
    }
}

/// The text of a flag. A flag that the table does not hold has the text
/// `outside`.
pub fn value<'a>(flags: &'a FlagTable, key: &str, outside: Option<&'a str>) -> (r: Option<&'a str>)
    requires
        flags.wf(),
    ensures
        str_text(r) == (if tabled(key@) {
            text_of(flags.flag(key@).raw)
        } else {
            str_text(outside)
        }),
{
    match flags.find(key) {
        Some(f) => match &f.raw {
            Some(raw) => Some(raw.as_str()),
            None => None,
        },
        None => outside,
    }
}

/// What the three questions answer about a key is what the environment holds
/// under it, whether or not the table has a slot for the key.
pub proof fn answers_are_the_environment(
    flags: FlagTable,
    env: spec_fn(Seq<char>) -> Variable,
    key: Seq<char>,
)
    requires
        flags.wf(),
        forall|slot: int|
            0 <= slot < SLOT_COUNT ==> (#[trigger] flags.slots@[slot]).holds(env(key_at(slot))),
    ensures
        tabled(key) ==> flags.flag(key).present == !(env(key) is Absent),
        tabled(key) ==> text_of(flags.flag(key).raw) == env(key).text(),
        tabled(key) ==> flags.flag(key).truthy == truthy_value(env(key).text()),
{
    if tabled(key) {
        let slot = choose|slot: int| 0 <= slot < SLOT_COUNT && key == #[trigger] key_at(slot);
        assert(flags.slots@[slot].holds(env(key_at(slot))));
    }
}

} // verus!
