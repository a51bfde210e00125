//! Restoring a scene from the oldest save layout: 15-code elements, scalar
//! cameras and short groups.

use vstd::prelude::*;
use crate::number_text;
use crate::number_text::{parse_i64_chars, parse_u64_chars};
use crate::runtime::stream::{Parsed, StreamError, StreamReader};
use crate::text;
use crate::text::{chars_of, same_text, text_of_units_lossy};
use crate::text_parts;
use crate::text_parts::{find_char, trim_chars};
use crate::vm::record;
use crate::vm::record::{read_count, read_int_list, FieldView};
use crate::vm::short_records;
use crate::vm::short_records::{
    read_short_btn_select_head,
    read_short_history_tail,
    read_short_msg_head,
    read_short_msg_tail,
    read_short_object_base,
    read_short_object_names,
    read_short_object_work,
    ShortBtnSelectHead,
    ShortObjectBase,
    ShortObjectNames,
    ShortObjectWork,
    ShortPageHead,
};

verus! {

/// Why a record cannot be restored.
#[derive(Debug, Clone, Copy, PartialEq, Eq, Structural)]
pub enum ShortSaveError {
    Stream(StreamError),
    /// Weather objects of this layout are not supported.
    Weather,
    /// A choice by buttons that was open is not supported.
    ActiveSelection,
}

// Calls.

/// Moves the forms in which calls return from the callee, where this layout
/// has them, to the caller. The innermost call returns nothing.
pub fn normalize_short_call_returns(ret_forms: &mut Vec<i32>, void: i32)
    ensures
        final(ret_forms)@ == (if old(ret_forms)@.len() == 0 {
            old(ret_forms)@
        } else {
            old(ret_forms)@.drop_first().push(void)
        }),
{
    let n: usize = ret_forms.len();
    if n == 0 {
        return;
    }
    let ghost before = ret_forms@;
    let mut i: usize = 1;
    while i < n
        invariant
            1 <= i <= n,
            n == before.len(),
            ret_forms@.len() == n,
            forall|k: int| 0 <= k < i - 1 ==> (#[trigger] ret_forms@[k]) == before[k + 1],
            forall|k: int| i - 1 <= k < n ==> (#[trigger] ret_forms@[k]) == before[k],
        decreases n - i,
    {
        let form: i32 = ret_forms[i];
        ret_forms.set(i - 1, form);
        i = i + 1;
    }
    ret_forms.set(n - 1, void);
    proof {
        assert(ret_forms@ =~= before.drop_first().push(void));
    }
}

// The history of messages.

/// A message in the history.
#[derive(Debug)]
pub struct MsgBackEntry {
    pub pct_flag: bool,
    pub msg_str: String,
    pub original_name: String,
    pub disp_name: String,
    pub pct_pos: (i64, i64),
    pub koe_no_list: Vec<i64>,
    pub chr_no_list: Vec<i64>,
    pub koe_play_no: i64,
    pub debug_msg: String,
    pub scn_no: i64,
    pub line_no: i64,
}

/// The history of messages.
#[derive(Debug)]
pub struct MsgBack {
    /// The messages, and behind them empty entries for those to come.
    pub history: Vec<MsgBackEntry>,
    /// How many messages there are.
    pub history_cnt: usize,
    /// How many messages the history has room for.
    pub history_cnt_max: usize,
    pub history_start_pos: i64,
    pub history_last_pos: i64,
    pub history_insert_pos: i64,
    pub new_msg_flag: bool,
}

/// The parts of a message: its head, its voices, their characters, its tail.
pub struct MsgParts {
    pub head: Seq<FieldView>,
    pub voices: Seq<i64>,
    pub characters: Seq<i64>,
    pub tail: Seq<FieldView>,
}

/// A message at the front of `b`.
pub open spec fn msg_of(b: Seq<u8>) -> Parsed<MsgParts> {
    match record::fields_of(b, short_records::msg_head_kinds()) {
        Err(e) => Err(e),
        Ok((head, b1)) => match record::int_list_of(b1) {
            Err(e) => Err(e),
            Ok((voices, b2)) => match record::int_list_of(b2) {
                Err(e) => Err(e),
                Ok((characters, b3)) => match record::fields_of(
                    b3,
                    short_records::msg_tail_kinds(),
                ) {
                    Err(e) => Err(e),
                    Ok((tail, b4)) => Ok((MsgParts { head, voices, characters, tail }, b4)),
                },
            },
        },
    }
}

/// `n` messages at the front of `b`.
pub open spec fn msgs_of(b: Seq<u8>, n: int) -> Parsed<Seq<MsgParts>>
    decreases n,
{
    if n <= 0 {
        Ok((Seq::empty(), b))
    } else {
        match msgs_of(b, n - 1) {
            Err(e) => Err(e),
            Ok((front, rest)) => match msg_of(rest) {
                Err(e) => Err(e),
                Ok((m, tail)) => Ok((front.push(m), tail)),
            },
        }
    }
}

/// The messages and the places of a history.
pub open spec fn history_of(b: Seq<u8>) -> Parsed<(Seq<MsgParts>, Seq<FieldView>)> {
    match record::count_of(b, 41) {
        Err(e) => Err(e),
        Ok((n, b1)) => match msgs_of(b1, n) {
            Err(e) => Err(e),
            Ok((msgs, b2)) => match record::fields_of(b2, short_records::history_tail_kinds()) {
                Err(e) => Err(e),
                Ok((tail, b3)) => Ok(((msgs, tail), b3)),
            },
        },
    }
}

/// Whether a message has these parts. It is shown under its only name.
pub open spec fn msg_from(m: MsgBackEntry, p: MsgParts) -> bool {
    &&& m.pct_flag == record::flag_at(p.head, 0)
    &&& m.msg_str@ == record::text_at(p.head, 1)
    &&& m.original_name@ == record::text_at(p.head, 2)
    &&& m.disp_name@ == record::text_at(p.head, 2)
    &&& m.pct_pos == (record::int_at(p.head, 3), record::int_at(p.head, 4))
    &&& m.koe_no_list@ == p.voices
    &&& m.chr_no_list@ == p.characters
    &&& m.koe_play_no == record::int_at(p.tail, 0)
    &&& m.debug_msg@ == record::text_at(p.tail, 1)
    &&& m.scn_no == record::int_at(p.tail, 2)
    &&& m.line_no == record::int_at(p.tail, 3)
}

impl MsgBackEntry {
    /// Whether an entry holds no message.
    pub open spec fn is_empty(&self) -> bool {
        &&& !self.pct_flag
        &&& self.msg_str@.len() == 0
        &&& self.original_name@.len() == 0
        &&& self.disp_name@.len() == 0
        &&& self.pct_pos == (0i64, 0i64)
        &&& self.koe_no_list@.len() == 0
        &&& self.chr_no_list@.len() == 0
        &&& self.koe_play_no == 0
        &&& self.debug_msg@.len() == 0
        &&& self.scn_no == 0
        &&& self.line_no == 0
    }

    /// An entry without a message.
    pub fn empty() -> (m: MsgBackEntry)
        ensures
            m.is_empty(),
    {
        MsgBackEntry {
            pct_flag: false,
            msg_str: String::new(),
            original_name: String::new(),
            disp_name: String::new(),
            pct_pos: (0, 0),
            koe_no_list: Vec::new(),
            chr_no_list: Vec::new(),
            koe_play_no: 0,
            debug_msg: String::new(),
            scn_no: 0,
            line_no: 0,
        }
    }
}

/// How many messages a history of `n` has room for.
pub open spec fn room_for(n: int) -> int {
    if n > 256 {
        n
    } else {
        256
    }
}

/// A place in the history. A negative one is the first.
pub open spec fn place(v: i64) -> int {
    if v < 0 {
        0
    } else {
        v as int
    }
}

proof fn lemma_msgs_fail(b: Seq<u8>, k: int, n: int)
    requires
        0 <= k <= n,
        msgs_of(b, k) is Err,
    ensures
        msgs_of(b, n) is Err,
        msgs_of(b, n)->Err_0 == msgs_of(b, k)->Err_0,
    decreases n,
{
    if k < n {
        lemma_msgs_fail(b, k, n - 1);
    }
}

fn read_msg(rd: &mut StreamReader) -> (r: Result<MsgBackEntry, StreamError>)
    requires
        old(rd).wf(),
    ensures
        final(rd).wf(),
        final(rd).data == old(rd).data,
        match (r, msg_of(old(rd).rest())) {
            (Ok(v), Ok(p)) => msg_from(v, p.0) && final(rd).rest() == p.1,
            (Err(a), Err(b)) => a == b,
            _ => false,
        },
{
    let head = match read_short_msg_head(rd) {
        Ok(v) => v,
        Err(e) => {
            return Err(e);
        },
    };
    let voices = match read_int_list(rd) {
        Ok(v) => v,
        Err(e) => {
            return Err(e);
        },
    };
    let characters = match read_int_list(rd) {
        Ok(v) => v,
        Err(e) => {
            return Err(e);
        },
    };
    let tail = match read_short_msg_tail(rd) {
        Ok(v) => v,
        Err(e) => {
            return Err(e);
        },
    };
    let disp_name = head.original_name.clone();
    Ok(
        MsgBackEntry {
            pct_flag: head.pct_flag,
            msg_str: head.msg_str,
            original_name: head.original_name,
            disp_name,
            pct_pos: (head.pct_pos_x, head.pct_pos_y),
            koe_no_list: voices,
            chr_no_list: characters,
            koe_play_no: tail.koe_play_no,
            debug_msg: tail.debug_msg,
            scn_no: tail.scn_no,
            line_no: tail.line_no,
        },
    )
}

fn place_of(v: i64) -> (r: i64)
    ensures
        r == place(v),
{
    if v < 0 {
        0
    } else {
        v
    }
}

/// Reads the history of messages. There is room for at least 256, and the room
/// that is left is filled with empty entries.
pub fn read_short_msg_back(rd: &mut StreamReader) -> (r: Result<MsgBack, StreamError>)
    requires
        old(rd).wf(),
    ensures
        final(rd).wf(),
        final(rd).data == old(rd).data,
        match (r, history_of(old(rd).rest())) {
            (Ok(v), Ok(p)) => {
                let (msgs, tail) = p.0;
                &&& final(rd).rest() == p.1
                &&& v.history_cnt == msgs.len()
                &&& v.history_cnt_max == room_for(msgs.len() as int)
                &&& v.history@.len() == v.history_cnt_max
                &&& forall|i: int|
                    0 <= i < msgs.len() ==> msg_from(#[trigger] v.history@[i], msgs[i])
                &&& forall|i: int|
                    msgs.len() <= i < v.history@.len() ==> (#[trigger] v.history@[i]).is_empty()
                &&& v.history_start_pos == place(record::int_at(tail, 0))
                &&& v.history_last_pos == place(record::int_at(tail, 1))
                &&& v.history_insert_pos == place(record::int_at(tail, 2))
                &&& v.new_msg_flag == record::flag_at(tail, 3)
            },
            (Err(a), Err(b)) => a == b,
            _ => false,
        },
{
    let n: usize = match read_count(rd, 41) {
        Ok(n) => n,
        Err(e) => {
            return Err(e);
        },
    };
    let ghost b = rd.rest();
    let ghost whole = old(rd).rest();
    let mut history: Vec<MsgBackEntry> = Vec::new();
    let mut i: usize = 0;
    while i < n
        invariant
            i <= n,
            rd.wf(),
            rd.data == old(rd).data,
            whole == old(rd).rest(),
            record::count_of(whole, 41) == Ok::<_, StreamError>((n as int, b)),
            msgs_of(b, i as int) is Ok,
            msgs_of(b, i as int)->Ok_0.1 == rd.rest(),
            msgs_of(b, i as int)->Ok_0.0.len() == i,
            history@.len() == i,
            forall|k: int|
                0 <= k < i ==> msg_from(#[trigger] history@[k], msgs_of(b, i as int)->Ok_0.0[k]),
        decreases n - i,
    {
        match read_msg(rd) {
            Ok(m) => {
                history.push(m);
            },
            Err(e) => {
                proof {
                    lemma_msgs_fail(b, i + 1, n as int);
                }
                return Err(e);
            },
        }
        i = i + 1;
    }
    let tail = match read_short_history_tail(rd) {
        Ok(v) => v,
        Err(e) => {
            return Err(e);
        },
    };
    let room: usize = if n > 256 {
        n
    } else {
        256
    };
    let ghost msgs = msgs_of(b, n as int)->Ok_0.0;
    while history.len() < room
        invariant
            n <= history@.len() <= room,
            msgs.len() == n,
            forall|k: int| 0 <= k < n ==> msg_from(#[trigger] history@[k], msgs[k]),
            forall|k: int| n <= k < history@.len() ==> (#[trigger] history@[k]).is_empty(),
        decreases room - history@.len(),
    {
        let ghost before = history@;
        history.push(MsgBackEntry::empty());
        proof {
            assert forall|k: int| 0 <= k < n implies msg_from(#[trigger] history@[k], msgs[k]) by {
                assert(history@[k] == before[k]);
            }
            assert forall|k: int| n <= k < history@.len() implies (#[trigger] history@[k]).is_empty() by {
                if k < before.len() {
                    assert(history@[k] == before[k]);
                }
            }
        }
    }
    Ok(
        MsgBack {
            history,
            history_cnt: n,
            history_cnt_max: room,
            history_start_pos: place_of(tail.start_pos),
            history_last_pos: place_of(tail.last_pos),
            history_insert_pos: place_of(tail.insert_pos),
            new_msg_flag: tail.new_msg_flag,
        },
    )
}

// The pages of a message window.

/// A character of a page.
#[derive(Debug, Clone, Copy, PartialEq, Eq, Structural)]
pub struct Glyph {
    pub moji_type: i64,
    pub code: i64,
    pub ruby: bool,
    /// With which character of the text it appears.
    pub reveal_index: usize,
}

/// A page of a message window.
#[derive(Debug)]
pub struct MwndPage {
    pub msg_text: String,
    pub glyphs: Vec<Glyph>,
    pub indent_moji: Option<char>,
    pub ruby_pending: Option<String>,
    pub moji_color: Option<i64>,
    pub shadow_color: Option<i64>,
    pub chara_moji_color: Option<i64>,
    pub chara_shadow_color: Option<i64>,
    pub head: ShortPageHead,
}

/// How many of the first `n` characters belong to the text itself.
pub open spec fn body_count(glyphs: Seq<Glyph>, n: int) -> int
    decreases n,
{
    if n <= 0 {
        0
    } else {
        body_count(glyphs, n - 1) + if glyphs[n - 1].ruby {
            0int
        } else {
            1
        }
    }
}

/// With which character of the text the one at `i` appears, where `before`
/// characters of the text come before.
pub open spec fn revealed_at(glyphs: Seq<Glyph>, before: int, i: int) -> int {
    let n = before + body_count(glyphs, i + 1);
    if n < 1 {
        1
    } else {
        n
    }
}

/// Whether the characters are numbered by when they appear, and otherwise as
/// they were.
pub open spec fn numbered(old_glyphs: Seq<Glyph>, new_glyphs: Seq<Glyph>, before: int) -> bool {
    &&& new_glyphs.len() == old_glyphs.len()
    &&& forall|i: int|
        0 <= i < old_glyphs.len() ==> (#[trigger] new_glyphs[i]) == (Glyph {
            reveal_index: revealed_at(old_glyphs, before, i) as usize,
            ..old_glyphs[i]
        })
}

proof fn lemma_body_count(glyphs: Seq<Glyph>, n: int)
    ensures
        0 <= body_count(glyphs, n),
        n >= 0 ==> body_count(glyphs, n) <= n,
    decreases n,
{
    if n > 0 {
        lemma_body_count(glyphs, n - 1);
    }
}

/// The characters of a page appear in their order, and none before the first
/// character of the text.
pub proof fn characters_appear_in_order(glyphs: Seq<Glyph>, before: int, i: int, j: int)
    requires
        0 <= i <= j < glyphs.len(),
    ensures
        1 <= revealed_at(glyphs, before, i) <= revealed_at(glyphs, before, j),
    decreases j - i,
{
    if i < j {
        characters_appear_in_order(glyphs, before, i, j - 1);
    }
}

/// Numbers the characters of a page behind `before` characters of the text,
/// and gives how many there are then.
pub fn number_glyphs(glyphs: &mut Vec<Glyph>, before: usize) -> (r: usize)
    requires
        before + old(glyphs)@.len() <= usize::MAX,
    ensures
        numbered(old(glyphs)@, final(glyphs)@, before as int),
        r == before + body_count(old(glyphs)@, old(glyphs)@.len() as int),
{
    let ghost was = glyphs@;
    let n: usize = glyphs.len();
    let mut count: usize = before;
    let mut i: usize = 0;
    while i < n
        invariant
            i <= n,
            n == was.len(),
            glyphs@.len() == n,
            before + n <= usize::MAX,
            count == before + body_count(was, i as int),
            count <= before + i,
            forall|k: int|
                0 <= k < i ==> (#[trigger] glyphs@[k]) == (Glyph {
                    reveal_index: revealed_at(was, before as int, k) as usize,
                    ..was[k]
                }),
            forall|k: int| i <= k < n ==> (#[trigger] glyphs@[k]) == was[k],
        decreases n - i,
    {
        if !glyphs[i].ruby {
            count = count + 1;
        }
        let index: usize = if count < 1 {
            1
        } else {
            count
        };
        let g = &mut glyphs[i];
        g.reveal_index = index;
        i = i + 1;
        proof {
            lemma_body_count(was, i as int);
        }
    }
    count
}

/// The code units of the text among the characters.
pub open spec fn text_units(glyphs: Seq<Glyph>) -> Seq<u16>
    decreases glyphs.len(),
{
    if glyphs.len() == 0 {
        Seq::empty()
    } else {
        let front = text_units(glyphs.drop_last());
        let g = glyphs.last();
        if g.moji_type == 0 && !g.ruby {
            front.push((g.code as int % 0x1_0000) as u16)
        } else {
            front
        }
    }
}

fn low_unit(code: i64) -> (r: u16)
    ensures
        r == code as int % 0x1_0000,
{
    if code >= 0 {
        (code % 0x1_0000) as u16
    } else if code == i64::MIN {
        proof {
            assert(code as int % 0x1_0000 == 0);
        }
        0
    } else {
        let m: u64 = (-code) as u64 % 0x1_0000;
        proof {
            assert(code as int % 0x1_0000 == (0x1_0000 - m) % 0x1_0000);
        }
        ((0x1_0000 - m) % 0x1_0000) as u16
    }
}

fn units_of_text(glyphs: &Vec<Glyph>) -> (r: Vec<u16>)
    ensures
        r@ == text_units(glyphs@),
{
    let mut r: Vec<u16> = Vec::new();
    let mut i: usize = 0;
    proof {
        assert(glyphs@.take(0) =~= Seq::<Glyph>::empty());
    }
    while i < glyphs.len()
        invariant
            i <= glyphs@.len(),
            r@ == text_units(glyphs@.take(i as int)),
        decreases glyphs@.len() - i,
    {
        proof {
            let taken = glyphs@.take(i + 1);
            assert(taken.drop_last() =~= glyphs@.take(i as int));
            assert(taken.last() == glyphs@[i as int]);
        }
        if glyphs[i].moji_type == 0 && !glyphs[i].ruby {
            r.push(low_unit(glyphs[i].code));
        }
        i = i + 1;
    }
    proof {
        assert(glyphs@.take(i as int) =~= glyphs@);
    }
    r
}

pub open spec fn color_or_none(v: i64) -> Option<i64> {
    if v >= 0 {
        Some(v)
    } else {
        None
    }
}

fn color_if_set(v: i64) -> (r: Option<i64>)
    ensures
        r == color_or_none(v),
{
    if v >= 0 {
        Some(v)
    } else {
        None
    }
}

/// The character of an indent. Half of a pair stands for no character.
pub open spec fn indent_char(unit: u16) -> Option<char> {
    if unit == 0 {
        None
    } else if 0xd800 <= unit <= 0xdfff {
        Some('\u{fffd}')
    } else {
        Some(unit as char)
    }
}

/// Makes a page of its head and its characters. Its text is the noted one, or
/// else that of the characters.
pub fn finish_page(head: ShortPageHead, glyphs: Vec<Glyph>) -> (r: MwndPage)
    ensures
        r.head == head,
        numbered(glyphs@, r.glyphs@, 0),
        r.msg_text@ == (if head.debug_msg@.len() > 0 {
            head.debug_msg@
        } else {
            text::decoded_lossy(text_units(glyphs@))
        }),
        r.indent_moji == indent_char(head.indent_unit),
        match r.ruby_pending {
            Some(t) => head.ruby@.len() > 0 && t@ == head.ruby@,
            None => head.ruby@.len() == 0,
        },
        r.moji_color == color_or_none(head.moji_color),
        r.shadow_color == color_or_none(head.shadow_color),
        r.chara_moji_color == color_or_none(head.chara_moji_color),
        r.chara_shadow_color == color_or_none(head.chara_shadow_color),
{
    let mut list = glyphs;
    let msg_text = if head.debug_msg.as_str().unicode_len() > 0 {
        head.debug_msg.clone()
    } else {
        let units = units_of_text(&list);
        text_of_units_lossy(units.as_slice())
    };
    let _len: usize = list.len();
    let _count: usize = number_glyphs(&mut list, 0);
    let indent_moji = if head.indent_unit == 0 {
        None
    } else {
        match char::from_u32(head.indent_unit as u32) {
            Some(c) => Some(c),
            None => Some('\u{fffd}'),
        }
    };
    let ruby_pending = if head.ruby.as_str().unicode_len() > 0 {
        Some(head.ruby.clone())
    } else {
        None
    };
    MwndPage {
        msg_text,
        glyphs: list,
        indent_moji,
        ruby_pending,
        moji_color: color_if_set(head.moji_color),
        shadow_color: color_if_set(head.shadow_color),
        chara_moji_color: color_if_set(head.chara_moji_color),
        chara_shadow_color: color_if_set(head.chara_shadow_color),
        head,
    }
}

/// Which of `n` pages is being shown.
pub open spec fn active_page(target: i64, n: int) -> int {
    if target < 0 || n <= 1 {
        0
    } else if target > n - 1 {
        n - 1
    } else {
        target as int
    }
}

/// How many characters of the text the first `n` pages have.
pub open spec fn text_before(pages: Seq<MwndPage>, n: int) -> int
    decreases n,
{
    if n <= 0 {
        0
    } else {
        text_before(pages, n - 1) + body_count(
            pages[n - 1].glyphs@,
            pages[n - 1].glyphs@.len() as int,
        )
    }
}

/// How many characters the first `n` pages have.
pub open spec fn glyphs_before(pages: Seq<MwndPage>, n: int) -> int
    decreases n,
{
    if n <= 0 {
        0
    } else {
        glyphs_before(pages, n - 1) + pages[n - 1].glyphs@.len()
    }
}

proof fn lemma_text_before(pages: Seq<MwndPage>, n: int)
    ensures
        0 <= text_before(pages, n) <= glyphs_before(pages, n),
    decreases n,
{
    if n > 0 {
        lemma_text_before(pages, n - 1);
        lemma_body_count(pages[n - 1].glyphs@, pages[n - 1].glyphs@.len() as int);
    }
}

proof fn lemma_glyphs_grow(pages: Seq<MwndPage>, k: int, n: int)
    requires
        0 <= k <= n,
    ensures
        glyphs_before(pages, k) <= glyphs_before(pages, n),
    decreases n,
{
    if k < n {
        lemma_glyphs_grow(pages, k, n - 1);
    }
}

/// Keeps the page that is being shown and those before it, and numbers their
/// characters through.
pub fn restore_pages(pages: &mut Vec<MwndPage>, target_msg_no: i64)
    requires
        glyphs_before(old(pages)@, old(pages)@.len() as int) <= usize::MAX,
    ensures
        ({
            let before = old(pages)@;
            let after = final(pages)@;
            let n = if before.len() == 0 {
                0
            } else {
                active_page(target_msg_no, before.len() as int) + 1
            };
            &&& after.len() == n
            &&& forall|i: int|
                0 <= i < n ==> (#[trigger] after[i]) == (MwndPage {
                    glyphs: after[i].glyphs,
                    ..before[i]
                }) && numbered(before[i].glyphs@, after[i].glyphs@, text_before(before, i))
        }),
{
    let len: usize = pages.len();
    if len == 0 {
        return;
    }
    let active: usize = if target_msg_no < 0 || len <= 1 {
        0
    } else if target_msg_no as u64 > (len - 1) as u64 {
        len - 1
    } else {
        target_msg_no as usize
    };
    let ghost before = pages@;
    let n: usize = active + 1;
    pages.truncate(n);
    let mut count: usize = 0;
    let mut i: usize = 0;
    while i < n
        invariant
            i <= n <= before.len(),
            pages@.len() == n,
            glyphs_before(before, before.len() as int) <= usize::MAX,
            count == text_before(before, i as int),
            forall|k: int|
                0 <= k < i ==> (#[trigger] pages@[k]) == (MwndPage {
                    glyphs: pages@[k].glyphs,
                    ..before[k]
                }) && numbered(before[k].glyphs@, pages@[k].glyphs@, text_before(before, k)),
            forall|k: int| i <= k < n ==> (#[trigger] pages@[k]) == before[k],
        decreases n - i,
    {
        proof {
            lemma_text_before(before, i as int);
            lemma_glyphs_grow(before, i + 1, before.len() as int);
            assert(glyphs_before(before, i + 1) == glyphs_before(before, i as int)
                + before[i as int].glyphs@.len());
        }
        let p = &mut pages[i];
        count = number_glyphs(&mut p.glyphs, count);
        i = i + 1;
    }
}

// Objects and choices.

/// Reads an object up to its position events.
pub fn read_short_object_head(rd: &mut StreamReader) -> (r: Result<
    (ShortObjectBase, ShortObjectWork),
    ShortSaveError,
>)
    requires
        old(rd).wf(),
    ensures
        final(rd).wf(),
        final(rd).data == old(rd).data,
        match record::fields_of(old(rd).rest(), short_records::object_base_kinds()) {
            Err(e) => r matches Err(x) && x == ShortSaveError::Stream(e),
            Ok((base, b1)) => if record::int_at(base, 0) == 4 {
                r matches Err(x) && x == ShortSaveError::Weather
            } else {
                match record::fields_of(b1, short_records::object_work_kinds()) {
                    Err(e) => r matches Err(x) && x == ShortSaveError::Stream(e),
                    Ok((work, b2)) => {
                        &&& r is Ok
                        &&& short_records::object_base_from(r->Ok_0.0, base)
                        &&& short_records::object_work_from(r->Ok_0.1, work)
                        &&& final(rd).rest() == b2
                    },
                }
            },
        },
{
    let base = match read_short_object_base(rd) {
        Ok(v) => v,
        Err(e) => {
            return Err(ShortSaveError::Stream(e));
        },
    };
    if base.object_type == 4 {
        return Err(ShortSaveError::Weather);
    }
    match read_short_object_work(rd) {
        Ok(work) => Ok((base, work)),
        Err(e) => Err(ShortSaveError::Stream(e)),
    }
}

/// A text that is not empty.
pub fn none_if_empty(s: String) -> (r: Option<String>)
    ensures
        match r {
            Some(t) => t@ == s@ && s@.len() > 0,
            None => s@.len() == 0,
        },
{
    if s.as_str().unicode_len() > 0 {
        Some(s)
    } else {
        None
    }
}

/// The picture that an object shows. An event that does not run says which; as
/// long as it runs, the object keeps what it had.
pub fn picture_of(loop_type: i32, event_value: i32, before: i64) -> (r: i64)
    ensures
        r == if loop_type == -1 {
            event_value as int
        } else {
            before as int
        },
{
    if loop_type == -1 {
        event_value as i64
    } else {
        before
    }
}

/// The template that gives a message window its files, where there is one.
/// `count` is the number of templates.
pub fn frame_template(msg_waku_no: Option<i64>, count: usize) -> (r: Option<usize>)
    ensures
        match (r, msg_waku_no) {
            (Some(i), Some(n)) => i == n && 0 <= n < count,
            (None, Some(n)) => n < 0 || n >= count,
            (None, None) => true,
            (Some(_), None) => false,
        },
{
    match msg_waku_no {
        Some(n) => {
            if n >= 0 && (n as u64) < count as u64 {
                Some(n as usize)
            } else {
                None
            }
        },
        None => None,
    }
}

/// The names of an object as it keeps them.
#[derive(Debug)]
pub struct ObjectNames {
    pub file_name: Option<String>,
    pub string_value: Option<String>,
    pub button_scn_name: String,
    pub button_cmd_name: String,
    pub used: bool,
}

/// What a text is where an empty one stands for none.
pub open spec fn some_text(s: Seq<char>) -> Option<Seq<char>> {
    if s.len() > 0 {
        Some(s)
    } else {
        None
    }
}

pub open spec fn kept_text(s: Option<String>) -> Option<Seq<char>> {
    match s {
        Some(t) => Some(t@),
        None => None,
    }
}

/// Reads the names of an object, and tells whether it is in use.
pub fn read_object_names(rd: &mut StreamReader, object_type: i64) -> (r: Result<
    ObjectNames,
    StreamError,
>)
    requires
        old(rd).wf(),
    ensures
        final(rd).wf(),
        final(rd).data == old(rd).data,
        match (
            r,
            record::fields_of(old(rd).rest(), short_records::object_names_kinds()),
        ) {
            (Ok(v), Ok(p)) => {
                &&& kept_text(v.file_name) == some_text(record::text_at(p.0, 0))
                &&& kept_text(v.string_value) == some_text(record::text_at(p.0, 1))
                &&& v.button_scn_name@ == record::text_at(p.0, 2)
                &&& v.button_cmd_name@ == record::text_at(p.0, 3)
                &&& v.used == (object_type != 0 || record::text_at(p.0, 0).len() > 0
                    || record::text_at(p.0, 1).len() > 0)
                &&& final(rd).rest() == p.1
            },
            (Err(a), Err(b)) => a == b,
            _ => false,
        },
{
    let names: ShortObjectNames = match read_short_object_names(rd) {
        Ok(names) => names,
        Err(e) => {
            return Err(e);
        },
    };
    let file_name = none_if_empty(names.file_name);
    let string_value = none_if_empty(names.string_value);
    let used: bool = object_used(object_type, &file_name, &string_value);
    Ok(
        ObjectNames {
            file_name,
            string_value,
            button_scn_name: names.button_scn_name,
            button_cmd_name: names.button_cmd_name,
            used,
        },
    )
}

/// Whether an object is in use: it has a type, a file or a text.
pub fn object_used(
    object_type: i64,
    file_name: &Option<String>,
    string_value: &Option<String>,
) -> (r: bool)
    ensures
        r == (object_type != 0 || file_name is Some || string_value is Some),
{
    object_type != 0 || file_name.is_some() || string_value.is_some()
}

/// Reads a choice by buttons. It must not have been open.
pub fn read_short_btn_select(rd: &mut StreamReader) -> (r: Result<
    ShortBtnSelectHead,
    ShortSaveError,
>)
    requires
        old(rd).wf(),
    ensures
        final(rd).wf(),
        final(rd).data == old(rd).data,
        match record::fields_of(old(rd).rest(), short_records::btn_select_head_kinds()) {
            Err(e) => r matches Err(x) && x == ShortSaveError::Stream(e),
            Ok((head, b1)) => match record::count_of(b1, 4) {
                Err(e) => r matches Err(x) && x == ShortSaveError::Stream(e),
                Ok((n, b2)) => if n != 0 {
                    r matches Err(x) && x == ShortSaveError::ActiveSelection
                } else {
                    &&& r is Ok
                    &&& short_records::btn_select_head_from(r->Ok_0, head)
                    &&& final(rd).rest() == b2
                },
            },
        },
{
    let head = match read_short_btn_select_head(rd) {
        Ok(v) => v,
        Err(e) => {
            return Err(ShortSaveError::Stream(e));
        },
    };
    match read_count(rd, 4) {
        Ok(n) => {
            if n != 0 {
                return Err(ShortSaveError::ActiveSelection);
            }
            Ok(head)
        },
        Err(e) => Err(ShortSaveError::Stream(e)),
    }
}

// Which objects are saved.

/// An entry of the game's settings: the parts of its key and its first item.
#[derive(Debug)]
pub struct ConfigEntry {
    pub key_parts: Vec<String>,
    pub first_item: Option<String>,
}

/// The places that a key's index covers: one number, or two with `-` between
/// them.
pub open spec fn covered(index: Seq<char>) -> Option<(int, int)> {
    let (start, end) = match text_parts::first_of(index, '-') {
        Some(k) => (index.take(k), index.skip(k + 1)),
        None => (index, index),
    };
    match (
        number_text::natural_within(text_parts::trimmed(start), usize::MAX as int),
        number_text::natural_within(text_parts::trimmed(end), usize::MAX as int),
    ) {
        (Some(a), Some(b)) => Some((a, b)),
        _ => None,
    }
}

/// The number that an entry gives to an object's slot, with the field that it
/// is for.
pub open spec fn slot_number(e: ConfigEntry, slot: int) -> Option<(Seq<char>, int)> {
    if e.key_parts@.len() != 3 || e.key_parts@[0]@ != "OBJECT"@ {
        None
    } else {
        match (covered(e.key_parts@[1]@), e.first_item) {
            (Some((a, b)), Some(item)) => if a <= slot <= b {
                match number_text::number_within(item@, i32::MIN as int, i32::MAX as int) {
                    Some(v) => Some((e.key_parts@[2]@, v)),
                    None => None,
                }
            } else {
                None
            },
            _ => None,
        }
    }
}

/// The flag `field` of a slot after the first `n` entries. It is set unless an
/// entry says otherwise, and the last entry counts.
pub open spec fn slot_flag(entries: Seq<ConfigEntry>, slot: int, field: Seq<char>, n: int) -> bool
    decreases n,
{
    if n <= 0 {
        true
    } else {
        match slot_number(entries[n - 1], slot) {
            Some((name, v)) => if name == field {
                v != 0
            } else {
                slot_flag(entries, slot, field, n - 1)
            },
            None => slot_flag(entries, slot, field, n - 1),
        }
    }
}

fn parse_place(s: &[char]) -> (r: Option<usize>)
    ensures
        match r {
            Some(v) => number_text::natural_within(text_parts::trimmed(s@), usize::MAX as int)
                == Some(v as int),
            None => number_text::natural_within(text_parts::trimmed(s@), usize::MAX as int) is None,
        },
{
    match parse_u64_chars(trim_chars(s)) {
        Some(v) => {
            if v > usize::MAX as u64 {
                None
            } else {
                Some(v as usize)
            }
        },
        None => None,
    }
}

fn find_covered(index: &str) -> (r: Option<(usize, usize)>)
    ensures
        match r {
            Some((a, b)) => covered(index@) == Some((a as int, b as int)),
            None => covered(index@) is None,
        },
{
    let chars = chars_of(index);
    let n: usize = chars.len();
    let (start, end) = match find_char(chars.as_slice(), '-') {
        Some(k) => {
            let a = vstd::slice::slice_subrange(chars.as_slice(), 0, k);
            let b = vstd::slice::slice_subrange(chars.as_slice(), k + 1, n);
            proof {
                assert(a@ =~= index@.take(k as int));
                assert(b@ =~= index@.skip(k + 1));
            }
            (parse_place(a), parse_place(b))
        },
        None => (parse_place(chars.as_slice()), parse_place(chars.as_slice())),
    };
    match (start, end) {
        (Some(a), Some(b)) => Some((a, b)),
        _ => None,
    }
}

fn find_slot_number(e: &ConfigEntry, slot: usize) -> (r: Option<i64>)
    ensures
        match r {
            Some(v) => slot_number(*e, slot as int) == Some((e.key_parts@[2]@, v as int))
                && e.key_parts@.len() == 3,
            None => slot_number(*e, slot as int) is None,
        },
{
    if e.key_parts.len() != 3 || !same_text(e.key_parts[0].as_str(), "OBJECT") {
        return None;
    }
    let (a, b) = match find_covered(e.key_parts[1].as_str()) {
        Some(range) => range,
        None => {
            return None;
        },
    };
    match &e.first_item {
        Some(item) => {
            if slot < a || slot > b {
                return None;
            }
            let chars = chars_of(item.as_str());
            match parse_i64_chars(chars.as_slice()) {
                Some(v) => {
                    if v < i32::MIN as i64 || v > i32::MAX as i64 {
                        None
                    } else {
                        Some(v)
                    }
                },
                None => None,
            }
        },
        None => None,
    }
}

/// Whether the object in a slot is saved: it is in use and not left out.
pub fn short_object_slot_saved(entries: &Vec<ConfigEntry>, slot: usize) -> (r: bool)
    ensures
        r == (slot_flag(entries@, slot as int, "USE"@, entries@.len() as int) && slot_flag(
            entries@,
            slot as int,
            "SAVE"@,
            entries@.len() as int,
        )),
{
    let mut use_flag: bool = true;
    let mut save_flag: bool = true;
    let mut i: usize = 0;
    proof {
        reveal_strlit("USE");
        reveal_strlit("SAVE");
        assert("USE"@.len() != "SAVE"@.len());
    }
    while i < entries.len()
        invariant
            i <= entries@.len(),
            "USE"@ != "SAVE"@,
            use_flag == slot_flag(entries@, slot as int, "USE"@, i as int),
            save_flag == slot_flag(entries@, slot as int, "SAVE"@, i as int),
        decreases entries@.len() - i,
    {
        match find_slot_number(&entries[i], slot) {
            Some(v) => {
                let field = entries[i].key_parts[2].as_str();
                if same_text(field, "USE") {
                    use_flag = v != 0;
                } else if same_text(field, "SAVE") {
                    save_flag = v != 0;
                }
            },
            None => {},
        }
        i = i + 1;
    }
    use_flag && save_flag
}

/// What the settings say of a slot last counts: an entry for the slot and the field decides,
/// whatever stands before it, and an entry for another slot or field changes nothing. Where no
/// entry speaks of the slot, it is in use.
pub proof fn the_last_setting_of_a_slot_counts(
    entries: Seq<ConfigEntry>,
    e: ConfigEntry,
    slot: int,
    field: Seq<char>,
)
    ensures
        ({
            let n = entries.len() as int;
            let with = slot_flag(entries.push(e), slot, field, n + 1);
            &&& forall|v: int| slot_number(e, slot) == Some((field, v)) ==> with == (v != 0)
            &&& !(slot_number(e, slot) matches Some((name, _)) && name == field) ==> with
                == slot_flag(entries, slot, field, n)
            &&& slot_flag(entries, slot, field, 0)
        }),
{
    let n: int = entries.len() as int;
    assert(entries.push(e)[n] == e);
    lemma_slot_flag_of_front(entries, e, slot, field, n);
}

proof fn lemma_slot_flag_of_front(
    entries: Seq<ConfigEntry>,
    e: ConfigEntry,
    slot: int,
    field: Seq<char>,
    n: int,
)
    requires
        0 <= n <= entries.len(),
    ensures
        slot_flag(entries.push(e), slot, field, n) == slot_flag(entries, slot, field, n),
    decreases n,
{
    if n > 0 {
        assert(entries.push(e)[n - 1] == entries[n - 1]);
        lemma_slot_flag_of_front(entries, e, slot, field, n - 1);
    }
}

/// An entry speaks of the slots from its first to its last number, both of them among these.
pub proof fn settings_reach_from_the_first_to_the_last_slot(
    e: ConfigEntry,
    slot: int,
    first: int,
    last: int,
    v: int,
)
    requires
        e.key_parts@.len() == 3,
        e.key_parts@[0]@ == "OBJECT"@,
        covered(e.key_parts@[1]@) == Some((first, last)),
        e.first_item is Some,
        number_text::number_within(e.first_item->0@, i32::MIN as int, i32::MAX as int) == Some(v),
    ensures
        first <= slot <= last ==> slot_number(e, slot) == Some((e.key_parts@[2]@, v)),
        slot < first || slot > last ==> slot_number(e, slot) is None,
{
}

/// The text of a page is what its characters say, one by one. Readings above the text and what
/// is no character are left out.
pub proof fn texts_grow_by_their_characters(glyphs: Seq<Glyph>, g: Glyph)
    ensures
        g.moji_type != 0 || g.ruby ==> text_units(glyphs.push(g)) == text_units(glyphs),
        g.moji_type == 0 && !g.ruby && 0 <= g.code <= 0xffff ==> text_units(glyphs.push(g))
            == text_units(glyphs).push(g.code as u16),
        body_count(glyphs.push(g), glyphs.len() as int + 1) == body_count(
            glyphs,
            glyphs.len() as int,
        ) + if g.ruby {
            0int
        } else {
            1int
        },
        text_units(Seq::<Glyph>::empty()).len() == 0,
{
    assert(glyphs.push(g).drop_last() =~= glyphs);
    lemma_body_count_of_front(glyphs, g, glyphs.len() as int);
}

proof fn lemma_body_count_of_front(glyphs: Seq<Glyph>, g: Glyph, n: int)
    requires
        0 <= n <= glyphs.len(),
    ensures
        body_count(glyphs.push(g), n) == body_count(glyphs, n),
    decreases n,
{
    if n > 0 {
        assert(glyphs.push(g)[n - 1] == glyphs[n - 1]);
        lemma_body_count_of_front(glyphs, g, n - 1);
    }
}

/// Characters are shown one after the other: the first one behind those of the pages before it,
/// and a reading together with the text before it.
pub proof fn characters_are_shown_one_after_the_other(glyphs: Seq<Glyph>, before: int, i: int)
    requires
        before >= 0,
        0 <= i < glyphs.len(),
    ensures
        i == 0 && !glyphs[0].ruby ==> revealed_at(glyphs, before, 0) == before + 1,
        i > 0 && !glyphs[i].ruby && (i > 0 && !glyphs[0].ruby || before > 0) ==> revealed_at(
            glyphs,
            before,
            i,
        ) == revealed_at(glyphs, before, i - 1) + 1,
        i > 0 && glyphs[i].ruby ==> revealed_at(glyphs, before, i) == revealed_at(
            glyphs,
            before,
            i - 1,
        ),
{
    reveal_with_fuel(body_count, 3);
    if i > 0 {
        lemma_body_count_is_positive(glyphs, i);
    }
}

proof fn lemma_body_count_is_positive(glyphs: Seq<Glyph>, n: int)
    requires
        1 <= n <= glyphs.len(),
    ensures
        body_count(glyphs, n) >= if glyphs[0].ruby {
            0int
        } else {
            1int
        },
    decreases n,
{
    reveal_with_fuel(body_count, 2);
    if n > 1 {
        lemma_body_count_is_positive(glyphs, n - 1);
    }
}

/// The page in front is the one that is asked for, where there is such a page, and else the one
/// nearest to it.
pub proof fn the_nearest_page_is_in_front(target: i64, n: int, other: int)
    requires
        n > 0,
        0 <= other < n,
    ensures
        0 <= active_page(target, n) < n,
        0 <= target < n ==> active_page(target, n) == target,
        target < 0 ==> active_page(target, n) <= other,
        target >= n ==> active_page(target, n) >= other,
{
}

/// A number below zero names no color, and a unit of zero no indent. Halves of pairs are shown
/// by the mark for what cannot be shown.
pub proof fn missing_colors_and_indents_are_none(v: i64, unit: u16)
    ensures
        v < 0 <==> color_or_none(v) is None,
        v >= 0 ==> color_or_none(v) == Some(v),
        unit == 0 <==> indent_char(unit) is None,
        unit != 0 && !(0xd800 <= unit < 0xe000) ==> (indent_char(unit) matches Some(c) && c as u32
            == unit),
        0xd800 <= unit < 0xe000 ==> indent_char(unit) == Some('\u{fffd}'),
{
}

} // verus!
