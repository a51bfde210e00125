//! Message windows of the oldest save layout: what a window has from its head
//! and what it has from its pages.

use vstd::prelude::*;
use crate::vm::short_records::ShortMwndHead;
use crate::vm::short_save;
use crate::vm::short_save::{restore_pages, MwndPage};

verus! {

/// A message window. What only pages set is missing where there is no page.
#[derive(Debug)]
pub struct ShortMwnd {
    pub head: ShortMwndHead,
    pub window_moji_cnt: Option<(i64, i64)>,
    pub message_pos: (i64, i64),
    pub moji_space: Option<(i64, i64)>,
    pub message_margin: (i64, i64, i64, i64),
    pub ruby_size: Option<i64>,
    pub ruby_space: Option<i64>,
    /// The pages before the one that is being shown.
    pub message_pages: Vec<MwndPage>,
    /// The text, the characters, the places and the colors of the window: those
    /// of the page that is being shown.
    pub shown: Option<MwndPage>,
}

/// Whether a window has its layout from the last page that was read, or from
/// its head where there is none.
pub open spec fn laid_out(w: ShortMwnd, head: ShortMwndHead, pages: Seq<MwndPage>) -> bool {
    if pages.len() == 0 {
        &&& w.window_moji_cnt is None
        &&& w.message_pos == head.message_pos
        &&& w.moji_space is None
        &&& w.message_margin == head.message_margin
        &&& w.ruby_size is None
        &&& w.ruby_space is None
    } else {
        let last = pages.last().head;
        &&& w.window_moji_cnt == Some(last.window_moji_cnt)
        &&& w.message_pos == last.cursor_pos
        &&& w.moji_space == Some(last.moji_space)
        &&& w.message_margin == last.message_margin
        &&& w.ruby_size == Some(last.ruby_size)
        &&& w.ruby_space == Some(last.ruby_space)
    }
}

/// Whether `after` is the page `i` of `pages`, with its characters numbered
/// behind those of the pages before it.
pub open spec fn is_page(after: MwndPage, pages: Seq<MwndPage>, i: int) -> bool {
    &&& after == (MwndPage { glyphs: after.glyphs, ..pages[i] })
    &&& short_save::numbered(pages[i].glyphs@, after.glyphs@, short_save::text_before(pages, i))
}

/// Whether a window is made of this head and these pages.
pub open spec fn is_window_of(w: ShortMwnd, head: ShortMwndHead, pages: Seq<MwndPage>) -> bool {
    &&& w.head == head
    &&& laid_out(w, head, pages)
    &&& if pages.len() == 0 {
        w.shown is None && w.message_pages@.len() == 0
    } else {
        let active = short_save::active_page(head.target_msg_no, pages.len() as int);
        &&& w.shown matches Some(page) && is_page(page, pages, active)
        &&& w.message_pages@.len() == active
        &&& forall|i: int|
            0 <= i < active ==> is_page(#[trigger] w.message_pages@[i], pages, i)
    }
}

/// Makes a window of its head and its pages.
pub fn restore_window(head: ShortMwndHead, pages: Vec<MwndPage>) -> (w: ShortMwnd)
    requires
        short_save::glyphs_before(pages@, pages@.len() as int) <= usize::MAX,
    ensures
        is_window_of(w, head, pages@),
{
    let ghost before = pages@;
    let n: usize = pages.len();
    let mut message_pages = pages;
    if n == 0 {
        let message_pos = head.message_pos;
        let message_margin = head.message_margin;
        return ShortMwnd {
            head,
            window_moji_cnt: None,
            message_pos,
            moji_space: None,
            message_margin,
            ruby_size: None,
            ruby_space: None,
            message_pages,
            shown: None,
        };
    }
    let last = &message_pages[n - 1].head;
    let window_moji_cnt = last.window_moji_cnt;
    let message_pos = last.cursor_pos;
    let moji_space = last.moji_space;
    let message_margin = last.message_margin;
    let ruby_size: i64 = last.ruby_size;
    let ruby_space: i64 = last.ruby_space;
    restore_pages(&mut message_pages, head.target_msg_no);
    let ghost kept = message_pages@;
    let shown = message_pages.pop();
    proof {
        assert forall|i: int| 0 <= i < message_pages@.len() implies is_page(
            #[trigger] message_pages@[i],
            before,
            i,
        ) by {
            assert(message_pages@[i] == kept[i]);
        }
    }
    ShortMwnd {
        head,
        window_moji_cnt: Some(window_moji_cnt),
        message_pos,
        moji_space: Some(moji_space),
        message_margin,
        ruby_size: Some(ruby_size),
        ruby_space: Some(ruby_space),
        message_pages,
        shown,
    }
}

/// Whichever page is being shown, the layout of a window is that of its last
/// page.
pub proof fn layout_is_that_of_the_last_page(
    w: ShortMwnd,
    other: ShortMwnd,
    head: ShortMwndHead,
    other_head: ShortMwndHead,
    pages: Seq<MwndPage>,
    others: Seq<MwndPage>,
)
    requires
        is_window_of(w, head, pages),
        is_window_of(other, other_head, others),
        pages.len() > 0,
        others.len() > 0,
        pages.last().head == others.last().head,
    ensures
        w.window_moji_cnt == other.window_moji_cnt,
        w.message_pos == other.message_pos,
        w.moji_space == other.moji_space,
        w.message_margin == other.message_margin,
        w.ruby_size == other.ruby_size,
        w.ruby_space == other.ruby_space,
{
}

} // verus!
