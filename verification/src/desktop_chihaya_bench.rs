//! The dialog that shows the result of a benchmark: a text that can be
//! scrolled and copied, and a button that closes it.

use vstd::prelude::*;
use crate::aether_host::at_least_one;
use crate::number_text;
use crate::number_text::decimal_u64;
use crate::text_parts;
use crate::text_parts::{join, split_lines, trim};

verus! {

/// The keys that the dialog knows.
#[derive(Debug, Clone, Copy, PartialEq, Eq, Structural)]
pub enum DialogKey {
    Escape,
    Enter,
    Space,
    ArrowLeft,
    ArrowRight,
    Tab,
    ArrowUp,
    ArrowDown,
    PageUp,
    PageDown,
    Home,
    End,
    Other,
}

/// What is to be done after an event.
#[derive(Debug, Clone, Copy, PartialEq, Eq, Structural)]
pub enum DialogStep {
    Nothing,
    Redraw,
    /// Give the renderer the new size, and draw the dialog again.
    Resize { width: u32, height: u32 },
    /// Draw the dialog now.
    Render,
    /// Copy the text, and call `copied`.
    Copy,
    /// Close the dialog and answer 0.
    Close,
}

/// What happens to the dialog's window. Of the pointer it is told which button
/// it is on, if any.
#[derive(Debug, Clone, Copy, PartialEq, Eq, Structural)]
pub enum DialogEvent {
    CloseRequested,
    SurfaceResized { width: u32, height: u32 },
    /// The pointer was moved, or came into the window.
    PointerMoved { hit: Option<usize> },
    /// The wheel was turned by some lines.
    MouseWheel { lines: i32 },
    /// The left button of the mouse was let go.
    LeftReleased { hit: Option<usize> },
    KeyPressed { key: DialogKey },
    RedrawRequested,
    Other,
}

/// The dialog. Button 0 copies, and button 1 closes.
#[derive(Debug)]
pub struct DesktopChihayaBenchWindow {
    pub request_id: u64,
    pub title: String,
    pub text: String,
    pub lines: Vec<String>,
    pub selected: usize,
    pub scroll_line: usize,
    pub notice: Option<String>,
}

/// The first line that may be scrolled to.
pub open spec fn max_scroll(lines: int, visible: int) -> int {
    if lines > visible {
        lines - visible
    } else {
        0
    }
}

/// The first line after scrolling by `delta` lines.
pub open spec fn scrolled(line: int, delta: int, lines: int, visible: int) -> int {
    let at = line + delta;
    if at < 0 {
        0
    } else if at > max_scroll(lines, visible) {
        max_scroll(lines, visible)
    } else {
        at
    }
}

/// The keys that close a notice.
pub open spec fn closing_key(key: DialogKey) -> bool {
    key == DialogKey::Escape || key == DialogKey::Enter || key == DialogKey::Space
}

/// The lines from `from` on, up to `n`, with line ends between them.
pub open spec fn joined_lines(lines: Seq<Seq<char>>, from: int, n: int) -> Seq<char>
    decreases n,
{
    if n <= 0 || from >= lines.len() || from < 0 {
        Seq::empty()
    } else if n == 1 || from + 1 >= lines.len() {
        lines[from]
    } else {
        lines[from].push('\n') + joined_lines(lines, from + 1, n - 1)
    }
}

impl DesktopChihayaBenchWindow {
    pub open spec fn wf(&self) -> bool {
        &&& text_parts::texts(self.lines@) == text_parts::lines_of(self.text@)
        &&& self.selected <= 1
    }

    /// Whether nothing but the scroll position, the selection and the notice
    /// has changed.
    pub open spec fn same_text(&self, other: &Self) -> bool {
        *self == (DesktopChihayaBenchWindow {
            selected: self.selected,
            scroll_line: self.scroll_line,
            notice: self.notice,
            ..*other
        })
    }

    /// Opens the dialog. The button that closes it is selected.
    pub fn new(request_id: u64, title: &str, text: &str) -> (d: DesktopChihayaBenchWindow)
        ensures
            d.wf(),
            d.request_id == request_id,
            d.title@ == (if text_parts::trimmed(title@).len() == 0 {
                "Siglus"@
            } else {
                title@
            }),
            d.text@ == text@,
            d.selected == 1,
            d.scroll_line == 0,
            d.notice is None,
    {
        let trimmed = trim(title);
        let shown = if trimmed.as_str().unicode_len() == 0 {
            "Siglus".to_owned()
        } else {
            title.to_owned()
        };
        DesktopChihayaBenchWindow {
            request_id,
            title: shown,
            text: text.to_owned(),
            lines: split_lines(text),
            selected: 1,
            scroll_line: 0,
            notice: None,
        }
    }

    /// Scrolls by `delta` lines.
    pub fn adjust_scroll(&mut self, delta: i32, visible: usize) -> (r: DialogStep)
        requires
            old(self).wf(),
        ensures
            final(self).wf(),
            *final(self) == (DesktopChihayaBenchWindow {
                scroll_line: final(self).scroll_line,
                ..*old(self)
            }),
            final(self).scroll_line == scrolled(
                old(self).scroll_line as int,
                delta as int,
                old(self).lines@.len() as int,
                visible as int,
            ),
            r == DialogStep::Redraw,
    {
        let lines: usize = self.lines.len();
        let limit: usize = if lines > visible {
            lines - visible
        } else {
            0
        };
        let at: usize = if delta < 0 {
            let by: u64 = (-(delta as i64)) as u64;
            if by >= self.scroll_line as u64 {
                0
            } else {
                self.scroll_line - by as usize
            }
        } else if delta as u64 > (usize::MAX - self.scroll_line) as u64 {
            usize::MAX
        } else {
            self.scroll_line + delta as usize
        };
        self.scroll_line = if at > limit {
            limit
        } else {
            at
        };
        DialogStep::Redraw
    }

    /// Moves the first line back where the text would end too early.
    pub fn clamp_scroll(&mut self, visible: usize)
        requires
            old(self).wf(),
        ensures
            final(self).wf(),
            *final(self) == (DesktopChihayaBenchWindow {
                scroll_line: final(self).scroll_line,
                ..*old(self)
            }),
            final(self).scroll_line == scrolled(
                old(self).scroll_line as int,
                0,
                old(self).lines@.len() as int,
                visible as int,
            ),
    {
        let _step = self.adjust_scroll(0, visible);
    }

    /// What is to be done after a key.
    pub open spec fn key_step(&self, key: DialogKey) -> DialogStep {
        if self.notice is Some {
            if closing_key(key) {
                DialogStep::Redraw
            } else {
                DialogStep::Nothing
            }
        } else {
            match key {
                DialogKey::Escape => DialogStep::Close,
                DialogKey::Enter | DialogKey::Space => if self.selected == 0 {
                    DialogStep::Copy
                } else {
                    DialogStep::Close
                },
                DialogKey::Other => DialogStep::Nothing,
                _ => DialogStep::Redraw,
            }
        }
    }

    /// The selected button after a key.
    pub open spec fn key_selected(&self, key: DialogKey) -> int {
        match key {
            DialogKey::ArrowLeft | DialogKey::ArrowRight | DialogKey::Tab => if self.notice is Some {
                self.selected as int
            } else {
                1 - self.selected
            },
            _ => self.selected as int,
        }
    }

    /// The first line that is shown after a key.
    pub open spec fn key_line(&self, key: DialogKey, visible: int) -> int {
        let line = self.scroll_line as int;
        let lines = self.lines@.len() as int;
        if self.notice is Some {
            line
        } else {
            match key {
                DialogKey::ArrowUp => scrolled(line, -1, lines, visible),
                DialogKey::ArrowDown => scrolled(line, 1, lines, visible),
                DialogKey::PageUp => scrolled(line, -visible, lines, visible),
                DialogKey::PageDown => scrolled(line, visible, lines, visible),
                DialogKey::Home => 0,
                DialogKey::End => max_scroll(lines, visible),
                _ => line,
            }
        }
    }

    /// Answers a key. While a notice is shown, keys only close it.
    pub fn handle_key(&mut self, key: DialogKey, visible: usize) -> (r: DialogStep)
        requires
            old(self).wf(),
            visible <= i32::MAX,
        ensures
            final(self).wf(),
            final(self).same_text(old(self)),
            r == old(self).key_step(key),
            final(self).selected == old(self).key_selected(key),
            final(self).scroll_line == old(self).key_line(key, visible as int),
            final(self).notice == (if closing_key(key) {
                None
            } else {
                old(self).notice
            }),
    {
        if self.notice.is_some() {
            return match key {
                DialogKey::Escape | DialogKey::Enter | DialogKey::Space => {
                    self.notice = None;
                    DialogStep::Redraw
                },
                _ => DialogStep::Nothing,
            };
        }
        match key {
            DialogKey::Escape => DialogStep::Close,
            DialogKey::Enter | DialogKey::Space => {
                if self.selected == 0 {
                    DialogStep::Copy
                } else {
                    DialogStep::Close
                }
            },
            DialogKey::ArrowLeft | DialogKey::ArrowRight | DialogKey::Tab => {
                self.selected = 1 - self.selected;
                DialogStep::Redraw
            },
            DialogKey::ArrowUp => self.adjust_scroll(-1, visible),
            DialogKey::ArrowDown => self.adjust_scroll(1, visible),
            DialogKey::PageUp => self.adjust_scroll(-(visible as i32), visible),
            DialogKey::PageDown => self.adjust_scroll(visible as i32, visible),
            DialogKey::Home => {
                self.scroll_line = 0;
                DialogStep::Redraw
            },
            DialogKey::End => {
                self.scroll_line = self.lines.len();
                self.clamp_scroll(visible);
                DialogStep::Redraw
            },
            DialogKey::Other => DialogStep::Nothing,
        }
    }

    /// Answers a turn of the wheel by some lines.
    pub fn wheel(&mut self, lines: i32, visible: usize) -> (r: DialogStep)
        requires
            old(self).wf(),
        ensures
            final(self).wf(),
            *final(self) == (DesktopChihayaBenchWindow {
                scroll_line: final(self).scroll_line,
                ..*old(self)
            }),
            if old(self).notice is Some {
                final(self).scroll_line == old(self).scroll_line && r == DialogStep::Nothing
            } else {
                &&& r == DialogStep::Redraw
                &&& final(self).scroll_line == scrolled(
                    old(self).scroll_line as int,
                    lines as int,
                    old(self).lines@.len() as int,
                    visible as int,
                )
            },
    {
        if self.notice.is_some() {
            return DialogStep::Nothing;
        }
        self.adjust_scroll(lines, visible)
    }

    /// Answers a move of the pointer to a button, or to none.
    pub fn pointer_moved(&mut self, hit: Option<usize>) -> (r: DialogStep)
        requires
            old(self).wf(),
            hit matches Some(i) ==> i <= 1,
        ensures
            final(self).wf(),
            *final(self) == (DesktopChihayaBenchWindow { selected: final(self).selected, ..*old(self) }),
            final(self).selected == (match hit {
                Some(i) => if old(self).notice is None {
                    i
                } else {
                    old(self).selected
                },
                None => old(self).selected,
            }),
            r == DialogStep::Redraw,
    {
        if self.notice.is_none() {
            if let Some(i) = hit {
                self.selected = i;
            }
        }
        DialogStep::Redraw
    }

    /// Answers a click on a button, or beside them. While a notice is shown,
    /// a click only closes it.
    pub fn clicked(&mut self, hit: Option<usize>) -> (r: DialogStep)
        requires
            old(self).wf(),
        ensures
            final(self).wf(),
            *final(self) == (DesktopChihayaBenchWindow { notice: final(self).notice, ..*old(self) }),
            final(self).notice is None,
            r == (if old(self).notice is Some {
                DialogStep::Redraw
            } else {
                match hit {
                    Some(0) => DialogStep::Copy,
                    Some(1) => DialogStep::Close,
                    _ => DialogStep::Nothing,
                }
            }),
    {
        if self.notice.is_some() {
            self.notice = None;
            return DialogStep::Redraw;
        }
        match hit {
            Some(0) => DialogStep::Copy,
            Some(1) => DialogStep::Close,
            _ => DialogStep::Nothing,
        }
    }

    /// The number of the request that the dialog was opened for.
    pub fn request_id(&self) -> (r: u64)
        ensures
            r == self.request_id,
    {
        self.request_id
    }

    /// What is to be done after an event, by the dialog before it.
    pub open spec fn step_after(&self, event: DialogEvent) -> DialogStep {
        match event {
            DialogEvent::CloseRequested => DialogStep::Close,
            DialogEvent::SurfaceResized { width, height } => DialogStep::Resize {
                width: if width == 0 {
                    1
                } else {
                    width
                },
                height: if height == 0 {
                    1
                } else {
                    height
                },
            },
            DialogEvent::PointerMoved { .. } => DialogStep::Redraw,
            DialogEvent::MouseWheel { .. } => if self.notice is Some {
                DialogStep::Nothing
            } else {
                DialogStep::Redraw
            },
            DialogEvent::LeftReleased { hit } => if self.notice is Some {
                DialogStep::Redraw
            } else if hit == Some(0usize) {
                DialogStep::Copy
            } else if hit == Some(1usize) {
                DialogStep::Close
            } else {
                DialogStep::Nothing
            },
            DialogEvent::KeyPressed { key } => self.key_step(key),
            DialogEvent::RedrawRequested => DialogStep::Render,
            DialogEvent::Other => DialogStep::Nothing,
        }
    }

    /// The selected button after an event.
    pub open spec fn selected_after(&self, event: DialogEvent) -> int {
        match event {
            DialogEvent::PointerMoved { hit: Some(i) } if self.notice is None => i as int,
            DialogEvent::KeyPressed { key } => self.key_selected(key),
            _ => self.selected as int,
        }
    }

    /// The first line that is shown after an event.
    pub open spec fn line_after(&self, event: DialogEvent, visible: int) -> int {
        let line = self.scroll_line as int;
        let lines = self.lines@.len() as int;
        match event {
            DialogEvent::SurfaceResized { .. } => scrolled(line, 0, lines, visible),
            DialogEvent::MouseWheel { lines: by } if self.notice is None => scrolled(
                line,
                by as int,
                lines,
                visible,
            ),
            DialogEvent::KeyPressed { key } => self.key_line(key, visible),
            _ => line,
        }
    }

    /// Whether an event closes a notice that is shown.
    pub open spec fn closes_notice(event: DialogEvent) -> bool {
        match event {
            DialogEvent::LeftReleased { .. } => true,
            DialogEvent::KeyPressed { key } => closing_key(key),
            _ => false,
        }
    }

    /// Answers an event. `visible` is the number of lines that the window has
    /// room for after it.
    pub fn handle_window_event(&mut self, event: DialogEvent, visible: usize) -> (r: DialogStep)
        requires
            old(self).wf(),
            visible <= i32::MAX,
            event matches DialogEvent::PointerMoved { hit: Some(i) } ==> i <= 1,
        ensures
            final(self).wf(),
            final(self).same_text(old(self)),
            r == old(self).step_after(event),
            final(self).selected == old(self).selected_after(event),
            final(self).scroll_line == old(self).line_after(event, visible as int),
            final(self).notice == (if Self::closes_notice(event) {
                None
            } else {
                old(self).notice
            }),
    {
        match event {
            DialogEvent::CloseRequested => DialogStep::Close,
            DialogEvent::SurfaceResized { width, height } => {
                self.clamp_scroll(visible);
                DialogStep::Resize { width: at_least_one(width), height: at_least_one(height) }
            },
            DialogEvent::PointerMoved { hit } => self.pointer_moved(hit),
            DialogEvent::MouseWheel { lines } => self.wheel(lines, visible),
            DialogEvent::LeftReleased { hit } => self.clicked(hit),
            DialogEvent::KeyPressed { key } => self.handle_key(key, visible),
            DialogEvent::RedrawRequested => DialogStep::Render,
            DialogEvent::Other => DialogStep::Nothing,
        }
    }

    /// Tells whether the text was copied, or why not.
    pub fn copied(&mut self, error: Option<&str>) -> (r: DialogStep)
        requires
            old(self).wf(),
        ensures
            final(self).wf(),
            *final(self) == (DesktopChihayaBenchWindow { notice: final(self).notice, ..*old(self) }),
            final(self).notice matches Some(n) && n@ == (match error {
                None => copied_notice(),
                Some(e) => failed_notice() + e@,
            }),
            r == DialogStep::Redraw,
    {
        let shown = match error {
            None => {
                let mut s =
                    "情報をクリップボードにコピーしました。".to_owned();
                s.push('\n');
                s.append(
                    "メモ帳などのエディタで「貼り付け」または「ペースト」で情報を貼り付けることができます。",
                );
                s
            },
            Some(e) => {
                let mut s =
                    "クリップボードへのコピーに失敗しました。".to_owned();
                s.push('\n');
                s.append(e);
                s
            },
        };
        self.notice = Some(shown);
        DialogStep::Redraw
    }

    /// The lines that are shown.
    pub fn body(&self, visible: usize) -> (r: String)
        requires
            self.wf(),
        ensures
            r@ == joined_lines(text_parts::lines_of(self.text@), self.scroll_line as int, visible as int),
    {
        let len: usize = self.lines.len();
        let mut r = String::new();
        let ghost all = text_parts::lines_of(self.text@);
        proof {
            assert(all == text_parts::texts(self.lines@));
        }
        if self.scroll_line >= len || visible == 0 {
            proof {
                assert(r@ =~= Seq::<char>::empty());
            }
            return r;
        }
        let mut at: usize = self.scroll_line;
        let mut left: usize = visible;
        let ghost whole = joined_lines(all, at as int, left as int);
        proof {
            assert(r@ + joined_lines(all, at as int, left as int) =~= whole);
        }
        while left > 1 && at + 1 < len
            invariant
                len == self.lines@.len(),
                all == text_parts::texts(self.lines@),
                at < len,
                left >= 1,
                r@ + joined_lines(all, at as int, left as int) == whole,
            decreases left,
        {
            let ghost before = r@;
            r.append(self.lines[at].as_str());
            r.push('\n');
            proof {
                assert(r@ =~= before + all[at as int].push('\n'));
                assert(r@ + joined_lines(all, at + 1, left - 1) =~= before + joined_lines(
                    all,
                    at as int,
                    left as int,
                ));
            }
            at = at + 1;
            left = left - 1;
        }
        r.append(self.lines[at].as_str());
        r
    }

    /// Which line of how many is the first one shown, where not all are.
    pub fn counter(&self, visible: usize) -> (r: Option<String>)
        requires
            self.wf(),
            self.scroll_line < usize::MAX,
        ensures
            match r {
                Some(s) => self.lines@.len() > visible && s@ == number_text::decimal(
                    self.scroll_line + 1,
                ) + " / "@ + number_text::decimal(self.lines@.len() as int),
                None => self.lines@.len() <= visible,
            },
    {
        let len: usize = self.lines.len();
        if len <= visible {
            return None;
        }
        let first = decimal_u64((self.scroll_line + 1) as u64);
        let count = decimal_u64(len as u64);
        let front = join(first.as_str(), " / ");
        Some(join(front.as_str(), count.as_str()))
    }
}

pub open spec fn copied_notice() -> Seq<char> {
    "情報をクリップボードにコピーしました。"@.push('\n')
        + "メモ帳などのエディタで「貼り付け」または「ペースト」で情報を貼り付けることができます。"@
}

pub open spec fn failed_notice() -> Seq<char> {
    "クリップボードへのコピーに失敗しました。"@.push('\n')
}

/// Every line of the text can be brought to view, and the first line that is
/// shown after scrolling is never one that leaves room below the text.
pub proof fn scrolling_reaches_every_line(line: int, lines: int, visible: int)
    requires
        0 <= line < lines,
        visible >= 1,
    ensures
        exists|delta: int| {
            let at = #[trigger] scrolled(0, delta, lines, visible);
            at <= line < at + visible
        },
        forall|from: int, delta: int|
            0 <= #[trigger] scrolled(from, delta, lines, visible) <= max_scroll(lines, visible),
{
    let at = scrolled(0, line, lines, visible);
    assert(at <= line < at + visible);
}

/// The arrow keys move the text by a line and the page keys by as many lines as
/// are shown, never beyond its ends, where Home and End go; back and forth again
/// shows the same line.
pub proof fn keys_move_the_text(d: DesktopChihayaBenchWindow, visible: int)
    requires
        d.notice is None,
        visible >= 1,
        d.scroll_line + visible <= d.lines@.len() || d.scroll_line == 0,
    ensures
        ({
            let lines = d.lines@.len() as int;
            let line = d.scroll_line as int;
            let last = if lines > visible {
                lines - visible
            } else {
                0
            };
            &&& line < last ==> d.key_line(DialogKey::ArrowDown, visible) == line + 1
            &&& line == last ==> d.key_line(DialogKey::ArrowDown, visible) == line
            &&& line > 0 ==> d.key_line(DialogKey::ArrowUp, visible) == line - 1
            &&& line == 0 ==> d.key_line(DialogKey::ArrowUp, visible) == 0
            &&& line + visible <= last ==> d.key_line(DialogKey::PageDown, visible) == line + visible
            &&& line + visible > last ==> d.key_line(DialogKey::PageDown, visible) == last
            &&& line >= visible ==> d.key_line(DialogKey::PageUp, visible) == line - visible
            &&& line < visible ==> d.key_line(DialogKey::PageUp, visible) == 0
            &&& d.key_line(DialogKey::Home, visible) == 0
            &&& d.key_line(DialogKey::End, visible) == last
        }),
{
}

/// A notice that is shown takes the next key or click for itself: nothing moves,
/// nothing is copied and nothing closes. Without one, Escape closes, Enter and
/// Space press the button that is selected, and the side arrows and Tab go to the
/// other one.
pub proof fn notices_take_the_next_stroke(d: DesktopChihayaBenchWindow, key: DialogKey, visible: int)
    requires
        d.selected <= 1,
    ensures
        d.notice is Some ==> d.key_line(key, visible) == d.scroll_line && d.key_selected(key)
            == d.selected && d.key_step(key) != DialogStep::Copy && d.key_step(key)
            != DialogStep::Close,
        d.notice is None ==> {
            &&& d.key_step(DialogKey::Escape) == DialogStep::Close
            &&& d.selected == 0 ==> d.key_step(DialogKey::Enter) == DialogStep::Copy && d.key_step(
                DialogKey::Space,
            ) == DialogStep::Copy
            &&& d.selected == 1 ==> d.key_step(DialogKey::Enter) == DialogStep::Close && d.key_step(
                DialogKey::Space,
            ) == DialogStep::Close
            &&& d.key_selected(DialogKey::Tab) != d.selected
            &&& d.key_selected(DialogKey::ArrowLeft) != d.selected
            &&& d.key_selected(DialogKey::ArrowRight) != d.selected
            &&& 0 <= d.key_selected(key) <= 1
        },
{
}

} // verus!
