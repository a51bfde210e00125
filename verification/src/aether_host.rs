//! The shell that an embedding host drives the engine through.
//!
//! The shell holds at most one open game. Every call of the host is answered
//! with a code, and the reason of the last refusal is kept.

use vstd::prelude::*;
use crate::number_text;
use crate::number_text::decimal_u64;
use crate::text_parts::join;

verus! {

/// The version of the interface.
pub const SIGLUS_AK_FFI_API_VERSION: u32 = 0x0001_0000;

pub const SIGLUS_AK_OK: i32 = 0;

pub const SIGLUS_AK_EXIT_REQUESTED: i32 = 1;

pub const SIGLUS_AK_INVALID_ARGUMENT: i32 = -1;

pub const SIGLUS_AK_INVALID_STATE: i32 = -2;

pub const SIGLUS_AK_NOT_SUPPORTED: i32 = -3;

pub const SIGLUS_AK_INTERNAL_ERROR: i32 = -5;

/// A button of the mouse.
#[derive(Debug, Clone, Copy, PartialEq, Eq, Structural)]
pub enum VmMouseButton {
    Left,
    Right,
    Middle,
    Other(u8),
}

/// The shell.
#[derive(Debug)]
pub struct SiglusAetherHost {
    /// Whether a game is open.
    pub open: bool,
    pub last_error: String,
}

/// How a step of the engine ended.
#[derive(Debug)]
pub enum StepOutcome {
    Running,
    /// The engine asks to quit.
    Exit,
    Failed(String),
}

/// The size of a frame and of its rows in bytes.
#[derive(Debug, Clone, Copy, PartialEq, Eq, Structural)]
pub struct FrameDesc {
    pub width: u32,
    pub height: u32,
    pub stride: u32,
}

/// The numbers of a frame that is not there.
pub open spec fn no_frame() -> FrameDesc {
    FrameDesc { width: 0, height: 0, stride: 0 }
}

pub open spec fn no_game() -> Seq<char> {
    "no game is open"@
}

impl SiglusAetherHost {
    pub fn new() -> (h: SiglusAetherHost)
        ensures
            !h.open,
            h.last_error@ == Seq::<char>::empty(),
    {
        let h = SiglusAetherHost { open: false, last_error: String::new() };
        proof {
            assert(h.last_error@ =~= Seq::<char>::empty());
        }
        h
    }

    fn refuse(&mut self, reason: &str, code: i32) -> (r: i32)
        ensures
            r == code,
            final(self).open == old(self).open,
            final(self).last_error@ == reason@,
    {
        self.last_error = reason.to_owned();
        code
    }

    /// Whether a game may be opened now. `root_error` is why the game's
    /// directory cannot be used, where it cannot.
    pub fn begin_open(&mut self, root_error: Option<&str>) -> (r: i32)
        ensures
            final(self).open == old(self).open,
            if old(self).open {
                r == SIGLUS_AK_INVALID_STATE && final(self).last_error@ == "a game is already open"@
            } else {
                match root_error {
                    Some(e) => r == SIGLUS_AK_INVALID_ARGUMENT && final(self).last_error@ == e@,
                    None => r == SIGLUS_AK_OK && final(self).last_error == old(self).last_error,
                }
            },
    {
        if self.open {
            return self.refuse("a game is already open", SIGLUS_AK_INVALID_STATE);
        }
        match root_error {
            Some(e) => self.refuse(e, SIGLUS_AK_INVALID_ARGUMENT),
            None => SIGLUS_AK_OK,
        }
    }

    /// Notes whether the game was opened, or why not.
    pub fn finish_open(&mut self, error: Option<&str>) -> (r: i32)
        ensures
            match error {
                None => r == SIGLUS_AK_OK && final(self).open && final(self).last_error == old(self).last_error,
                Some(e) => r == SIGLUS_AK_INTERNAL_ERROR && final(self).open == old(self).open
                    && final(self).last_error@ == e@,
            },
    {
        match error {
            None => {
                self.open = true;
                SIGLUS_AK_OK
            },
            Some(e) => self.refuse(e, SIGLUS_AK_INTERNAL_ERROR),
        }
    }

    /// Closes the game, if one is open.
    pub fn close(&mut self)
        ensures
            !final(self).open,
            final(self).last_error@ == Seq::<char>::empty(),
    {
        self.open = false;
        self.last_error = String::new();
        proof {
            assert(self.last_error@ =~= Seq::<char>::empty());
        }
    }

    /// Whether a call may be handed on to the game.
    pub fn with_inner(&mut self) -> (r: i32)
        ensures
            final(self).open == old(self).open,
            old(self).open ==> r == SIGLUS_AK_OK && final(self).last_error == old(self).last_error,
            !old(self).open ==> r == SIGLUS_AK_INVALID_STATE && final(self).last_error@
                == no_game(),
    {
        if self.open {
            SIGLUS_AK_OK
        } else {
            self.refuse("no game is open", SIGLUS_AK_INVALID_STATE)
        }
    }

    /// What the host is answered after a step.
    pub fn step_answer(&mut self, outcome: StepOutcome) -> (r: i32)
        requires
            old(self).open,
        ensures
            final(self).open,
            match outcome {
                StepOutcome::Running => r == SIGLUS_AK_OK && final(self).last_error == old(self).last_error,
                StepOutcome::Exit => r == SIGLUS_AK_EXIT_REQUESTED && final(self).last_error == old(self).last_error,
                StepOutcome::Failed(e) => r == SIGLUS_AK_INTERNAL_ERROR && final(self).last_error@
                    == e@,
            },
    {
        match outcome {
            StepOutcome::Running => SIGLUS_AK_OK,
            StepOutcome::Exit => SIGLUS_AK_EXIT_REQUESTED,
            StepOutcome::Failed(e) => self.refuse(e.as_str(), SIGLUS_AK_INTERNAL_ERROR),
        }
    }

    /// What the host is answered when it asks for the size of the screen. The
    /// size may be unknown.
    pub fn screen_size_answer(&mut self, size: Option<(u32, u32)>) -> (r: i32)
        ensures
            final(self).open == old(self).open,
            if !old(self).open {
                r == SIGLUS_AK_INVALID_STATE && final(self).last_error@ == no_game()
            } else {
                &&& final(self).last_error == old(self).last_error
                &&& r == (if size is Some {
                    SIGLUS_AK_OK
                } else {
                    SIGLUS_AK_NOT_SUPPORTED
                })
            },
    {
        if !self.open {
            return self.refuse("no game is open", SIGLUS_AK_INVALID_STATE);
        }
        match size {
            Some(_) => SIGLUS_AK_OK,
            None => SIGLUS_AK_NOT_SUPPORTED,
        }
    }

    /// What the host is answered when it asks for the size of the frame, and
    /// the numbers that it is given: zeros where there is no frame. A renderer
    /// with a window has none.
    pub fn frame_desc_answer(&mut self, desc: Option<FrameDesc>) -> (r: (i32, FrameDesc))
        ensures
            final(self).open == old(self).open,
            if !old(self).open {
                r.0 == SIGLUS_AK_INVALID_STATE && final(self).last_error == old(self).last_error
            } else if desc is None {
                r.0 == SIGLUS_AK_NOT_SUPPORTED && final(self).last_error@
                    == "renderer is not offscreen"@
            } else {
                r.0 == SIGLUS_AK_OK && final(self).last_error == old(self).last_error
            },
            r.1 == (match desc {
                Some(d) => if old(self).open {
                    d
                } else {
                    no_frame()
                },
                None => no_frame(),
            }),
    {
        let none = FrameDesc { width: 0, height: 0, stride: 0 };
        if !self.open {
            return (SIGLUS_AK_INVALID_STATE, none);
        }
        match desc {
            Some(d) => (SIGLUS_AK_OK, d),
            None => (self.refuse("renderer is not offscreen", SIGLUS_AK_NOT_SUPPORTED), none),
        }
    }

    /// How many bytes of the frame are to be copied to the host, or what it is
    /// answered instead.
    pub fn frame_room(&mut self, has_place: bool, desc: Option<FrameDesc>, out_size: usize) -> (r:
        Result<usize, i32>)
        requires
            desc matches Some(d) ==> d.width * d.height * 4 <= usize::MAX,
        ensures
            final(self).open == old(self).open,
            if !has_place {
                r == Err::<usize, i32>(SIGLUS_AK_INVALID_ARGUMENT) && final(self).last_error@
                    == "out_pixels is null"@
            } else if !old(self).open {
                r == Err::<usize, i32>(SIGLUS_AK_INVALID_STATE) && final(self).last_error@
                    == no_game()
            } else {
                match desc {
                    None => r == Err::<usize, i32>(SIGLUS_AK_INTERNAL_ERROR)
                        && final(self).last_error@ == "renderer is not offscreen"@,
                    Some(d) => if out_size < d.width * d.height * 4 {
                        &&& r == Err::<usize, i32>(SIGLUS_AK_INTERNAL_ERROR)
                        &&& final(self).last_error@ == "frame buffer too small: need "@
                            + number_text::decimal(d.width * d.height * 4) + " bytes, got "@
                            + number_text::decimal(out_size as int)
                    } else {
                        &&& r matches Ok(n) && n == d.width * d.height * 4
                        &&& final(self).last_error == old(self).last_error
                    },
                }
            },
    {
        if !has_place {
            return Err(self.refuse("out_pixels is null", SIGLUS_AK_INVALID_ARGUMENT));
        }
        if !self.open {
            return Err(self.refuse("no game is open", SIGLUS_AK_INVALID_STATE));
        }
        match desc {
            None => Err(self.refuse("renderer is not offscreen", SIGLUS_AK_INTERNAL_ERROR)),
            Some(d) => {
                proof {
                    let a = d.width as int;
                    let b = d.height as int;
                    assert(0 <= a * b <= a * b * 4) by (nonlinear_arith)
                        requires
                            a >= 0,
                            b >= 0,
                    ;
                }
                let needed: usize = d.width as usize * d.height as usize * 4;
                if out_size < needed {
                    let need = decimal_u64(needed as u64);
                    let got = decimal_u64(out_size as u64);
                    let a = join("frame buffer too small: need ", need.as_str());
                    let b = join(a.as_str(), " bytes, got ");
                    let message = join(b.as_str(), got.as_str());
                    return Err(self.refuse(message.as_str(), SIGLUS_AK_INTERNAL_ERROR));
                }
                Ok(needed)
            },
        }
    }
}

/// The button with a number.
pub fn map_button(button: i32) -> (r: VmMouseButton)
    ensures
        r == (match button {
            0 => VmMouseButton::Left,
            1 => VmMouseButton::Right,
            2 => VmMouseButton::Middle,
            _ => VmMouseButton::Other(
                if button < 0 {
                    0
                } else if button > 255 {
                    255
                } else {
                    button as u8
                },
            ),
        }),
{
    if button == 0 {
        VmMouseButton::Left
    } else if button == 1 {
        VmMouseButton::Right
    } else if button == 2 {
        VmMouseButton::Middle
    } else if button < 0 {
        VmMouseButton::Other(0)
    } else if button > 255 {
        VmMouseButton::Other(255)
    } else {
        VmMouseButton::Other(button as u8)
    }
}

/// A size or a time that must not be zero.
pub fn at_least_one(v: u32) -> (r: u32)
    ensures
        r == (if v == 0 {
            1
        } else {
            v
        }),
{
    if v == 0 {
        1
    } else {
        v
    }
}

/// Where something of size `inner` begins that stands in the middle of a
/// surface.
pub fn centered(surface: u32, inner: u32) -> (r: u32)
    ensures
        r == (if inner >= surface && inner >= 1 {
            0
        } else if surface == 0 {
            (1 - inner) / 2
        } else {
            (surface - inner) / 2
        }),
{
    let s: u32 = at_least_one(surface);
    if inner >= s {
        0
    } else {
        (s - inner) / 2
    }
}

/// The marked part of a text that is being composed. A negative place marks
/// nothing.
pub fn preedit_cursor(start: i32, end: i32) -> (r: Option<(usize, usize)>)
    ensures
        r == (if start >= 0 && end >= 0 {
            Some((start as usize, end as usize))
        } else {
            None
        }),
{
    if start >= 0 && end >= 0 {
        Some((start as usize, end as usize))
    } else {
        None
    }
}

/// What the host of a phone is answered after a step.
pub fn phone_step_answer(has_host: bool, outcome: &StepOutcome) -> (r: i32)
    ensures
        r == (if !has_host {
            2int
        } else {
            match *outcome {
                StepOutcome::Running => 0,
                StepOutcome::Exit => 1,
                StepOutcome::Failed(_) => 2,
            }
        }),
{
    if !has_host {
        return 2;
    }
    match outcome {
        StepOutcome::Running => 0,
        StepOutcome::Exit => 1,
        StepOutcome::Failed(_) => 2,
    }
}

} // verus!
