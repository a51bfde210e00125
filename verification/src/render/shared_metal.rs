//! Render targets that the host shares with the engine.
//!
//! The host hands over a target for each frame. A target is kept until all are
//! cleared, and it is shown once the graphics queue has finished writing it.

use vstd::prelude::*;
use crate::table;
use crate::table::{Table, TableKey};

verus! {

/// How many targets the host may hand over before it clears them.
pub const MAX_TARGETS: usize = 8;

/// What a texture of the host is, as far as the engine must know.
#[derive(Debug, Clone, Copy, PartialEq, Eq, Structural)]
pub struct TargetFacts {
    pub width: u64,
    pub height: u64,
    /// Whether its pixels have four bytes in the order blue, green, red and
    /// alpha.
    pub is_bgra8: bool,
    /// Whether it belongs to the engine's device.
    pub same_device: bool,
}

#[derive(Debug, Clone, Copy, PartialEq, Eq, Structural)]
pub enum TargetError {
    SizeMismatch,
    WrongFormat,
    OtherDevice,
    TooManyTargets,
    Released,
}

/// What is to be done with a target that was handed over.
#[derive(Debug, Clone, Copy, PartialEq, Eq, Structural)]
pub enum SelectStep {
    /// Show nothing for now.
    Park,
    /// Use the target that is known.
    Use,
    /// Take the target over.
    Import,
}

/// The targets by their addresses, and whether each is written.
#[derive(Debug)]
pub struct SharedMetalPresenter {
    pub enabled: bool,
    pub active: Option<usize>,
    pub targets: Table<usize, bool>,
}

/// Why a target cannot be used, where it cannot.
pub open spec fn refusal(
    known: bool,
    count: int,
    facts: TargetFacts,
    width: int,
    height: int,
) -> Option<TargetError> {
    if facts.width != width || facts.height != height {
        Some(TargetError::SizeMismatch)
    } else if !facts.is_bgra8 {
        Some(TargetError::WrongFormat)
    } else if !facts.same_device {
        Some(TargetError::OtherDevice)
    } else if !known && count >= MAX_TARGETS {
        Some(TargetError::TooManyTargets)
    } else {
        None
    }
}

impl SharedMetalPresenter {
    pub open spec fn wf(&self) -> bool {
        self.targets.entries@.len() <= MAX_TARGETS
    }

    pub fn new() -> (p: SharedMetalPresenter)
        ensures
            p.wf(),
            !p.enabled,
            p.active is None,
            p.targets.entries@.len() == 0,
    {
        SharedMetalPresenter { enabled: false, active: None, targets: Table::new() }
    }

    /// Selects a target for the next frame. The address 0 stands for none.
    pub fn select(&mut self, key: usize, facts: TargetFacts, width: u32, height: u32) -> (r: Result<
        SelectStep,
        TargetError,
    >)
        requires
            old(self).wf(),
        ensures
            final(self).wf(),
            ({
                let before = old(self).targets.entries@;
                let known = table::has_key(before, key);
                let no = refusal(known, before.len() as int, facts, width as int, height as int);
                if key == 0 {
                    &&& r == Ok::<SelectStep, TargetError>(SelectStep::Park)
                    &&& final(self).enabled
                    &&& final(self).active is None
                    &&& final(self).targets == old(self).targets
                } else if no is Some {
                    &&& r == Err::<SelectStep, TargetError>(no->0)
                    &&& final(self).enabled == old(self).enabled
                    &&& final(self).active is None
                    &&& final(self).targets == old(self).targets
                } else {
                    &&& final(self).enabled
                    &&& final(self).active == Some(key)
                    &&& if known {
                        r == Ok::<SelectStep, TargetError>(SelectStep::Use) && final(self).targets
                            == old(self).targets
                    } else {
                        r == Ok::<SelectStep, TargetError>(SelectStep::Import) && final(self).targets.entries@ == before.push((key, true))
                    }
                }
            }),
    {
        self.active = None;
        if key == 0 {
            self.enabled = true;
            return Ok(SelectStep::Park);
        }
        if facts.width != width as u64 || facts.height != height as u64 {
            return Err(TargetError::SizeMismatch);
        }
        if !facts.is_bgra8 {
            return Err(TargetError::WrongFormat);
        }
        if !facts.same_device {
            return Err(TargetError::OtherDevice);
        }
        let known: bool = self.targets.contains_key(&key);
        if !known {
            if self.targets.entries.len() >= MAX_TARGETS {
                return Err(TargetError::TooManyTargets);
            }
            self.targets.insert(key, true);
        }
        self.enabled = true;
        self.active = Some(key);
        if known {
            Ok(SelectStep::Use)
        } else {
            Ok(SelectStep::Import)
        }
    }

    /// Lets all targets go.
    pub fn clear(&mut self)
        ensures
            final(self).wf(),
            !final(self).enabled,
            final(self).active is None,
            final(self).targets.entries@.len() == 0,
    {
        self.enabled = false;
        self.active = None;
        self.targets = Table::new();
    }

    /// The target that a frame is written to now. It counts as unfinished from
    /// here on.
    pub fn present(&mut self) -> (r: Result<Option<usize>, TargetError>)
        requires
            old(self).wf(),
        ensures
            final(self).wf(),
            final(self).enabled == old(self).enabled,
            final(self).active == old(self).active,
            match old(self).active {
                None => r == Ok::<Option<usize>, TargetError>(None) && final(self).targets == old(self).targets,
                Some(key) => if table::has_key(old(self).targets.entries@, key) {
                    &&& r == Ok::<Option<usize>, TargetError>(Some(key))
                    &&& final(self).targets.entries@ == table::put(
                        old(self).targets.entries@,
                        key,
                        false,
                    )
                } else {
                    r == Err::<Option<usize>, TargetError>(TargetError::Released) && final(self).targets == old(self).targets
                },
            },
    {
        match self.active {
            None => Ok(None),
            Some(key) => {
                if !self.targets.contains_key(&key) {
                    return Err(TargetError::Released);
                }
                self.targets.insert(key, false);
                Ok(Some(key))
            },
        }
    }

    /// Notes that the queue has finished writing a target.
    pub fn finished(&mut self, key: usize)
        requires
            old(self).wf(),
        ensures
            final(self).wf(),
            final(self).enabled == old(self).enabled,
            final(self).active == old(self).active,
            final(self).targets.entries@ == (if table::has_key(old(self).targets.entries@, key) {
                table::put(old(self).targets.entries@, key, true)
            } else {
                old(self).targets.entries@
            }),
    {
        if self.targets.contains_key(&key) {
            self.targets.insert(key, true);
        }
    }

    /// Whether a target is known and written.
    pub fn target_ready(&self, key: usize) -> (r: bool)
        ensures
            r == (table::has_key(self.targets.entries@, key) && table::value_under(
                self.targets.entries@,
                key,
            )),
    {
        match self.targets.find(&key) {
            Some(i) => self.targets.entries[i].1,
            None => false,
        }
    }
}

/// A target is not ready from when a frame is written to it until the queue
/// has finished.
pub proof fn target_is_ready_only_when_finished(targets: Seq<(usize, bool)>, key: usize)
    requires
        table::has_key(targets, key),
    ensures
        !table::value_under(table::put(targets, key, false), key),
        table::value_under(table::put(table::put(targets, key, false), key, true), key),
{
    table::put_value_is_found(targets, key, false);
    table::put_value_is_found(table::put(targets, key, false), key, true);
}

/// A target is refused for what is wrong with it: its size before its format, its format before
/// its device, and only a new one for want of room.
pub proof fn targets_are_refused_for_what_is_wrong(
    known: bool,
    count: int,
    facts: TargetFacts,
    width: int,
    height: int,
)
    ensures
        refusal(known, count, facts, width, height) is None <==> {
            &&& facts.width == width
            &&& facts.height == height
            &&& facts.is_bgra8
            &&& facts.same_device
            &&& known || count < MAX_TARGETS
        },
        facts.width != width ==> refusal(known, count, facts, width, height) == Some(
            TargetError::SizeMismatch,
        ),
        facts.height != height ==> refusal(known, count, facts, width, height) == Some(
            TargetError::SizeMismatch,
        ),
        facts.width == width && facts.height == height ==> (!facts.is_bgra8 <==> refusal(
            known,
            count,
            facts,
            width,
            height,
        ) == Some(TargetError::WrongFormat)),
        refusal(known, count, facts, width, height) == Some(TargetError::TooManyTargets)
            ==> !known && count >= MAX_TARGETS && facts.same_device,
{
}

} // verus!
