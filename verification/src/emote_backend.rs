//! Players of animated characters that the host's library draws.
//!
//! A player may be shared by several owners, such as saved states. An owner
//! that changes a shared player gets a copy of its own.

use vstd::prelude::*;
use vstd::utf8;

verus! {

/// How many sources a player may have.
pub const MAX_SOURCES: usize = 64;

/// How many bytes a picture of a player may have.
pub const MAX_TARGET_BYTES: usize = 268_435_456;

/// The version of the interface.
pub const BACKEND_VERSION: u32 = 1;

/// The bytes of a file that a player is made of.
#[derive(Debug)]
pub struct Source {
    pub bytes: Vec<u8>,
    pub size: usize,
}

impl Source {
    pub open spec fn wf(&self) -> bool {
        self.size == self.bytes@.len()
    }
}

#[derive(Debug, Clone, Copy, PartialEq, Eq, Structural)]
pub enum EmoteError {
    SourceCount,
    SizeOverflow,
    TargetTooLarge,
}

/// Which functions a backend has.
#[derive(Debug, Clone, Copy, PartialEq, Eq, Structural)]
pub struct BackendFacts {
    pub version: u32,
    pub size: u32,
    pub create: bool,
    pub destroy: bool,
    pub clone_player: bool,
    pub control: bool,
    pub render_rgba: bool,
}

pub open spec fn is_complete(b: BackendFacts, expected_size: int) -> bool {
    &&& b.version == BACKEND_VERSION
    &&& b.size == expected_size
    &&& b.create
    &&& b.destroy
    &&& b.clone_player
    &&& b.control
    &&& b.render_rgba
}

/// What the host is answered when it registers a backend. It must be complete,
/// and the first.
pub fn register_answer(backend: Option<BackendFacts>, expected_size: u32, taken: bool) -> (r: i32)
    ensures
        r == (match backend {
            None => -1int,
            Some(b) => if !is_complete(b, expected_size as int) {
                -1
            } else if taken {
                -2
            } else {
                0
            },
        }),
{
    match backend {
        None => -1,
        Some(b) => {
            if b.version != BACKEND_VERSION || b.size != expected_size || !b.create || !b.destroy
                || !b.clone_player || !b.control || !b.render_rgba {
                -1
            } else if taken {
                -2
            } else {
                0
            }
        },
    }
}

/// The sources of a player. There must be one at least, and not too many.
pub fn sources(files: Vec<Vec<u8>>) -> (r: Result<Vec<Source>, EmoteError>)
    ensures
        match r {
            Ok(list) => {
                &&& 1 <= files@.len() <= MAX_SOURCES
                &&& list@.len() == files@.len()
                &&& forall|i: int|
                    0 <= i < files@.len() ==> (#[trigger] list@[i]).wf() && list@[i].bytes@
                        == files@[i]@
            },
            Err(e) => e == EmoteError::SourceCount && (files@.len() == 0 || files@.len()
                > MAX_SOURCES),
        },
{
    let n: usize = files.len();
    if n == 0 || n > MAX_SOURCES {
        return Err(EmoteError::SourceCount);
    }
    let mut list: Vec<Source> = Vec::new();
    let mut i: usize = 0;
    while i < n
        invariant
            n == files@.len(),
            i <= n,
            list@.len() == i,
            forall|k: int|
                0 <= k < i ==> (#[trigger] list@[k]).wf() && list@[k].bytes@ == files@[k]@,
        decreases n - i,
    {
        let bytes: Vec<u8> = vstd::slice::slice_to_vec(files[i].as_slice());
        let size: usize = bytes.len();
        list.push(Source { bytes, size });
        i = i + 1;
    }
    Ok(list)
}

/// How many bytes a picture of this size has. It must have some, and not too
/// many.
pub fn target_size(width: u32, height: u32) -> (r: Result<usize, EmoteError>)
    ensures
        match r {
            Ok(n) => n == width * height * 4 && 0 < n <= MAX_TARGET_BYTES,
            Err(EmoteError::SizeOverflow) => width * height * 4 > usize::MAX,
            Err(EmoteError::TargetTooLarge) => width * height * 4 <= usize::MAX && (width * height
                * 4 == 0 || width * height * 4 > MAX_TARGET_BYTES),
            Err(EmoteError::SourceCount) => false,
        },
{
    let area: usize = match (width as usize).checked_mul(height as usize) {
        Some(n) => n,
        None => {
            return Err(EmoteError::SizeOverflow);
        },
    };
    let size: usize = match area.checked_mul(4) {
        Some(n) => n,
        None => {
            return Err(EmoteError::SizeOverflow);
        },
    };
    if size == 0 || size > MAX_TARGET_BYTES {
        return Err(EmoteError::TargetTooLarge);
    }
    Ok(size)
}

/// The text at the front of `s`, up to the first zero.
pub open spec fn up_to_zero(s: Seq<u8>) -> Seq<u8>
    decreases s.len(),
{
    if s.len() == 0 || s[0] == 0 {
        Seq::empty()
    } else {
        seq![s[0]] + up_to_zero(s.drop_first())
    }
}

/// What `String::from_utf8_lossy` makes of bytes.
pub uninterp spec fn utf8_lossy(bytes: Seq<u8>) -> Seq<char>;

/// `String::from_utf8_lossy` decodes bytes, and depends on them alone. Bytes
/// that are valid UTF-8 become the text that they encode.
#[verifier::external_body]
fn decode_lossy(bytes: &[u8]) -> (s: String)
    ensures
        s@ == utf8_lossy(bytes@),
        utf8::valid_utf8(bytes@) ==> s@ == utf8::decode_utf8(bytes@),
{
    String::from_utf8_lossy(bytes).into_owned()
}

/// The reason that a message says, or a general one where it says none.
pub fn reason(message: String) -> (s: String)
    ensures
        s@ == (if message@.len() == 0 {
            "host E-mote backend failed"@
        } else {
            message@
        }),
{
    if message.as_str().unicode_len() == 0 {
        "host E-mote backend failed".to_owned()
    } else {
        message
    }
}

/// The reason that a backend left in its buffer.
pub fn error_text(error: &[u8]) -> (s: String)
    ensures
        ({
            let message = utf8_lossy(up_to_zero(error@));
            s@ == (if message.len() == 0 {
                "host E-mote backend failed"@
            } else {
                message
            })
        }),
{
    let mut bytes: Vec<u8> = Vec::new();
    let mut i: usize = 0;
    proof {
        assert(error@.skip(0) =~= error@);
        assert(bytes@ + up_to_zero(error@) =~= up_to_zero(error@));
    }
    while i < error.len() && error[i] != 0
        invariant
            i <= error@.len(),
            bytes@ + up_to_zero(error@.skip(i as int)) == up_to_zero(error@),
        decreases error@.len() - i,
    {
        let ghost rest = error@.skip(i as int);
        let ghost before = bytes@;
        bytes.push(error[i]);
        i = i + 1;
        proof {
            assert(rest.drop_first() =~= error@.skip(i as int));
            assert(bytes@ + up_to_zero(error@.skip(i as int)) =~= before + up_to_zero(rest));
        }
    }
    proof {
        assert(bytes@ =~= up_to_zero(error@));
    }
    reason(decode_lossy(bytes.as_slice()))
}

/// A player of the backend and how many share it.
#[derive(Debug, Clone, Copy, PartialEq, Eq, Structural)]
pub struct Instance {
    pub handle: u64,
    pub owners: usize,
}

/// The players. An owner knows its player by its number.
#[derive(Debug)]
pub struct Players {
    pub instances: Vec<Instance>,
}

/// What is to be done before a player is changed.
#[derive(Debug, Clone, Copy, PartialEq, Eq, Structural)]
pub enum ControlStep {
    /// Change the player with this handle.
    Use(u64),
    /// Others share the player: copy it, and call `forked`.
    Fork(u64),
}

/// The players with one more owner of one of them.
pub open spec fn shared(instances: Seq<Instance>, id: int) -> Seq<Instance> {
    instances.update(
        id,
        Instance { owners: (instances[id].owners + 1) as usize, ..instances[id] },
    )
}

/// The players with one owner less of one of them.
pub open spec fn released(instances: Seq<Instance>, id: int) -> Seq<Instance> {
    instances.update(
        id,
        Instance { owners: (instances[id].owners - 1) as usize, ..instances[id] },
    )
}

/// The players after an owner of a shared one got a copy of it.
pub open spec fn split_off(instances: Seq<Instance>, id: int, handle: u64) -> Seq<Instance> {
    released(instances, id).push(Instance { handle, owners: 1 })
}

/// A player that was shared and then copied for the new owner is as it was
/// before, and the copy has that owner alone.
pub proof fn copies_own_their_state(before: Seq<Instance>, id: int, handle: u64)
    requires
        0 <= id < before.len(),
        0 < before[id].owners < usize::MAX,
    ensures
        shared(before, id)[id].owners > 1,
        split_off(shared(before, id), id, handle) == before.push(Instance { handle, owners: 1 }),
{
    assert(split_off(shared(before, id), id, handle) =~= before.push(
        Instance { handle, owners: 1 },
    ));
}

impl Players {
    /// Whether someone owns the player with a number.
    pub open spec fn lives(&self, id: int) -> bool {
        0 <= id < self.instances@.len() && self.instances@[id].owners > 0
    }

    pub fn new() -> (p: Players)
        ensures
            p.instances@.len() == 0,
    {
        Players { instances: Vec::new() }
    }

    /// Takes in a new player with one owner.
    pub fn created(&mut self, handle: u64) -> (id: usize)
        ensures
            id == old(self).instances@.len(),
            final(self).instances@ == old(self).instances@.push(Instance { handle, owners: 1 }),
    {
        let id: usize = self.instances.len();
        self.instances.push(Instance { handle, owners: 1 });
        id
    }

    /// Notes one more owner.
    pub fn share(&mut self, id: usize)
        requires
            old(self).lives(id as int),
            old(self).instances@[id as int].owners < usize::MAX,
        ensures
            final(self).instances@ == shared(old(self).instances@, id as int),
    {
        let e: Instance = self.instances[id];
        self.instances.set(id, Instance { handle: e.handle, owners: e.owners + 1 });
    }

    /// What is to be done before an owner changes its player.
    pub fn control_step(&self, id: usize) -> (r: ControlStep)
        requires
            self.lives(id as int),
        ensures
            r == (if self.instances@[id as int].owners > 1 {
                ControlStep::Fork(self.instances@[id as int].handle)
            } else {
                ControlStep::Use(self.instances@[id as int].handle)
            }),
    {
        let e: Instance = self.instances[id];
        if e.owners > 1 {
            ControlStep::Fork(e.handle)
        } else {
            ControlStep::Use(e.handle)
        }
    }

    /// Gives an owner the copy of a shared player.
    pub fn forked(&mut self, id: usize, handle: u64) -> (new_id: usize)
        requires
            old(self).lives(id as int),
            old(self).instances@[id as int].owners > 1,
        ensures
            new_id == old(self).instances@.len(),
            final(self).instances@ == split_off(old(self).instances@, id as int, handle),
    {
        let e: Instance = self.instances[id];
        self.instances.set(id, Instance { handle: e.handle, owners: e.owners - 1 });
        self.created(handle)
    }

    /// Notes one owner less. The last owner's player is to be destroyed.
    pub fn release(&mut self, id: usize) -> (r: Option<u64>)
        requires
            old(self).lives(id as int),
        ensures
            final(self).instances@ == released(old(self).instances@, id as int),
            r == (if old(self).instances@[id as int].owners == 1 {
                Some(old(self).instances@[id as int].handle)
            } else {
                None
            }),
            r is Some <==> !final(self).lives(id as int),
    {
        let e: Instance = self.instances[id];
        self.instances.set(id, Instance { handle: e.handle, owners: e.owners - 1 });
        if e.owners == 1 {
            Some(e.handle)
        } else {
            None
        }
    }
}

/// A text of the host ends at its first zero byte, and what stands behind it does
/// not count.
pub proof fn texts_end_at_the_first_zero(front: Seq<u8>, behind: Seq<u8>)
    requires
        forall|i: int| 0 <= i < front.len() ==> #[trigger] front[i] != 0,
    ensures
        up_to_zero(front.push(0) + behind) == front,
        up_to_zero(front) == front,
    decreases front.len(),
{
    let s = front.push(0) + behind;
    if front.len() > 0 {
        let rest = front.drop_first();
        assert forall|i: int| 0 <= i < rest.len() implies #[trigger] rest[i] != 0 by {
            assert(rest[i] == front[i + 1]);
        }
        texts_end_at_the_first_zero(rest, behind);
        assert(front[0] != 0);
        assert(s.drop_first() =~= rest.push(0) + behind);
        assert(seq![front[0]] + rest =~= front);
    } else {
        assert(front =~= Seq::<u8>::empty());
    }
}

} // verus!
