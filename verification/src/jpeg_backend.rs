//! The buffer that a host's own JPEG decoder fills.

use vstd::prelude::*;

verus! {

/// The largest buffer that is offered to a host's decoder. The size comes
/// from a file that has not been checked yet.
pub const MAX_DECODED_BYTES: usize = 268435456;

/// The bytes of an image with four bytes per pixel, where the host's decoder
/// is asked for one of that size.
pub open spec fn offered_len(width: u32, height: u32) -> Option<int> {
    let len = width * height * 4;
    if len == 0 || len > MAX_DECODED_BYTES {
        None
    } else {
        Some(len)
    }
}

/// The size of the buffer for an image, or `None` where the host's decoder is
/// not asked.
pub fn buffer_len(width: u32, height: u32) -> (r: Option<usize>)
    ensures
        match r {
            Some(n) => offered_len(width, height) == Some(n as int),
            None => offered_len(width, height) is None,
        },
{
    proof {
        assert(0 <= width * height <= 0xffff_ffff * 0xffff_ffff) by (nonlinear_arith)
            requires
                0 <= width <= 0xffff_ffff,
                0 <= height <= 0xffff_ffff,
        ;
    }
    let pixels: u64 = width as u64 * height as u64;
    if pixels == 0 || pixels > 67108864 {
        None
    } else {
        Some((pixels * 4) as usize)
    }
}

/// A buffer of zeros for an image, where the host's decoder is asked.
pub fn prepare(width: u32, height: u32) -> (r: Option<Vec<u8>>)
    ensures
        match r {
            Some(pixels) => offered_len(width, height) == Some(pixels@.len() as int) && forall|
                i: int,
            |
                0 <= i < pixels@.len() ==> pixels@[i] == 0,
            None => offered_len(width, height) is None,
        },
{
    match buffer_len(width, height) {
        Some(n) => {
            let mut pixels: Vec<u8> = Vec::new();
            pixels.resize(n, 0);
            Some(pixels)
        },
        None => None,
    }
}

/// The pixels that a host's decoder has filled in, where it succeeded.
pub fn accept(status: i32, pixels: Vec<u8>) -> (r: Option<Vec<u8>>)
    ensures
        r == (if status == 0 {
            Some(pixels)
        } else {
            None
        }),
{
    if status == 0 {
        Some(pixels)
    } else {
        None
    }
}

} // verus!
