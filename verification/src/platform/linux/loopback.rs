//! System audio on Linux: the default sink's monitor, read in short blocks.
//! Opening the monitor and reading it are the caller's; how large a block
//! is, is here.

use vstd::prelude::*;

verus! {

/// How much audio one monitor read covers, in milliseconds.
pub const READ_MS: u32 = 20;

/// Frames per read at `rate`: `READ_MS` worth, at least one.
pub open spec fn read_frames_spec(rate: u32) -> nat {
    let f = (rate as nat * READ_MS as nat) / 1000;
    if f < 1 {
        1
    } else {
        f
    }
}

/// Frames per monitor read at `rate` frames a second.
pub fn read_frames(rate: u32) -> (r: u32)
    requires
        rate as nat * READ_MS as nat <= u32::MAX as nat,
    ensures
        r as nat == read_frames_spec(rate),
{
    let f = rate * READ_MS / 1000;
    if f < 1 {
        1
    } else {
        f
    }
}

/// Samples in one read's buffer: its frames times the channels.
pub fn read_buffer_len(rate: u32, channels: u8) -> (r: usize)
    requires
        rate as nat * READ_MS as nat <= u32::MAX as nat,
        read_frames_spec(rate) * channels as nat <= usize::MAX as nat,
    ensures
        r as nat == read_frames_spec(rate) * channels as nat,
{
    let frames = read_frames(rate) as usize;
    frames * channels as usize
}

} // verus!
