//! The frame counters: which frame-in-flight slot is recorded, and how many
//! frames have been drawn.
use vstd::prelude::*;

use crate::resource::MAX_FRAMES_IN_FLIGHT;

verus! {

/// The slot used after `frame`.
pub open spec fn next_slot(frame: int) -> int {
    (frame + 1) % (MAX_FRAMES_IN_FLIGHT as int)
}

/// The slot used before `frame`.
pub open spec fn previous_slot(frame: int) -> int {
    (frame + MAX_FRAMES_IN_FLIGHT - 1) % (MAX_FRAMES_IN_FLIGHT as int)
}

/// Which frame-in-flight slot is being recorded, and the number of frames
/// drawn so far.
pub struct FrameManager {
    pub current_frame: usize,
    pub frame_index: u64,
}

impl FrameManager {
    /// Counters before the first frame.
    pub fn new() -> (r: Self)
        ensures
            r.current_frame == 0,
            r.frame_index == 0,
    {
        FrameManager { current_frame: 0, frame_index: 0 }
    }

    /// Moves on to the next frame: one more frame drawn, and the next slot.
    pub fn advance_frame(&mut self)
        requires
            old(self).current_frame < MAX_FRAMES_IN_FLIGHT,
            old(self).frame_index < u64::MAX,
        ensures
            final(self).frame_index == old(self).frame_index + 1,
            final(self).current_frame == next_slot(old(self).current_frame as int),
            final(self).current_frame < MAX_FRAMES_IN_FLIGHT,
    {
        self.frame_index = self.frame_index + 1;
        self.current_frame = (self.current_frame + 1) % MAX_FRAMES_IN_FLIGHT;
    }

    /// The index into the 16-long Halton sequence that jitters this frame's
    /// projection: 1 to 16, repeating every 16 frames.
    pub fn jitter_sequence_index(&self) -> (r: u32)
        ensures
            r == self.frame_index % 16 + 1,
            1 <= r <= 16,
    {
        (self.frame_index % 16) as u32 + 1
    }

    /// Whether this frame is one at which unused bottom-level acceleration
    /// structures are evicted: every hundredth frame.
    pub fn is_eviction_frame(&self) -> (r: bool)
        ensures
            r == (self.frame_index % 100 == 0),
    {
        self.frame_index % 100 == 0
    }
}

/// The slot recorded before `frame`, whose results a temporal pass reads.
pub fn previous_frame(frame: usize) -> (r: usize)
    requires
        frame < MAX_FRAMES_IN_FLIGHT,
    ensures
        r == previous_slot(frame as int),
        r < MAX_FRAMES_IN_FLIGHT,
{
    (frame + MAX_FRAMES_IN_FLIGHT - 1) % MAX_FRAMES_IN_FLIGHT
}

/// Slots cycle: the slot before the next one is the current slot, and after
/// as many frames as there are slots the same slot comes round again.
pub proof fn lemma_slots_cycle(frame: int)
    requires
        0 <= frame < MAX_FRAMES_IN_FLIGHT,
    ensures
        previous_slot(next_slot(frame)) == frame,
        next_slot(previous_slot(frame)) == frame,
        next_slot(next_slot(frame)) == frame,
{
}

} // verus!
