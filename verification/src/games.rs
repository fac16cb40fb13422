//! The per-game state machines.
//!
//! Each game is driven one frame at a time: the host hands in the frame's
//! user interaction and the current clock reading in milliseconds, and the
//! game advances its own phase, timers and captured input. All waiting is
//! realized by comparing the stored start time against the clock on every
//! call; nothing blocks.
pub mod inumbs;
pub mod reading_speed;
pub mod text_comprehension;
pub mod word_memory;

use vstd::prelude::*;

verus! {

/// One frame's worth of user interaction, as collected by the host.
pub struct FrameInput {
    /// The "back to menu" affordance was activated.
    pub menu: bool,
    /// The phase's primary button (start / confirm / finish) was activated.
    pub primary: bool,
    /// Forward navigation (next question).
    pub next: bool,
    /// Backward navigation (previous question).
    pub prev: bool,
    /// A multiple-choice option was selected.
    pub select: Option<usize>,
    /// Current contents of the single free-text field.
    pub text: String,
    /// Current contents of the per-slot text fields.
    pub slots: Vec<String>,
}

impl FrameInput {
    /// A frame with no interaction at all.
    pub fn idle() -> (r: FrameInput)
        ensures
            !r.menu,
            !r.primary,
            !r.next,
            !r.prev,
            r.select is None,
            r.text@ == Seq::<char>::empty(),
            r.slots@ =~= Seq::<String>::empty(),
    {
        FrameInput {
            menu: false,
            primary: false,
            next: false,
            prev: false,
            select: None,
            text: String::new(),
            slots: Vec::new(),
        }
    }
}

/// Milliseconds elapsed from `start` to `now` on a clock that never runs
/// backwards; reads as zero if it did.
pub open spec fn elapsed_ms(now: int, start: int) -> int {
    if now >= start {
        now - start
    } else {
        0
    }
}

/// Whether a display period of `dur` milliseconds begun at `start` is over.
pub open spec fn period_expired(now: int, start: int, dur: int) -> bool {
    elapsed_ms(now, start) >= dur
}

/// Executable twin of `elapsed_ms`.
pub fn elapsed_since(now_ms: u64, start_ms: u64) -> (r: u64)
    ensures
        r == elapsed_ms(now_ms as int, start_ms as int),
{
    if now_ms >= start_ms {
        now_ms - start_ms
    } else {
        0
    }
}

} // verus!
