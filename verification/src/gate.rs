//! The transition gate: tracks whether a non-blocking visual effect is
//! playing and, while it is, withholds input processing so the effect
//! completes undisturbed.

use vstd::prelude::*;

verus! {

/// Whether a visual transition effect is currently playing.
///
/// While `Playing`, the event loop redraws and sleeps briefly instead
/// of consuming input; events stay pending in the input source.  A playing
/// effect becomes `Idle` on its own once its duration has elapsed; that
/// check happens once per tick of the loop.
#[derive(Clone, Copy, Debug, PartialEq, Eq, Structural)]
pub enum Gate {
    Idle,
    Playing { start_ms: u64, duration_ms: u64 },
}

impl Gate {
    /// Whether input processing is currently withheld.
    pub open spec fn spec_is_playing(self) -> bool {
        self is Playing
    }

    pub fn is_playing(&self) -> (r: bool)
        ensures
            r == self.spec_is_playing(),
    {
        match self {
            Gate::Playing { .. } => true,
            Gate::Idle => false,
        }
    }

    /// The value after one tick at time `now_ms`: a playing effect
    /// whose duration has elapsed becomes idle; nothing else changes.
    pub open spec fn spec_tick(self, now_ms: u64) -> Gate {
        match self {
            Gate::Idle => Gate::Idle,
            Gate::Playing { start_ms, duration_ms } => if now_ms >= start_ms + duration_ms {
                Gate::Idle
            } else {
                self
            },
        }
    }

    /// Advance by one tick at time `now_ms`.
    pub fn tick(&mut self, now_ms: u64)
        ensures
            *final(self) == old(self).spec_tick(now_ms),
    {
        match *self {
            Gate::Playing { start_ms, duration_ms } => {
                if now_ms >= start_ms && now_ms - start_ms >= duration_ms {
                    *self = Gate::Idle;
                }
            },
            Gate::Idle => {},
        }
    }
}

} // verus!
