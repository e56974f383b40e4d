//! The authoritative replay pointers of the simulation.

use vstd::prelude::*;

use crate::frame_number::{frame_le, frame_lt, frame_min, FrameNumber};

verus! {

/// The frame from which the next replay must start (`server_frame`), and its
/// input-driven mirror (`player_frame`). Both move forward with the
/// simulation and are rewound only when input arrives for an
/// already-simulated frame.
#[derive(Clone, Copy, PartialEq, Eq, Structural, Debug)]
pub struct SimulationTime {
    pub server_frame: FrameNumber,
    pub player_frame: FrameNumber,
}

/// The time after proposing a rewind to `frame`: the replay start moves to
/// the earlier of its current value and `frame`, and `player_frame` mirrors
/// it.
pub open spec fn rewound(time: SimulationTime, frame: FrameNumber) -> SimulationTime {
    let server = frame_min(time.server_frame, frame);
    (SimulationTime { server_frame: server, player_frame: server })
}

impl SimulationTime {
    /// Both pointers start at `frame`.
    pub fn new(frame: FrameNumber) -> (r: SimulationTime)
        ensures
            r.server_frame == frame,
            r.player_frame == frame,
    {
        SimulationTime { server_frame: frame, player_frame: frame }
    }

    /// Proposes a rewind: the replay start becomes the earlier of its
    /// current value and `frame`, and `player_frame` mirrors it. Proposals
    /// from independent sources may arrive in any order; the result is their
    /// minimum.
    pub fn rewind_to(&mut self, frame: FrameNumber)
        ensures
            *final(self) == rewound(*old(self), frame),
    {
        self.server_frame = self.server_frame.min(frame);
        self.player_frame = self.server_frame;
    }
}

/// Law: a rewind to a frame strictly before the replay start moves the
/// replay start (and its mirror) to exactly that frame; a rewind to the
/// replay start or any later frame changes nothing about the start. Stated
/// for frames close enough to be comparable under the wrap-aware order.
pub proof fn lemma_rewind_propagation(time: SimulationTime, frame: FrameNumber)
    requires
        frame_le(frame, time.server_frame) || frame_le(time.server_frame, frame),
    ensures
        frame_lt(frame, time.server_frame) ==> rewound(time, frame).server_frame == frame
            && rewound(time, frame).player_frame == frame,
        frame_le(time.server_frame, frame) ==> rewound(time, frame).server_frame
            == time.server_frame && rewound(time, frame).player_frame == time.server_frame,
{
}

} // verus!
