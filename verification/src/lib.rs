//! Frame-indexed input synchronization for a server-authoritative game
//! simulation.
//!
//! Player input arrives over an unreliable network: messages may be
//! duplicated, delayed or reordered. This library folds such input into a
//! per-frame timeline (`FrameBuffer`), bounded by a lag-compensation window,
//! and tracks how far back the simulation must rewind and replay
//! (`SimulationTime`). Raw messages are staged in `DeferredUpdates` and
//! reconciled once per simulation tick by `process_player_input_updates`.

use vstd::prelude::*;

pub mod deferred;
pub mod frame_buffer;
pub mod frame_number;
pub mod player;
pub mod reconciliation;
pub mod simulation_time;

verus! {

/// Maximum number of frames a player's reconciled-input history retains on
/// the server.
pub const SERVER_UPDATES_LIMIT: u16 = 64;

/// Budget, in milliseconds, for how old a late-arriving input may be and
/// still be backfilled into history.
pub const MAX_LAG_COMPENSATION_MSEC: u16 = 200;

/// Fixed rate of the simulation, in ticks per second.
pub const SIMULATIONS_PER_SECOND: u16 = 120;

/// Number of trailing frames covered by the lag-compensation budget:
/// the millisecond budget divided by the tick duration, rounded down.
pub open spec fn lag_compensated_frames_spec() -> int {
    MAX_LAG_COMPENSATION_MSEC as int * SIMULATIONS_PER_SECOND as int / 1000
}

/// Computes the lag-compensation window length in frames.
pub fn lag_compensated_frames() -> (r: u16)
    ensures
        r == lag_compensated_frames_spec(),
{
    (MAX_LAG_COMPENSATION_MSEC as u32 * SIMULATIONS_PER_SECOND as u32 / 1000) as u16
}

} // verus!
