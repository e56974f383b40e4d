use frame_sync::deferred::DeferredUpdates;
use frame_sync::frame_number::FrameNumber;
use frame_sync::lag_compensated_frames;
use frame_sync::player::{PlayerDirection, PlayerInput, PlayerNetId, PlayerUpdates};
use frame_sync::reconciliation::{
    dedup_by_frame, process_player_input_updates, sort_updates_by_frame, ConnectionState,
};
use frame_sync::simulation_time::SimulationTime;
use frame_sync::SERVER_UPDATES_LIMIT;

fn frame(v: u16) -> FrameNumber {
    FrameNumber::new(v)
}

fn dir(x: i32, y: i32) -> PlayerDirection {
    PlayerDirection { x, y }
}

fn input(frame_value: u16, d: PlayerDirection) -> PlayerInput {
    PlayerInput { frame_number: frame(frame_value), direction: d }
}

fn acked(player: PlayerNetId, ack: u16) -> (PlayerNetId, ConnectionState) {
    (player, ConnectionState { incoming_acknowledgment: Some(frame(ack)) })
}

/// Reads the committed direction at `f`, if any.
fn direction_at(updates: &mut PlayerUpdates, player: PlayerNetId, f: u16) -> Option<PlayerDirection> {
    let buffer = updates.get_direction_mut(player, frame(f), SERVER_UPDATES_LIMIT);
    buffer.get(frame(f)).map(|u| u.direction)
}

#[test]
fn lag_window_is_24_frames() {
    // 200 ms at 120 simulations per second, rounded down.
    assert_eq!(lag_compensated_frames(), 24);
}

#[test]
fn fill_range_correctness() {
    // Updates at frames [5, 9, 20] with directions [A, B, C], acknowledged
    // frame 25, min_frame_number 0: A fills [5..8], B [9..19], C [20..25].
    let a = dir(1, 0);
    let b = dir(0, 1);
    let c = dir(1, 1);
    let player = PlayerNetId::new(1);
    let mut deferred: DeferredUpdates<PlayerInput> = DeferredUpdates::new();
    deferred.push(player, input(5, a));
    deferred.push(player, input(9, b));
    deferred.push(player, input(20, c));
    let connections = vec![acked(player, 25)];
    let mut time = SimulationTime::new(frame(24));
    let mut updates = PlayerUpdates::new();
    // current frame 24 makes min_frame_number 24 - 24 = 0
    let conflicts =
        process_player_input_updates(frame(24), &connections, &mut time, &mut updates, &mut deferred);
    assert!(conflicts.is_empty());
    for f in 5..=8u16 {
        assert_eq!(direction_at(&mut updates, player, f), Some(a));
    }
    for f in 9..=19u16 {
        assert_eq!(direction_at(&mut updates, player, f), Some(b));
    }
    for f in 20..=25u16 {
        assert_eq!(direction_at(&mut updates, player, f), Some(c));
    }
    assert_eq!(direction_at(&mut updates, player, 26), None);
}

#[test]
fn redelivery_is_idempotent() {
    // Delivering the same (player, frame, direction) triple several times
    // yields the same committed history as delivering it once.
    let d = dir(2, 3);
    let player = PlayerNetId::new(7);
    let connections = vec![acked(player, 12)];

    let mut deferred_once: DeferredUpdates<PlayerInput> = DeferredUpdates::new();
    deferred_once.push(player, input(10, d));
    let mut time_once = SimulationTime::new(frame(12));
    let mut updates_once = PlayerUpdates::new();
    let conflicts_once = process_player_input_updates(
        frame(12),
        &connections,
        &mut time_once,
        &mut updates_once,
        &mut deferred_once,
    );

    let mut deferred_many: DeferredUpdates<PlayerInput> = DeferredUpdates::new();
    for _ in 0..4 {
        deferred_many.push(player, input(10, d));
    }
    let mut time_many = SimulationTime::new(frame(12));
    let mut updates_many = PlayerUpdates::new();
    let conflicts_many = process_player_input_updates(
        frame(12),
        &connections,
        &mut time_many,
        &mut updates_many,
        &mut deferred_many,
    );

    assert_eq!(conflicts_once.len(), 0);
    assert_eq!(conflicts_many.len(), 0);
    assert_eq!(time_once, time_many);
    for f in 0..30u16 {
        assert_eq!(
            direction_at(&mut updates_once, player, f),
            direction_at(&mut updates_many, player, f)
        );
    }
}

#[test]
fn conflicting_update_is_discarded_and_reported() {
    // A committed value is never overwritten; the conflicting write is
    // observable in the returned conflicts.
    let a = dir(1, 0);
    let b = dir(-1, 0);
    let player = PlayerNetId::new(3);
    let connections = vec![acked(player, 10)];
    let mut time = SimulationTime::new(frame(10));
    let mut updates = PlayerUpdates::new();

    let mut deferred: DeferredUpdates<PlayerInput> = DeferredUpdates::new();
    deferred.push(player, input(10, a));
    let first =
        process_player_input_updates(frame(10), &connections, &mut time, &mut updates, &mut deferred);
    assert!(first.is_empty());
    assert_eq!(direction_at(&mut updates, player, 10), Some(a));

    let mut deferred2: DeferredUpdates<PlayerInput> = DeferredUpdates::new();
    deferred2.push(player, input(10, b));
    let second =
        process_player_input_updates(frame(10), &connections, &mut time, &mut updates, &mut deferred2);
    assert_eq!(direction_at(&mut updates, player, 10), Some(a));
    assert_eq!(second.len(), 1);
    assert_eq!(second[0].player, player);
    assert_eq!(second[0].frame_number, frame(10));
    assert_eq!(second[0].existing.direction, a);
    assert_eq!(second[0].incoming, b);
}

#[test]
fn old_update_is_clamped_to_the_lag_window() {
    // current frame 100 puts min_frame_number at 76: an update claiming
    // frame 0 only fills from 76 on, never older frames.
    let d = dir(4, 4);
    let player = PlayerNetId::new(9);
    let connections = vec![acked(player, 100)];
    let mut time = SimulationTime::new(frame(100));
    let mut updates = PlayerUpdates::new();
    let mut deferred: DeferredUpdates<PlayerInput> = DeferredUpdates::new();
    deferred.push(player, input(0, d));
    let conflicts =
        process_player_input_updates(frame(100), &connections, &mut time, &mut updates, &mut deferred);
    assert!(conflicts.is_empty());
    assert_eq!(direction_at(&mut updates, player, 0), None);
    assert_eq!(direction_at(&mut updates, player, 50), None);
    assert_eq!(direction_at(&mut updates, player, 75), None);
    for f in 76..=100u16 {
        assert_eq!(direction_at(&mut updates, player, f), Some(d));
    }
}

#[test]
fn rewind_propagates_to_both_pointers() {
    // Committing input for an already-simulated frame rewinds server_frame
    // (mirrored into player_frame); input at or past it changes nothing.
    let player = PlayerNetId::new(2);
    let connections = vec![acked(player, 60)];
    let mut time = SimulationTime::new(frame(60));
    let mut updates = PlayerUpdates::new();
    let mut deferred: DeferredUpdates<PlayerInput> = DeferredUpdates::new();
    deferred.push(player, input(50, dir(1, 1)));
    process_player_input_updates(frame(60), &connections, &mut time, &mut updates, &mut deferred);
    assert_eq!(time.server_frame, frame(50));
    assert_eq!(time.player_frame, frame(50));

    // Direct rewind proposals follow the same minimum rule.
    let mut t = SimulationTime::new(frame(40));
    t.rewind_to(frame(45));
    assert_eq!(t.server_frame, frame(40));
    assert_eq!(t.player_frame, frame(40));
    t.rewind_to(frame(33));
    assert_eq!(t.server_frame, frame(33));
    assert_eq!(t.player_frame, frame(33));
}

#[test]
fn default_inbox_is_empty() {
    let mut deferred: DeferredUpdates<PlayerInput> = DeferredUpdates::default();
    assert!(deferred.drain().is_empty());
}

#[test]
fn drain_is_exclusive() {
    let player = PlayerNetId::new(5);
    let mut deferred: DeferredUpdates<PlayerInput> = DeferredUpdates::new();
    deferred.push(player, input(1, dir(1, 0)));
    deferred.push(player, input(2, dir(0, 1)));
    let first = deferred.drain();
    assert_eq!(first.len(), 1);
    assert_eq!(first[0].0, player);
    assert_eq!(first[0].1.len(), 2);
    let second = deferred.drain();
    assert!(second.is_empty());
}

#[test]
fn dedup_keeps_the_first_update_per_frame() {
    // Two updates for one frame with different directions before a drain:
    // only the first is considered.
    let a = dir(1, 0);
    let b = dir(0, 1);
    let player = PlayerNetId::new(4);
    let connections = vec![acked(player, 20)];
    let mut time = SimulationTime::new(frame(20));
    let mut updates = PlayerUpdates::new();
    let mut deferred: DeferredUpdates<PlayerInput> = DeferredUpdates::new();
    deferred.push(player, input(15, a));
    deferred.push(player, input(15, b));
    let conflicts =
        process_player_input_updates(frame(20), &connections, &mut time, &mut updates, &mut deferred);
    assert!(conflicts.is_empty());
    for f in 15..=20u16 {
        assert_eq!(direction_at(&mut updates, player, f), Some(a));
    }
}

#[test]
fn dedup_by_frame_keeps_first_occurrences() {
    let v = vec![
        input(3, dir(1, 0)),
        input(5, dir(0, 1)),
        input(3, dir(9, 9)),
        input(7, dir(1, 1)),
        input(5, dir(8, 8)),
    ];
    let r = dedup_by_frame(&v);
    assert_eq!(r.len(), 3);
    assert_eq!(r[0], input(3, dir(1, 0)));
    assert_eq!(r[1], input(5, dir(0, 1)));
    assert_eq!(r[2], input(7, dir(1, 1)));
}

#[test]
fn sort_orders_updates_by_frame() {
    let v = vec![input(9, dir(1, 0)), input(2, dir(0, 1)), input(5, dir(1, 1))];
    let r = sort_updates_by_frame(&v);
    assert_eq!(r[0].frame_number, frame(2));
    assert_eq!(r[1].frame_number, frame(5));
    assert_eq!(r[2].frame_number, frame(9));
}

#[test]
fn unacknowledged_player_fills_up_to_now() {
    // A freshly connected player with no acknowledgment yet is trusted only
    // up to the current frame.
    let d = dir(2, 0);
    let player = PlayerNetId::new(6);
    let connections = vec![(player, ConnectionState { incoming_acknowledgment: None })];
    let mut time = SimulationTime::new(frame(8));
    let mut updates = PlayerUpdates::new();
    let mut deferred: DeferredUpdates<PlayerInput> = DeferredUpdates::new();
    deferred.push(player, input(5, d));
    let conflicts =
        process_player_input_updates(frame(8), &connections, &mut time, &mut updates, &mut deferred);
    assert!(conflicts.is_empty());
    for f in 5..=8u16 {
        assert_eq!(direction_at(&mut updates, player, f), Some(d));
    }
    assert_eq!(direction_at(&mut updates, player, 9), None);
}

#[test]
fn players_are_reconciled_independently() {
    let p1 = PlayerNetId::new(1);
    let p2 = PlayerNetId::new(2);
    let d1 = dir(1, 0);
    let d2 = dir(0, 1);
    let connections = vec![acked(p1, 10), acked(p2, 10)];
    let mut time = SimulationTime::new(frame(10));
    let mut updates = PlayerUpdates::new();
    let mut deferred: DeferredUpdates<PlayerInput> = DeferredUpdates::new();
    deferred.push(p1, input(8, d1));
    deferred.push(p2, input(9, d2));
    let conflicts =
        process_player_input_updates(frame(10), &connections, &mut time, &mut updates, &mut deferred);
    assert!(conflicts.is_empty());
    assert_eq!(direction_at(&mut updates, p1, 8), Some(d1));
    assert_eq!(direction_at(&mut updates, p1, 10), Some(d1));
    assert_eq!(direction_at(&mut updates, p2, 8), None);
    assert_eq!(direction_at(&mut updates, p2, 9), Some(d2));
    assert_eq!(time.server_frame, frame(8));
}
