use frame_sync::frame_buffer::FrameBuffer;
use frame_sync::frame_number::FrameNumber;

fn frame(v: u16) -> FrameNumber {
    FrameNumber::new(v)
}

#[test]
fn new_buffer_holds_one_unset_frame() {
    let b: FrameBuffer<u32> = FrameBuffer::new(frame(10), 8);
    assert_eq!(b.len(), 1);
    assert_eq!(b.start_frame().value(), 10);
    assert_eq!(b.end_frame().value(), 10);
    assert_eq!(b.limit(), 8);
    assert!(b.get(frame(10)).is_none());
}

#[test]
fn insert_and_get_within_window() {
    let mut b: FrameBuffer<u32> = FrameBuffer::new(frame(0), 8);
    b.insert(frame(0), Some(7));
    b.insert(frame(3), Some(9));
    assert_eq!(b.get(frame(0)), Some(&7));
    assert!(b.get(frame(1)).is_none());
    assert!(b.get(frame(2)).is_none());
    assert_eq!(b.get(frame(3)), Some(&9));
    assert_eq!(b.len(), 4);
    assert_eq!(b.end_frame().value(), 3);
}

#[test]
fn insert_before_window_is_rejected() {
    let mut b: FrameBuffer<u32> = FrameBuffer::new(frame(100), 8);
    assert!(!b.can_insert(frame(99)));
    b.insert(frame(99), Some(1));
    assert_eq!(b.len(), 1);
    assert!(b.get(frame(99)).is_none());
    assert_eq!(b.start_frame().value(), 100);
}

#[test]
fn bounded_capacity_evicts_oldest() {
    // Capacity 4; insert 4 + 3 consecutive new frames: exactly 4 retained,
    // the oldest 3 evicted, start advanced by 3.
    let limit: u16 = 4;
    let mut b: FrameBuffer<u32> = FrameBuffer::new(frame(0), limit);
    for v in 0..7u16 {
        b.insert(frame(v), Some(v as u32));
    }
    assert_eq!(b.len(), 4);
    assert_eq!(b.start_frame().value(), 3);
    assert_eq!(b.end_frame().value(), 6);
    assert!(b.get(frame(0)).is_none());
    assert!(b.get(frame(2)).is_none());
    assert_eq!(b.get(frame(3)), Some(&3));
    assert_eq!(b.get(frame(6)), Some(&6));
}

#[test]
fn far_jump_clears_old_values() {
    let mut b: FrameBuffer<u32> = FrameBuffer::new(frame(0), 4);
    b.insert(frame(0), Some(1));
    b.insert(frame(100), Some(2));
    assert_eq!(b.len(), 4);
    assert_eq!(b.start_frame().value(), 97);
    assert_eq!(b.end_frame().value(), 100);
    assert!(b.get(frame(0)).is_none());
    assert!(b.get(frame(97)).is_none());
    assert_eq!(b.get(frame(100)), Some(&2));
}

#[test]
fn window_works_across_the_wrap_boundary() {
    let mut b: FrameBuffer<u32> = FrameBuffer::new(frame(65534), 8);
    b.insert(frame(65534), Some(1));
    b.insert(frame(1), Some(2));
    assert_eq!(b.len(), 4);
    assert_eq!(b.start_frame().value(), 65534);
    assert_eq!(b.end_frame().value(), 1);
    assert_eq!(b.get(frame(65534)), Some(&1));
    assert!(b.get(frame(65535)).is_none());
    assert_eq!(b.get(frame(1)), Some(&2));
}
