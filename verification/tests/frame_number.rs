use frame_sync::frame_number::FrameNumber;

#[test]
fn wrapping_add_stays_in_range() {
    let f = FrameNumber::new(65535);
    assert_eq!(f.wrapping_add(1).value(), 0);
    assert_eq!(f.wrapping_add(3).value(), 2);
    assert_eq!(FrameNumber::new(10).wrapping_add(5).value(), 15);
}

#[test]
fn wrapping_sub_stays_in_range() {
    let f = FrameNumber::new(0);
    assert_eq!(f.wrapping_sub(1).value(), 65535);
    assert_eq!(FrameNumber::new(10).wrapping_sub(4).value(), 6);
}

#[test]
fn order_is_wrap_aware() {
    // Plain magnitude order within a session window.
    assert!(FrameNumber::new(3).is_le(FrameNumber::new(7)));
    assert!(!FrameNumber::new(7).is_lt(FrameNumber::new(3)));
    assert!(FrameNumber::new(5).is_le(FrameNumber::new(5)));
    assert!(!FrameNumber::new(5).is_lt(FrameNumber::new(5)));
    // Across the wrap boundary, 65535 comes just before 2.
    assert!(FrameNumber::new(65535).is_lt(FrameNumber::new(2)));
    assert!(!FrameNumber::new(2).is_le(FrameNumber::new(65535)));
}

#[test]
fn max_and_min_follow_the_wrap_aware_order() {
    let a = FrameNumber::new(65530);
    let b = FrameNumber::new(4);
    assert_eq!(a.max(b).value(), 4);
    assert_eq!(a.min(b).value(), 65530);
    assert_eq!(FrameNumber::new(9).max(FrameNumber::new(2)).value(), 9);
    assert_eq!(FrameNumber::new(9).min(FrameNumber::new(2)).value(), 2);
}
