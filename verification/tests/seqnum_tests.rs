use tcp_core::seqnum::{is_ack_acceptable, segment_acceptable, wrap_add, wrap_sub, wrapping_lt};

#[test]
fn wrapping_add_and_sub() {
    assert_eq!(wrap_add(0xFFFF_FFFF, 2), 1);
    assert_eq!(wrap_add(5, 10), 15);
    assert_eq!(wrap_sub(1, 0xFFFF_FFFF), 2);
    assert_eq!(wrap_sub(15, 5), 10);
    assert_eq!(wrap_sub(7, 7), 0);
}

#[test]
fn wrapping_order() {
    assert!(wrapping_lt(5, 10));
    assert!(!wrapping_lt(10, 5));
    assert!(!wrapping_lt(7, 7));
    // across the wrap point, 0xFFFF_FFF0 comes before 5
    assert!(wrapping_lt(0xFFFF_FFF0, 5));
    assert!(!wrapping_lt(5, 0xFFFF_FFF0));
}

#[test]
fn ack_acceptability_window() {
    // snd.una < ack <= snd.nxt
    assert!(is_ack_acceptable(100, 101, 110));
    assert!(is_ack_acceptable(100, 110, 110));
    assert!(!is_ack_acceptable(100, 100, 110));
    assert!(!is_ack_acceptable(100, 111, 110));
    // nothing outstanding: no ACK is acceptable
    assert!(!is_ack_acceptable(100, 100, 100));
    // across the wrap point
    assert!(is_ack_acceptable(0xFFFF_FFFF, 0, 0));
    assert!(is_ack_acceptable(0xFFFF_FFFE, 2, 3));
}

#[test]
fn segment_acceptability_cases() {
    // zero-length segments
    assert!(segment_acceptable(100, 0, 100, 0));
    assert!(!segment_acceptable(100, 0, 101, 0));
    assert!(segment_acceptable(100, 10, 109, 0));
    assert!(!segment_acceptable(100, 10, 110, 0));
    // data segments against a closed window are never acceptable
    assert!(!segment_acceptable(100, 0, 100, 1));
    // first byte in the window
    assert!(segment_acceptable(100, 10, 105, 3));
    // only the last byte reaches into the window (old overlap)
    assert!(segment_acceptable(100, 10, 95, 6));
    assert!(!segment_acceptable(100, 10, 95, 5));
    // entirely beyond the window
    assert!(!segment_acceptable(100, 10, 110, 4));
    // window spanning the wrap point
    assert!(segment_acceptable(0xFFFF_FFFE, 10, 2, 1));
}
