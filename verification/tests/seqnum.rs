//! Sequence arithmetic on chosen values.

use tcp_engine::seqnum::{advance, distance, is_between_wrapped, predecessor, successor, wrapping_lt};

#[test]
fn precedes_within_half_the_space() {
    assert!(wrapping_lt(0, 1));
    assert!(!wrapping_lt(1, 0));
    assert!(!wrapping_lt(5, 5));
    assert!(wrapping_lt(0xFFFF_FFFF, 0));
    assert!(wrapping_lt(0xFFFF_FF00, 0x0000_0100));
    assert!(!wrapping_lt(0x0000_0100, 0xFFFF_FF00));
    assert!(wrapping_lt(0, 0x7FFF_FFFF));
    assert!(!wrapping_lt(0x7FFF_FFFF, 0));
}

#[test]
fn antipodes_are_unordered() {
    assert!(!wrapping_lt(0, 0x8000_0000));
    assert!(!wrapping_lt(0x8000_0000, 0));
    assert!(!wrapping_lt(0x1234_5678, 0x9234_5678));
    assert!(!wrapping_lt(0x9234_5678, 0x1234_5678));
}

#[test]
fn one_of_two_precedes_unless_antipodal() {
    let samples = [0u32, 1, 2, 0x7FFF_FFFF, 0x8000_0000, 0x8000_0001, 0xFFFF_FFFE, 0xFFFF_FFFF];
    for &a in samples.iter() {
        for &b in samples.iter() {
            if a.wrapping_sub(b) != 0x8000_0000 {
                assert_eq!(wrapping_lt(a, b), !wrapping_lt(b, a) && a != b);
            }
        }
    }
}

#[test]
fn neighbours_enclose_every_number() {
    for &a in [0u32, 1, 2, 0x7FFF_FFFF, 0x8000_0000, 0xFFFF_FFFE, 0xFFFF_FFFF].iter() {
        assert!(is_between_wrapped(a.wrapping_sub(1), a, a.wrapping_add(2)));
    }
}

#[test]
fn between_is_open_at_both_ends() {
    assert!(!is_between_wrapped(10, 10, 20));
    assert!(!is_between_wrapped(10, 20, 20));
    assert!(is_between_wrapped(10, 11, 20));
    assert!(is_between_wrapped(10, 19, 20));
    assert!(is_between_wrapped(0xFFFF_FFF0, 3, 0x10));
    assert!(!is_between_wrapped(0xFFFF_FFF0, 0x10, 3));
}

#[test]
fn steps_wrap_around() {
    assert_eq!(advance(0xFFFF_FFFF, 1), 0);
    assert_eq!(advance(0xFFFF_FF00, 512), 0x100);
    assert_eq!(advance(7, 0), 7);
    assert_eq!(successor(0xFFFF_FFFF), 0);
    assert_eq!(predecessor(0), 0xFFFF_FFFF);
    assert_eq!(distance(0x80, 0xFFFF_FF00), 384);
    assert_eq!(distance(5, 5), 0);
}
