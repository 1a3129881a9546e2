use fido2ble::cmd::CTapBLEError;
use fido2ble::reassembler::Feed;
use fido2ble::reassembler::Reassembler;

#[test]
fn generic_reassembler_rebuilds_a_message() {
    let mut r: Reassembler<u8> = Reassembler::new(10, false);
    assert_eq!(r.limit(), 10);
    assert_eq!(r.pending_command(), None);
    assert!(matches!(r.first(7, 5, &[1, 2]), Feed::Incomplete));
    assert_eq!(r.pending_command(), Some(7));
    assert!(matches!(r.next(0, &[3, 4]), Feed::Incomplete));
    match r.next(1, &[5]) {
        Feed::Complete(m) => {
            assert_eq!(m.command, 7);
            assert_eq!(m.payload, vec![1, 2, 3, 4, 5]);
        },
        _ => panic!("not complete"),
    }
    assert_eq!(r.pending_command(), None);
}

#[test]
fn generic_reassembler_starts_afresh_after_an_error() {
    let mut r: Reassembler<u8> = Reassembler::new(10, false);
    assert!(matches!(r.next(0, &[1]), Feed::Error(CTapBLEError::InvalidSequence)));
    assert!(matches!(r.first(1, 11, &[1]), Feed::Error(CTapBLEError::InvalidLength)));
    assert!(matches!(r.first(1, 4, &[1]), Feed::Incomplete));
    assert!(matches!(r.next(1, &[2]), Feed::Error(CTapBLEError::InvalidSequence)));
    assert_eq!(r.pending_command(), None);
    assert!(matches!(r.next(0, &[2]), Feed::Error(CTapBLEError::InvalidSequence)));
    assert!(matches!(r.first(2, 2, &[1]), Feed::Incomplete));
    assert!(matches!(r.refuse(CTapBLEError::Busy), Feed::Error(CTapBLEError::Busy)));
    assert_eq!(r.pending_command(), None);
    match r.first(3, 1, &[9]) {
        Feed::Complete(m) => {
            assert_eq!(m.command, 3);
            assert_eq!(m.payload, vec![9]);
        },
        _ => panic!("not complete"),
    }
}

#[test]
fn generic_reassembler_new_first_frame_replaces_the_message() {
    let mut r: Reassembler<u8> = Reassembler::new(10, true);
    assert!(matches!(r.first(1, 4, &[1]), Feed::Incomplete));
    assert!(matches!(r.first(2, 3, &[7, 8]), Feed::Incomplete));
    assert_eq!(r.pending_command(), Some(2));
    match r.next(0, &[9, 0, 0]) {
        Feed::Complete(m) => {
            assert_eq!(m.command, 2);
            assert_eq!(m.payload, vec![7, 8, 9]);
        },
        _ => panic!("not complete"),
    }
}

#[test]
fn generic_reassembler_limit_and_reset() {
    let mut r: Reassembler<u8> = Reassembler::new(10, false);
    assert!(matches!(r.first(1, 4, &[1]), Feed::Incomplete));
    r.reset();
    assert_eq!(r.pending_command(), None);
    assert!(matches!(r.first(1, 4, &[1]), Feed::Incomplete));
    r.set_limit(3);
    assert_eq!(r.limit(), 3);
    assert_eq!(r.pending_command(), None);
    assert!(matches!(r.first(1, 4, &[1]), Feed::Error(CTapBLEError::InvalidLength)));
    assert!(matches!(r.first(1, 3, &[1]), Feed::Incomplete));
}

#[test]
fn sequence_numbers_end_at_127() {
    let mut r: Reassembler<u8> = Reassembler::new(1000, false);
    assert!(matches!(r.first(1, 500, &[0]), Feed::Incomplete));
    for seq in 0..128u8 {
        assert!(matches!(r.next(seq, &[seq]), Feed::Incomplete));
    }
    assert!(matches!(r.next(128, &[0]), Feed::Error(CTapBLEError::InvalidSequence)));
    assert_eq!(r.pending_command(), None);
}

#[test]
fn message_sizes_without_room_for_payload() {
    assert_eq!(fido2ble::hid::codec::max_message(0), 0);
    assert_eq!(fido2ble::hid::codec::max_message(5), 0);
    assert_eq!(fido2ble::hid::codec::max_message(7), 256);
    assert_eq!(fido2ble::hid::codec::max_message(8), 384);
    assert_eq!(fido2ble::hid::codec::max_message(9), 513);
    assert_eq!(fido2ble::hid::codec::max_message(64), 7608);
    assert_eq!(fido2ble::ble::codec::max_message(0), 0);
    assert_eq!(fido2ble::ble::codec::max_message(1), 0);
    assert_eq!(fido2ble::ble::codec::max_message(3), 256);
    assert_eq!(fido2ble::ble::codec::max_message(4), 385);
}
