use fido2ble::cmd::CTapBLECommand;
use fido2ble::cmd::CTapBLEError;
use fido2ble::cmd::CTapCHIDCmd;

fn payload(n: usize) -> Vec<u8> {
    (0..n).map(|i| (i * 31 + 5) as u8).collect()
}

#[test]
fn hid_message_of_200_bytes_takes_four_frames() {
    let data = payload(200);
    let frames = fido2ble::hid::codec::encode(0x0102_0304, CTapCHIDCmd::Msg, &data, 64).unwrap();
    assert_eq!(frames.len(), 4);
    for f in &frames {
        assert_eq!(f.len(), 64);
    }
    assert_eq!(&frames[0][..8], &[0x83, 0x01, 0x02, 0x03, 0x04, 0x83, 0x00, 0xc8]);
    assert_eq!(&frames[0][8..], &data[..56]);
    assert_eq!(&frames[1][..5], &[0x00, 0x01, 0x02, 0x03, 0x04]);
    assert_eq!(&frames[1][5..], &data[56..115]);
    assert_eq!(&frames[2][..5], &[0x01, 0x01, 0x02, 0x03, 0x04]);
    assert_eq!(&frames[2][5..], &data[115..174]);
    assert_eq!(&frames[3][..5], &[0x02, 0x01, 0x02, 0x03, 0x04]);
    assert_eq!(&frames[3][5..31], &data[174..200]);
    assert!(frames[3][31..].iter().all(|b| *b == 0));
    let back = fido2ble::hid::reassembly::decode_message(&frames, 64).unwrap();
    assert_eq!(back.command, CTapCHIDCmd::Msg);
    assert_eq!(back.payload.len(), 200);
    assert_eq!(back.payload, data);
}

#[test]
fn hid_frame_count_follows_the_formula() {
    let cases: [(usize, usize); 9] =
        [(0, 1), (1, 1), (56, 1), (57, 2), (115, 2), (116, 3), (174, 3), (175, 4), (7608, 129)];
    for (len, count) in cases {
        let frames =
            fido2ble::hid::codec::encode(9, CTapCHIDCmd::Cbot, &payload(len), 64).unwrap();
        assert_eq!(frames.len(), count);
        let expected = if len <= 56 { 1 } else { (len - 56 + 58) / 59 + 1 };
        assert_eq!(frames.len(), expected);
    }
}

#[test]
fn hid_roundtrip_for_many_lengths_and_report_sizes() {
    for report_len in [9usize, 10, 16, 64, 65, 100] {
        let max = fido2ble::hid::codec::max_message(report_len);
        for len in [0usize, 1, 2, 3, 4, 50, 57, 58, 59, 200, 384, 385, 1000, max] {
            if len > max {
                continue;
            }
            let data = payload(len);
            let frames =
                fido2ble::hid::codec::encode(0xdead_beef, CTapCHIDCmd::Ping, &data, report_len)
                    .unwrap();
            for f in &frames {
                assert_eq!(f.len(), report_len);
            }
            let back = fido2ble::hid::reassembly::decode_message(&frames, report_len).unwrap();
            assert_eq!(back.command, CTapCHIDCmd::Ping);
            assert_eq!(back.payload, data);
        }
    }
}

#[test]
fn hid_roundtrip_for_every_command() {
    let all = [
        CTapCHIDCmd::Msg,
        CTapCHIDCmd::Cbot,
        CTapCHIDCmd::Init,
        CTapCHIDCmd::Ping,
        CTapCHIDCmd::Cancel,
        CTapCHIDCmd::Error,
        CTapCHIDCmd::KeepAlive,
        CTapCHIDCmd::Wink,
        CTapCHIDCmd::Lock,
    ];
    for cmd in all {
        let data = payload(130);
        let frames = fido2ble::hid::codec::encode(3, cmd, &data, 64).unwrap();
        let back = fido2ble::hid::reassembly::decode_message(&frames, 64).unwrap();
        assert_eq!(back.command, cmd);
        assert_eq!(back.payload, data);
    }
}

#[test]
fn hid_encode_refuses_what_does_not_fit() {
    assert_eq!(fido2ble::hid::codec::max_message(64), 7608);
    assert_eq!(
        fido2ble::hid::codec::encode(1, CTapCHIDCmd::Msg, &payload(7609), 64).err(),
        Some(CTapBLEError::InvalidLength)
    );
    assert_eq!(
        fido2ble::hid::codec::encode(1, CTapCHIDCmd::Msg, &payload(1), 8).err(),
        Some(CTapBLEError::InvalidPAR)
    );
    assert_eq!(
        fido2ble::hid::codec::encode(1, CTapCHIDCmd::Msg, &payload(70000), 2000).err(),
        Some(CTapBLEError::InvalidLength)
    );
    assert!(fido2ble::hid::codec::encode(1, CTapCHIDCmd::Msg, &payload(65535), 2000).is_ok());
    assert!(fido2ble::hid::codec::encode(1, CTapCHIDCmd::Msg, &payload(7608), 64).is_ok());
    assert!(fido2ble::hid::codec::encode(1, CTapCHIDCmd::Msg, &payload(1), 9).is_ok());
}

#[test]
fn hid_decode_message_reports_what_is_wrong() {
    let data = payload(200);
    let mut frames = fido2ble::hid::codec::encode(5, CTapCHIDCmd::Msg, &data, 64).unwrap();
    assert_eq!(
        fido2ble::hid::reassembly::decode_message(&frames, 8).err(),
        Some(CTapBLEError::InvalidPAR)
    );
    let last = frames.pop().unwrap();
    assert_eq!(
        fido2ble::hid::reassembly::decode_message(&frames, 64).err(),
        Some(CTapBLEError::InvalidLength)
    );
    frames.swap(1, 2);
    frames.push(last);
    assert_eq!(
        fido2ble::hid::reassembly::decode_message(&frames, 64).err(),
        Some(CTapBLEError::InvalidSequence)
    );
    let none: Vec<Vec<u8>> = Vec::new();
    assert_eq!(
        fido2ble::hid::reassembly::decode_message(&none, 64).err(),
        Some(CTapBLEError::InvalidLength)
    );
    let bad = vec![vec![0xffu8, 0, 0, 0, 1, 0xff, 0, 0]];
    assert_eq!(
        fido2ble::hid::reassembly::decode_message(&bad, 64).err(),
        Some(CTapBLEError::InvalidCommand)
    );
}

#[test]
fn ble_message_of_200_bytes_in_fragments_of_20() {
    let data = payload(200);
    let frames = fido2ble::ble::codec::encode(CTapBLECommand::Msg, &data, 20).unwrap();
    assert_eq!(frames.len(), 11);
    assert_eq!(&frames[0][..3], &[0x83, 0x00, 0xc8]);
    assert_eq!(&frames[0][3..], &data[..17]);
    assert_eq!(frames[0].len(), 20);
    for k in 1..10 {
        assert_eq!(frames[k].len(), 20);
        assert_eq!(frames[k][0], (k - 1) as u8);
        assert_eq!(&frames[k][1..], &data[17 + (k - 1) * 19..17 + k * 19]);
    }
    assert_eq!(frames[10].len(), 13);
    assert_eq!(frames[10][0], 9);
    assert_eq!(&frames[10][1..], &data[188..]);
    let back = fido2ble::ble::reassembly::decode_message(&frames, 20).unwrap();
    assert_eq!(back.command, CTapBLECommand::Msg);
    assert_eq!(back.payload, data);
}

#[test]
fn ble_roundtrip_for_many_lengths_and_sizes() {
    let all = [
        CTapBLECommand::Ping,
        CTapBLECommand::KeepAlive,
        CTapBLECommand::Msg,
        CTapBLECommand::Cancel,
        CTapBLECommand::Error,
    ];
    for size in [4usize, 5, 20, 23, 185, 512] {
        let max = fido2ble::ble::codec::max_message(size);
        for len in [0usize, 1, 2, 16, 17, 18, 36, 37, 200, 1024, max] {
            if len > max {
                continue;
            }
            for cmd in all {
                let data = payload(len);
                let frames = fido2ble::ble::codec::encode(cmd, &data, size).unwrap();
                let expected =
                    if len <= size - 3 { 1 } else { (len - (size - 3) + size - 2) / (size - 1) + 1 };
                assert_eq!(frames.len(), expected);
                for f in &frames {
                    assert!(f.len() <= size);
                }
                let back = fido2ble::ble::reassembly::decode_message(&frames, size).unwrap();
                assert_eq!(back.command, cmd);
                assert_eq!(back.payload, data);
            }
        }
    }
}

#[test]
fn ble_encode_refuses_what_does_not_fit() {
    assert_eq!(fido2ble::ble::codec::max_message(20), 2449);
    assert_eq!(fido2ble::ble::codec::max_message(512), 65535);
    assert_eq!(
        fido2ble::ble::codec::encode(CTapBLECommand::Msg, &payload(2450), 20).err(),
        Some(CTapBLEError::InvalidLength)
    );
    assert!(fido2ble::ble::codec::encode(CTapBLECommand::Msg, &payload(2449), 20).is_ok());
    assert_eq!(
        fido2ble::ble::codec::encode(CTapBLECommand::Msg, &payload(1), 3).err(),
        Some(CTapBLEError::InvalidPAR)
    );
}

#[test]
fn ble_decode_message_reports_what_is_wrong() {
    let data = payload(100);
    let mut frames = fido2ble::ble::codec::encode(CTapBLECommand::Msg, &data, 20).unwrap();
    assert_eq!(
        fido2ble::ble::reassembly::decode_message(&frames, 3).err(),
        Some(CTapBLEError::InvalidPAR)
    );
    frames.pop();
    assert_eq!(
        fido2ble::ble::reassembly::decode_message(&frames, 20).err(),
        Some(CTapBLEError::InvalidLength)
    );
    frames.remove(1);
    assert_eq!(
        fido2ble::ble::reassembly::decode_message(&frames, 20).err(),
        Some(CTapBLEError::InvalidSequence)
    );
    let twice = vec![vec![0x83u8, 0, 5, 1], vec![0x83u8, 0, 1, 1]];
    assert_eq!(
        fido2ble::ble::reassembly::decode_message(&twice, 20).err(),
        Some(CTapBLEError::Busy)
    );
}
