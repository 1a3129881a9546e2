use fido2ble::channel::fresh_cid;
use fido2ble::channel::ChannelState;
use fido2ble::channel::BROADCAST_CID;
use fido2ble::cmd::CTapBLECommand;
use fido2ble::cmd::CTapBLEError;
use fido2ble::cmd::CTapCHIDCmd;
use fido2ble::cmd::CTapHIDCapabilities;
use fido2ble::cmd::CTapStatus;
use fido2ble::translate::code_to_status;
use fido2ble::translate::to_ble_command;
use fido2ble::translate::to_hid_command;
use fido2ble::translate::to_reply_command;
use fido2ble::translate::to_status;

#[test]
fn hid_command_codes() {
    assert_eq!(CTapCHIDCmd::Msg.code(), 0x03);
    assert_eq!(CTapCHIDCmd::Cbot.code(), 0x10);
    assert_eq!(CTapCHIDCmd::Init.code(), 0x06);
    assert_eq!(CTapCHIDCmd::Ping.code(), 0x01);
    assert_eq!(CTapCHIDCmd::Cancel.code(), 0x11);
    assert_eq!(CTapCHIDCmd::Error.code(), 0x3f);
    assert_eq!(CTapCHIDCmd::KeepAlive.code(), 0x3b);
    assert_eq!(CTapCHIDCmd::Wink.code(), 0x08);
    assert_eq!(CTapCHIDCmd::Lock.code(), 0x04);
}

#[test]
fn hid_command_from_repr_inverts_code() {
    let all = [
        CTapCHIDCmd::Msg,
        CTapCHIDCmd::Cbot,
        CTapCHIDCmd::Init,
        CTapCHIDCmd::Ping,
        CTapCHIDCmd::Cancel,
        CTapCHIDCmd::Error,
        CTapCHIDCmd::KeepAlive,
        CTapCHIDCmd::Wink,
        CTapCHIDCmd::Lock,
    ];
    for c in all {
        assert_eq!(CTapCHIDCmd::from_repr(c.code()), Some(c));
    }
    let mut known = 0;
    for b in 0..=255u8 {
        if let Some(c) = CTapCHIDCmd::from_repr(b) {
            assert_eq!(c.code(), b);
            known += 1;
        }
    }
    assert_eq!(known, 9);
    assert_eq!(CTapCHIDCmd::from_repr(0x00), None);
    assert_eq!(CTapCHIDCmd::from_repr(0x83), None);
}

#[test]
fn capability_bits() {
    assert_eq!(CTapHIDCapabilities::Wink.bit(), 0x01);
    assert_eq!(CTapHIDCapabilities::Error.bit(), 0x04);
    assert_eq!(CTapHIDCapabilities::Nmsg.bit(), 0x08);
}

#[test]
fn ble_command_codes() {
    assert_eq!(CTapBLECommand::Ping.code(), 0x01);
    assert_eq!(CTapBLECommand::KeepAlive.code(), 0x82);
    assert_eq!(CTapBLECommand::Msg.code(), 0x83);
    assert_eq!(CTapBLECommand::Cancel.code(), 0xbe);
    assert_eq!(CTapBLECommand::Error.code(), 0xbf);
    let mut known = 0;
    for b in 0..=255u8 {
        if let Some(c) = CTapBLECommand::from_repr(b) {
            assert_eq!(c.code(), b);
            known += 1;
        }
    }
    assert_eq!(known, 5);
}

#[test]
fn ble_error_codes() {
    assert_eq!(CTapBLEError::InvalidCommand.code(), 0x01);
    assert_eq!(CTapBLEError::InvalidPAR.code(), 0x02);
    assert_eq!(CTapBLEError::InvalidLength.code(), 0x03);
    assert_eq!(CTapBLEError::InvalidSequence.code(), 0x04);
    assert_eq!(CTapBLEError::RequestTimeout.code(), 0x05);
    assert_eq!(CTapBLEError::Busy.code(), 0x06);
    assert_eq!(CTapBLEError::LockRequired.code(), 0x0a);
    assert_eq!(CTapBLEError::InvalidChannel.code(), 0x0b);
    assert_eq!(CTapBLEError::Other.code(), 0x7f);
    let mut known = 0;
    for b in 0..=255u8 {
        if let Some(e) = CTapBLEError::from_repr(b) {
            assert_eq!(e.code(), b);
            known += 1;
        }
    }
    assert_eq!(known, 9);
}

#[test]
fn status_codes() {
    assert_eq!(CTapStatus::ErrInvalidCommand.code(), 0x01);
    assert_eq!(CTapStatus::ErrInvalidSeq.code(), 0x04);
    assert_eq!(CTapStatus::ErrInvalidChannel.code(), 0x0b);
    assert_eq!(CTapStatus::ErrOther.code(), 0x7f);
    assert_eq!(CTapStatus::from_repr(0x04), Some(CTapStatus::ErrInvalidSeq));
    assert_eq!(CTapStatus::from_repr(0x05), None);
}

#[test]
fn commands_translate_by_meaning() {
    assert_eq!(to_ble_command(CTapCHIDCmd::Ping), Some(CTapBLECommand::Ping));
    assert_eq!(to_ble_command(CTapCHIDCmd::Msg), Some(CTapBLECommand::Msg));
    assert_eq!(to_ble_command(CTapCHIDCmd::Cbot), Some(CTapBLECommand::Msg));
    assert_eq!(to_ble_command(CTapCHIDCmd::Cancel), Some(CTapBLECommand::Cancel));
    assert_eq!(to_ble_command(CTapCHIDCmd::KeepAlive), Some(CTapBLECommand::KeepAlive));
    assert_eq!(to_ble_command(CTapCHIDCmd::Error), Some(CTapBLECommand::Error));
    assert_eq!(to_ble_command(CTapCHIDCmd::Init), None);
    assert_eq!(to_ble_command(CTapCHIDCmd::Wink), None);
    assert_eq!(to_ble_command(CTapCHIDCmd::Lock), None);
    assert_eq!(to_hid_command(CTapBLECommand::Ping), CTapCHIDCmd::Ping);
    assert_eq!(to_hid_command(CTapBLECommand::KeepAlive), CTapCHIDCmd::KeepAlive);
    assert_eq!(to_hid_command(CTapBLECommand::Msg), CTapCHIDCmd::Msg);
    assert_eq!(to_hid_command(CTapBLECommand::Cancel), CTapCHIDCmd::Cancel);
    assert_eq!(to_hid_command(CTapBLECommand::Error), CTapCHIDCmd::Error);
}

#[test]
fn answer_goes_back_under_the_command_that_asked() {
    assert_eq!(to_reply_command(CTapCHIDCmd::Cbot, CTapBLECommand::Msg), CTapCHIDCmd::Cbot);
    assert_eq!(to_reply_command(CTapCHIDCmd::Msg, CTapBLECommand::Msg), CTapCHIDCmd::Msg);
    assert_eq!(to_reply_command(CTapCHIDCmd::Ping, CTapBLECommand::Ping), CTapCHIDCmd::Ping);
    assert_eq!(to_reply_command(CTapCHIDCmd::Ping, CTapBLECommand::Msg), CTapCHIDCmd::Msg);
    assert_eq!(to_reply_command(CTapCHIDCmd::Cbot, CTapBLECommand::Ping), CTapCHIDCmd::Ping);
}

#[test]
fn errors_translate_by_meaning() {
    assert_eq!(to_status(CTapBLEError::InvalidCommand), CTapStatus::ErrInvalidCommand);
    assert_eq!(to_status(CTapBLEError::InvalidSequence), CTapStatus::ErrInvalidSeq);
    assert_eq!(to_status(CTapBLEError::InvalidChannel), CTapStatus::ErrInvalidChannel);
    assert_eq!(to_status(CTapBLEError::InvalidPAR), CTapStatus::ErrOther);
    assert_eq!(to_status(CTapBLEError::InvalidLength), CTapStatus::ErrOther);
    assert_eq!(to_status(CTapBLEError::RequestTimeout), CTapStatus::ErrOther);
    assert_eq!(to_status(CTapBLEError::Busy), CTapStatus::ErrOther);
    assert_eq!(to_status(CTapBLEError::LockRequired), CTapStatus::ErrOther);
    assert_eq!(to_status(CTapBLEError::Other), CTapStatus::ErrOther);
}

#[test]
fn unknown_error_code_degrades_to_other() {
    assert_eq!(code_to_status(0x04), CTapStatus::ErrInvalidSeq);
    assert_eq!(code_to_status(0x01), CTapStatus::ErrInvalidCommand);
    assert_eq!(code_to_status(0x00), CTapStatus::ErrOther);
    assert_eq!(code_to_status(0x42), CTapStatus::ErrOther);
    assert_eq!(code_to_status(0xff), CTapStatus::ErrOther);
}

#[test]
fn fresh_cid_skips_reserved_values() {
    assert_eq!(fresh_cid(0), 1);
    assert_eq!(fresh_cid(1), 2);
    assert_eq!(fresh_cid(0xffff_fffd), 0xffff_fffe);
    assert_eq!(fresh_cid(0xffff_fffe), 1);
    assert_eq!(fresh_cid(0xffff_ffff), 1);
    assert_eq!(BROADCAST_CID, 0xffff_ffff);
}

#[test]
fn channel_state_transitions() {
    let idle = ChannelState::Idle;
    assert_eq!(idle.allocated(), None);
    let shaking = idle.on_channel_request(7);
    assert_eq!(shaking, ChannelState::Handshaking { nonce: 7 });
    assert_eq!(shaking.allocated(), None);
    let bound = shaking.on_channel_issued(5);
    assert_eq!(bound, ChannelState::Bound { cid: 5 });
    assert_eq!(bound.allocated(), Some(5));
    assert!(!bound.is_busy());
    let busy = bound.on_command(CTapCHIDCmd::Msg);
    assert_eq!(busy, ChannelState::Busy { cid: 5, pending_command: CTapCHIDCmd::Msg });
    assert!(busy.is_busy());
    assert_eq!(busy.allocated(), Some(5));
    assert_eq!(busy.on_channel_request(9), busy);
    assert_eq!(busy.on_completion(), bound);
    assert_eq!(bound.on_completion(), bound);
    assert_eq!(idle.on_command(CTapCHIDCmd::Msg), idle);
    assert_eq!(idle.on_channel_issued(3), idle);
    assert_eq!(bound.on_channel_request(9), ChannelState::Handshaking { nonce: 9 });
}
