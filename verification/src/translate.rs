//! Translation of commands and errors between the two transports.
//!
//! Commands are matched by meaning. `Init`, `Wink` and `Lock` have no
//! counterpart on the Bluetooth LE side and are answered by the bridge
//! itself. Both message commands of the HID side, `Msg` and `Cbot`, travel
//! as `Msg` on the Bluetooth LE side, and the answer comes back under the
//! command that asked. Errors are matched by meaning too: an error with no
//! status of its own on the HID side is reported as `ErrOther`.

use vstd::prelude::*;
use crate::cmd::CTapBLECommand;
use crate::cmd::CTapBLEError;
use crate::cmd::CTapCHIDCmd;
use crate::cmd::CTapStatus;

verus! {

/// The command of the Bluetooth LE side that carries a command of the HID
/// side, if there is one.
pub open spec fn ble_command(cmd: CTapCHIDCmd) -> Option<CTapBLECommand> {
    match cmd {
        CTapCHIDCmd::Ping => Some(CTapBLECommand::Ping),
        CTapCHIDCmd::Msg => Some(CTapBLECommand::Msg),
        CTapCHIDCmd::Cbot => Some(CTapBLECommand::Msg),
        CTapCHIDCmd::Cancel => Some(CTapBLECommand::Cancel),
        CTapCHIDCmd::KeepAlive => Some(CTapBLECommand::KeepAlive),
        CTapCHIDCmd::Error => Some(CTapBLECommand::Error),
        CTapCHIDCmd::Init => None,
        CTapCHIDCmd::Wink => None,
        CTapCHIDCmd::Lock => None,
    }
}

/// The command of the HID side that stands for a command of the Bluetooth
/// LE side.
pub open spec fn hid_command(cmd: CTapBLECommand) -> CTapCHIDCmd {
    match cmd {
        CTapBLECommand::Ping => CTapCHIDCmd::Ping,
        CTapBLECommand::KeepAlive => CTapCHIDCmd::KeepAlive,
        CTapBLECommand::Msg => CTapCHIDCmd::Msg,
        CTapBLECommand::Cancel => CTapCHIDCmd::Cancel,
        CTapBLECommand::Error => CTapCHIDCmd::Error,
    }
}

/// The command under which an answer goes back to the host: the command
/// that asked, where the answer's command is the one that carried it, and
/// else the counterpart of the answer's command.
pub open spec fn reply_command(asked: CTapCHIDCmd, answer: CTapBLECommand) -> CTapCHIDCmd {
    if ble_command(asked) == Some(answer) {
        asked
    } else {
        hid_command(answer)
    }
}

/// The status under which an error is reported to the host.
pub open spec fn status_of(e: CTapBLEError) -> CTapStatus {
    match e {
        CTapBLEError::InvalidCommand => CTapStatus::ErrInvalidCommand,
        CTapBLEError::InvalidSequence => CTapStatus::ErrInvalidSeq,
        CTapBLEError::InvalidChannel => CTapStatus::ErrInvalidChannel,
        CTapBLEError::InvalidPAR => CTapStatus::ErrOther,
        CTapBLEError::InvalidLength => CTapStatus::ErrOther,
        CTapBLEError::RequestTimeout => CTapStatus::ErrOther,
        CTapBLEError::Busy => CTapStatus::ErrOther,
        CTapBLEError::LockRequired => CTapStatus::ErrOther,
        CTapBLEError::Other => CTapStatus::ErrOther,
    }
}

/// The status under which the error code of an error message of the
/// Bluetooth LE side is reported to the host; an unknown code is reported
/// as `ErrOther`.
pub open spec fn status_of_code(code: u8) -> CTapStatus {
    match CTapBLEError::spec_from_repr(code) {
        Some(e) => status_of(e),
        None => CTapStatus::ErrOther,
    }
}

/// Exec form of [`ble_command`].
pub fn to_ble_command(cmd: CTapCHIDCmd) -> (r: Option<CTapBLECommand>)
    ensures
        r == ble_command(cmd),
{
    match cmd {
        CTapCHIDCmd::Ping => Some(CTapBLECommand::Ping),
        CTapCHIDCmd::Msg => Some(CTapBLECommand::Msg),
        CTapCHIDCmd::Cbot => Some(CTapBLECommand::Msg),
        CTapCHIDCmd::Cancel => Some(CTapBLECommand::Cancel),
        CTapCHIDCmd::KeepAlive => Some(CTapBLECommand::KeepAlive),
        CTapCHIDCmd::Error => Some(CTapBLECommand::Error),
        CTapCHIDCmd::Init => None,
        CTapCHIDCmd::Wink => None,
        CTapCHIDCmd::Lock => None,
    }
}

/// Exec form of [`hid_command`].
pub fn to_hid_command(cmd: CTapBLECommand) -> (r: CTapCHIDCmd)
    ensures
        r == hid_command(cmd),
{
    match cmd {
        CTapBLECommand::Ping => CTapCHIDCmd::Ping,
        CTapBLECommand::KeepAlive => CTapCHIDCmd::KeepAlive,
        CTapBLECommand::Msg => CTapCHIDCmd::Msg,
        CTapBLECommand::Cancel => CTapCHIDCmd::Cancel,
        CTapBLECommand::Error => CTapCHIDCmd::Error,
    }
}

/// Exec form of [`reply_command`].
pub fn to_reply_command(asked: CTapCHIDCmd, answer: CTapBLECommand) -> (r: CTapCHIDCmd)
    ensures
        r == reply_command(asked, answer),
{
    match to_ble_command(asked) {
        Some(carrier) => if carrier == answer {
            asked
        } else {
            to_hid_command(answer)
        },
        None => to_hid_command(answer),
    }
}

/// Exec form of [`status_of`].
pub fn to_status(e: CTapBLEError) -> (s: CTapStatus)
    ensures
        s == status_of(e),
{
    match e {
        CTapBLEError::InvalidCommand => CTapStatus::ErrInvalidCommand,
        CTapBLEError::InvalidSequence => CTapStatus::ErrInvalidSeq,
        CTapBLEError::InvalidChannel => CTapStatus::ErrInvalidChannel,
        _ => CTapStatus::ErrOther,
    }
}

/// Exec form of [`status_of_code`].
pub fn code_to_status(code: u8) -> (s: CTapStatus)
    ensures
        s == status_of_code(code),
{
    match CTapBLEError::from_repr(code) {
        Some(e) => to_status(e),
        None => CTapStatus::ErrOther,
    }
}

/// The two command tables agree: every command of the Bluetooth LE side is
/// the carrier of its own counterpart, and a command of the HID side that
/// has a carrier comes back as itself, but for `Cbot`, which shares its
/// carrier with `Msg`. An answer under the carrier of the command that
/// asked goes back under that command.
pub proof fn lemma_commands_agree(h: CTapCHIDCmd, b: CTapBLECommand)
    ensures
        ble_command(hid_command(b)) == Some(b),
        ble_command(h) == Some(b) && h != CTapCHIDCmd::Cbot ==> hid_command(b) == h,
        ble_command(h) == Some(b) ==> reply_command(h, b) == h,
        ble_command(h).is_none() <==> (h == CTapCHIDCmd::Init || h == CTapCHIDCmd::Wink || h
            == CTapCHIDCmd::Lock),
{
}

/// Errors with a status of their own keep their wire value; the others are
/// reported as `ErrOther`.
pub proof fn lemma_status_by_meaning(e: CTapBLEError)
    ensures
        status_of(e) != CTapStatus::ErrOther ==> status_of(e).spec_code() == e.spec_code(),
        status_of_code(e.spec_code()) == status_of(e),
{
}

} // verus!
