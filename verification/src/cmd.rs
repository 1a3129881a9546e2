//! Command, capability, error and status codes of the two transports.

use vstd::prelude::*;

verus! {

/// Commands of the HID transport, as carried in the low seven bits of the
/// command byte of an initialization frame.
#[derive(Clone, Copy, Debug, PartialEq, Eq, Structural)]
pub enum CTapCHIDCmd {
    Msg,
    Cbot,
    Init,
    Ping,
    Cancel,
    Error,
    KeepAlive,
    Wink,
    Lock,
}

impl CTapCHIDCmd {
    /// The wire value of the command (top bit not included).
    pub open spec fn spec_code(self) -> u8 {
        match self {
            CTapCHIDCmd::Msg => 0x03,
            CTapCHIDCmd::Cbot => 0x10,
            CTapCHIDCmd::Init => 0x06,
            CTapCHIDCmd::Ping => 0x01,
            CTapCHIDCmd::Cancel => 0x11,
            CTapCHIDCmd::Error => 0x3f,
            CTapCHIDCmd::KeepAlive => 0x3b,
            CTapCHIDCmd::Wink => 0x08,
            CTapCHIDCmd::Lock => 0x04,
        }
    }

    /// The command that a wire value stands for, if any.
    pub open spec fn spec_from_repr(code: u8) -> Option<CTapCHIDCmd> {
        if code == 0x03 {
            Some(CTapCHIDCmd::Msg)
        } else if code == 0x10 {
            Some(CTapCHIDCmd::Cbot)
        } else if code == 0x06 {
            Some(CTapCHIDCmd::Init)
        } else if code == 0x01 {
            Some(CTapCHIDCmd::Ping)
        } else if code == 0x11 {
            Some(CTapCHIDCmd::Cancel)
        } else if code == 0x3f {
            Some(CTapCHIDCmd::Error)
        } else if code == 0x3b {
            Some(CTapCHIDCmd::KeepAlive)
        } else if code == 0x08 {
            Some(CTapCHIDCmd::Wink)
        } else if code == 0x04 {
            Some(CTapCHIDCmd::Lock)
        } else {
            None
        }
    }

    /// The wire value.
    pub fn code(self) -> (c: u8)
        ensures
            c == self.spec_code(),
            c < 0x80,
    {
        match self {
            CTapCHIDCmd::Msg => 0x03,
            CTapCHIDCmd::Cbot => 0x10,
            CTapCHIDCmd::Init => 0x06,
            CTapCHIDCmd::Ping => 0x01,
            CTapCHIDCmd::Cancel => 0x11,
            CTapCHIDCmd::Error => 0x3f,
            CTapCHIDCmd::KeepAlive => 0x3b,
            CTapCHIDCmd::Wink => 0x08,
            CTapCHIDCmd::Lock => 0x04,
        }
    }

    /// Reads a wire value; `None` if it stands for nothing.
    pub fn from_repr(code: u8) -> (r: Option<CTapCHIDCmd>)
        ensures
            r == Self::spec_from_repr(code),
    {
        match code {
            0x03 => Some(CTapCHIDCmd::Msg),
            0x10 => Some(CTapCHIDCmd::Cbot),
            0x06 => Some(CTapCHIDCmd::Init),
            0x01 => Some(CTapCHIDCmd::Ping),
            0x11 => Some(CTapCHIDCmd::Cancel),
            0x3f => Some(CTapCHIDCmd::Error),
            0x3b => Some(CTapCHIDCmd::KeepAlive),
            0x08 => Some(CTapCHIDCmd::Wink),
            0x04 => Some(CTapCHIDCmd::Lock),
            _ => None,
        }
    }

    /// Reading back the wire value of a command gives that command, and a
    /// wire value is read as a command only if it is that command's value.
    pub proof fn lemma_code_roundtrip(c: CTapCHIDCmd, b: u8)
        ensures
            Self::spec_from_repr(c.spec_code()) == Some(c),
            c.spec_code() < 0x80,
            Self::spec_from_repr(b) == Some(c) ==> b == c.spec_code(),
    {
    }
}

/// Capability flags reported in the reply to a channel allocation request.
#[derive(Clone, Copy, Debug, PartialEq, Eq, Structural)]
pub enum CTapHIDCapabilities {
    Wink,
    Error,
    Nmsg,
}

impl CTapHIDCapabilities {
    /// The bit that the flag occupies in the capability byte.
    pub open spec fn spec_bit(self) -> u8 {
        match self {
            CTapHIDCapabilities::Wink => 0x01,
            CTapHIDCapabilities::Error => 0x04,
            CTapHIDCapabilities::Nmsg => 0x08,
        }
    }

    /// The flag's bit.
    pub fn bit(self) -> (b: u8)
        ensures
            b == self.spec_bit(),
    {
        match self {
            CTapHIDCapabilities::Wink => 0x01,
            CTapHIDCapabilities::Error => 0x04,
            CTapHIDCapabilities::Nmsg => 0x08,
        }
    }
}

/// Commands of the Bluetooth LE transport, as carried in the first byte of
/// the first fragment of a message.
#[derive(Clone, Copy, Debug, PartialEq, Eq, Structural)]
pub enum CTapBLECommand {
    Ping,
    KeepAlive,
    Msg,
    Cancel,
    Error,
}

impl CTapBLECommand {
    /// The wire value of the command.
    pub open spec fn spec_code(self) -> u8 {
        match self {
            CTapBLECommand::Ping => 0x01,
            CTapBLECommand::KeepAlive => 0x82,
            CTapBLECommand::Msg => 0x83,
            CTapBLECommand::Cancel => 0xbe,
            CTapBLECommand::Error => 0xbf,
        }
    }

    /// The command that a wire value stands for, if any.
    pub open spec fn spec_from_repr(code: u8) -> Option<CTapBLECommand> {
        if code == 0x01 {
            Some(CTapBLECommand::Ping)
        } else if code == 0x82 {
            Some(CTapBLECommand::KeepAlive)
        } else if code == 0x83 {
            Some(CTapBLECommand::Msg)
        } else if code == 0xbe {
            Some(CTapBLECommand::Cancel)
        } else if code == 0xbf {
            Some(CTapBLECommand::Error)
        } else {
            None
        }
    }

    /// The wire value.
    pub fn code(self) -> (c: u8)
        ensures
            c == self.spec_code(),
    {
        match self {
            CTapBLECommand::Ping => 0x01,
            CTapBLECommand::KeepAlive => 0x82,
            CTapBLECommand::Msg => 0x83,
            CTapBLECommand::Cancel => 0xbe,
            CTapBLECommand::Error => 0xbf,
        }
    }

    /// Reads a wire value; `None` if it stands for nothing.
    pub fn from_repr(code: u8) -> (r: Option<CTapBLECommand>)
        ensures
            r == Self::spec_from_repr(code),
    {
        match code {
            0x01 => Some(CTapBLECommand::Ping),
            0x82 => Some(CTapBLECommand::KeepAlive),
            0x83 => Some(CTapBLECommand::Msg),
            0xbe => Some(CTapBLECommand::Cancel),
            0xbf => Some(CTapBLECommand::Error),
            _ => None,
        }
    }

    /// Reading back the wire value of a command gives that command, and a
    /// wire value is read as a command only if it is that command's value.
    pub proof fn lemma_code_roundtrip(c: CTapBLECommand, b: u8)
        ensures
            Self::spec_from_repr(c.spec_code()) == Some(c),
            Self::spec_from_repr(b) == Some(c) ==> b == c.spec_code(),
    {
    }
}

/// Error kinds of the bridge. The values are those of the Bluetooth LE
/// transport's error message; `LockRequired` and `InvalidChannel` arise only
/// on the HID side.
#[derive(Clone, Copy, Debug, PartialEq, Eq, Structural)]
pub enum CTapBLEError {
    InvalidCommand,
    InvalidPAR,
    InvalidLength,
    InvalidSequence,
    RequestTimeout,
    Busy,
    LockRequired,
    InvalidChannel,
    Other,
}

impl CTapBLEError {
    /// The wire value of the error.
    pub open spec fn spec_code(self) -> u8 {
        match self {
            CTapBLEError::InvalidCommand => 0x01,
            CTapBLEError::InvalidPAR => 0x02,
            CTapBLEError::InvalidLength => 0x03,
            CTapBLEError::InvalidSequence => 0x04,
            CTapBLEError::RequestTimeout => 0x05,
            CTapBLEError::Busy => 0x06,
            CTapBLEError::LockRequired => 0x0a,
            CTapBLEError::InvalidChannel => 0x0b,
            CTapBLEError::Other => 0x7f,
        }
    }

    /// The error that a wire value stands for, if any.
    pub open spec fn spec_from_repr(code: u8) -> Option<CTapBLEError> {
        if code == 0x01 {
            Some(CTapBLEError::InvalidCommand)
        } else if code == 0x02 {
            Some(CTapBLEError::InvalidPAR)
        } else if code == 0x03 {
            Some(CTapBLEError::InvalidLength)
        } else if code == 0x04 {
            Some(CTapBLEError::InvalidSequence)
        } else if code == 0x05 {
            Some(CTapBLEError::RequestTimeout)
        } else if code == 0x06 {
            Some(CTapBLEError::Busy)
        } else if code == 0x0a {
            Some(CTapBLEError::LockRequired)
        } else if code == 0x0b {
            Some(CTapBLEError::InvalidChannel)
        } else if code == 0x7f {
            Some(CTapBLEError::Other)
        } else {
            None
        }
    }

    /// The wire value.
    pub fn code(self) -> (c: u8)
        ensures
            c == self.spec_code(),
    {
        match self {
            CTapBLEError::InvalidCommand => 0x01,
            CTapBLEError::InvalidPAR => 0x02,
            CTapBLEError::InvalidLength => 0x03,
            CTapBLEError::InvalidSequence => 0x04,
            CTapBLEError::RequestTimeout => 0x05,
            CTapBLEError::Busy => 0x06,
            CTapBLEError::LockRequired => 0x0a,
            CTapBLEError::InvalidChannel => 0x0b,
            CTapBLEError::Other => 0x7f,
        }
    }

    /// Reads a wire value; `None` if it stands for nothing.
    pub fn from_repr(code: u8) -> (r: Option<CTapBLEError>)
        ensures
            r == Self::spec_from_repr(code),
    {
        match code {
            0x01 => Some(CTapBLEError::InvalidCommand),
            0x02 => Some(CTapBLEError::InvalidPAR),
            0x03 => Some(CTapBLEError::InvalidLength),
            0x04 => Some(CTapBLEError::InvalidSequence),
            0x05 => Some(CTapBLEError::RequestTimeout),
            0x06 => Some(CTapBLEError::Busy),
            0x0a => Some(CTapBLEError::LockRequired),
            0x0b => Some(CTapBLEError::InvalidChannel),
            0x7f => Some(CTapBLEError::Other),
            _ => None,
        }
    }

    /// Reading back the wire value of an error gives that error, and a wire
    /// value is read as an error only if it is that error's value.
    pub proof fn lemma_code_roundtrip(e: CTapBLEError, b: u8)
        ensures
            Self::spec_from_repr(e.spec_code()) == Some(e),
            Self::spec_from_repr(b) == Some(e) ==> b == e.spec_code(),
    {
    }
}

/// Status codes carried in the payload of an error frame on the HID side.
#[derive(Clone, Copy, Debug, PartialEq, Eq, Structural)]
pub enum CTapStatus {
    /// The command is not a valid command.
    ErrInvalidCommand,
    /// Invalid message sequencing.
    ErrInvalidSeq,
    /// Command not allowed on this channel.
    ErrInvalidChannel,
    /// Other unspecified error.
    ErrOther,
}

impl CTapStatus {
    /// The wire value of the status.
    pub open spec fn spec_code(self) -> u8 {
        match self {
            CTapStatus::ErrInvalidCommand => 0x01,
            CTapStatus::ErrInvalidSeq => 0x04,
            CTapStatus::ErrInvalidChannel => 0x0b,
            CTapStatus::ErrOther => 0x7f,
        }
    }

    /// The status that a wire value stands for, if any.
    pub open spec fn spec_from_repr(code: u8) -> Option<CTapStatus> {
        if code == 0x01 {
            Some(CTapStatus::ErrInvalidCommand)
        } else if code == 0x04 {
            Some(CTapStatus::ErrInvalidSeq)
        } else if code == 0x0b {
            Some(CTapStatus::ErrInvalidChannel)
        } else if code == 0x7f {
            Some(CTapStatus::ErrOther)
        } else {
            None
        }
    }

    /// The wire value.
    pub fn code(self) -> (c: u8)
        ensures
            c == self.spec_code(),
    {
        match self {
            CTapStatus::ErrInvalidCommand => 0x01,
            CTapStatus::ErrInvalidSeq => 0x04,
            CTapStatus::ErrInvalidChannel => 0x0b,
            CTapStatus::ErrOther => 0x7f,
        }
    }

    /// Reads a wire value; `None` if it stands for nothing.
    pub fn from_repr(code: u8) -> (r: Option<CTapStatus>)
        ensures
            r == Self::spec_from_repr(code),
    {
        match code {
            0x01 => Some(CTapStatus::ErrInvalidCommand),
            0x04 => Some(CTapStatus::ErrInvalidSeq),
            0x0b => Some(CTapStatus::ErrInvalidChannel),
            0x7f => Some(CTapStatus::ErrOther),
            _ => None,
        }
    }

    /// Reading back the wire value of a status gives that status, and a wire
    /// value is read as a status only if it is that status's value.
    pub proof fn lemma_code_roundtrip(s: CTapStatus, b: u8)
        ensures
            Self::spec_from_repr(s.spec_code()) == Some(s),
            Self::spec_from_repr(b) == Some(s) ==> b == s.spec_code(),
    {
    }
}

} // verus!
