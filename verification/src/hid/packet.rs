//! One frame of the HID transport.
//!
//! The first byte of a frame tells the two kinds apart. With its top bit set
//! the frame is an initialization frame, and the low seven bits are the
//! command; with its top bit clear the frame is a continuation frame, and
//! the byte is the sequence number. The four bytes that follow are the
//! channel, most significant first.
//!
//! In an initialization frame the channel is followed by the command byte
//! once more, by two bytes that give the length of the whole message, most
//! significant first, and by the first chunk of the payload: eight bytes
//! stand before the chunk. Only the first byte is read for the command. In a
//! continuation frame the next chunk follows the channel at once: five
//! bytes stand before it. A report of 64 bytes so holds 56 bytes of payload
//! in an initialization frame and 59 in a continuation frame.
//!
//! The length of the report is the measure of the transport: a message can
//! be as long as one initialization frame and 128 continuation frames of
//! that length hold, and an initialization frame that declares more is
//! refused.

use vstd::prelude::*;
use crate::cmd::CTapBLEError;
use crate::cmd::CTapCHIDCmd;
use crate::hid::codec::max_message;
use crate::hid::codec::max_message_len;
use crate::wire::be16_at;
use crate::wire::be32_at;
use crate::wire::put_range;
use crate::wire::read_be16;
use crate::wire::read_be32;

verus! {

/// Value of the first byte from which on a frame is an initialization
/// frame.
pub const FRAME_TYPE_INIT: u8 = 0x80;

/// Bytes that stand before the payload chunk in an initialization frame.
pub const INIT_HEADER_LEN: usize = 8;

/// Bytes that stand before the payload chunk in a continuation frame.
pub const CONT_HEADER_LEN: usize = 5;

/// A decoded frame.
#[derive(Debug)]
pub struct Packet {
    /// Channel that the frame is addressed to.
    pub channel: u32,
    /// Command, in an initialization frame.
    pub command: Option<CTapCHIDCmd>,
    /// Sequence number, in a continuation frame.
    pub seq_no: Option<u8>,
    /// Declared length of the whole message, in an initialization frame;
    /// zero in a continuation frame.
    pub length: u16,
    /// The frame's chunk of the payload, padding included.
    pub data: Vec<u8>,
}

/// Mathematical value of a [`Packet`].
pub struct PacketModel {
    pub channel: u32,
    pub command: Option<CTapCHIDCmd>,
    pub seq_no: Option<u8>,
    pub length: u16,
    pub data: Seq<u8>,
}

impl View for Packet {
    type V = PacketModel;

    open spec fn view(&self) -> PacketModel {
        PacketModel {
            channel: self.channel,
            command: self.command,
            seq_no: self.seq_no,
            length: self.length,
            data: self.data@,
        }
    }
}

/// What the bytes of a frame decode to.
pub open spec fn decode(bytes: Seq<u8>) -> Result<PacketModel, CTapBLEError> {
    if bytes.len() < 5 {
        Err(CTapBLEError::InvalidLength)
    } else if bytes[0] >= 0x80 {
        if bytes.len() < 8 {
            Err(CTapBLEError::InvalidLength)
        } else {
            match CTapCHIDCmd::spec_from_repr((bytes[0] - 0x80) as u8) {
                None => Err(CTapBLEError::InvalidCommand),
                Some(c) => if be16_at(bytes, 6) > max_message_len(bytes.len()) {
                    Err(CTapBLEError::InvalidLength)
                } else {
                    Ok(
                        PacketModel {
                            channel: be32_at(bytes, 1) as u32,
                            command: Some(c),
                            seq_no: None,
                            length: be16_at(bytes, 6) as u16,
                            data: bytes.skip(8),
                        },
                    )
                },
            }
        }
    } else {
        Ok(
            PacketModel {
                channel: be32_at(bytes, 1) as u32,
                command: None,
                seq_no: Some(bytes[0]),
                length: 0,
                data: bytes.skip(5),
            },
        )
    }
}

impl Packet {
    /// Decodes one frame. A frame too short for its header is refused with
    /// `InvalidLength`, an initialization frame with an unknown command with
    /// `InvalidCommand`, and one that declares a message longer than frames
    /// of its length can carry with `InvalidLength`.
    pub fn new(data: &[u8]) -> (r: Result<Packet, CTapBLEError>)
        ensures
            match r {
                Ok(p) => decode(data@) == Ok::<PacketModel, CTapBLEError>(p@),
                Err(e) => decode(data@) == Err::<PacketModel, CTapBLEError>(e),
            },
    {
        if data.len() < CONT_HEADER_LEN {
            return Err(CTapBLEError::InvalidLength);
        }
        let type_or_seq: u8 = data[0];
        let channel: u32 = read_be32(data, 1);
        if type_or_seq >= FRAME_TYPE_INIT {
            if data.len() < INIT_HEADER_LEN {
                return Err(CTapBLEError::InvalidLength);
            }
            match CTapCHIDCmd::from_repr(type_or_seq - FRAME_TYPE_INIT) {
                None => Err(CTapBLEError::InvalidCommand),
                Some(c) => {
                    let length: u16 = read_be16(data, 6);
                    if length as usize > max_message(data.len()) {
                        return Err(CTapBLEError::InvalidLength);
                    }
                    let mut chunk: Vec<u8> = Vec::new();
                    put_range(&mut chunk, data, INIT_HEADER_LEN, data.len());
                    assert(chunk@ =~= data@.skip(8));
                    Ok(Packet { channel, command: Some(c), seq_no: None, length, data: chunk })
                },
            }
        } else {
            let mut chunk: Vec<u8> = Vec::new();
            put_range(&mut chunk, data, CONT_HEADER_LEN, data.len());
            assert(chunk@ =~= data@.skip(5));
            Ok(Packet { channel, command: None, seq_no: Some(type_or_seq), length: 0, data: chunk })
        }
    }

    /// Whether this is an initialization frame.
    pub fn is_init(&self) -> (b: bool)
        ensures
            b == self@.command.is_some(),
    {
        self.command.is_some()
    }
}

} // verus!
