//! One fragment of the Bluetooth LE transport.
//!
//! The first fragment of a message begins with the command byte and two
//! bytes that give the length of the whole message, most significant first;
//! the first chunk of the payload follows. A continuation fragment begins
//! with its sequence number, which has its top bit clear, and the next chunk
//! follows. One command, `Ping`, has its top bit clear as well, so the first
//! byte alone does not tell the two kinds apart: a fragment is read as a
//! continuation only while a message is in progress.

use vstd::prelude::*;
use crate::cmd::CTapBLECommand;
use crate::cmd::CTapBLEError;
use crate::wire::be16_at;
use crate::wire::put_range;
use crate::wire::read_be16;

verus! {

/// Bytes that stand before the payload chunk in a first fragment.
pub const FIRST_HEADER_LEN: usize = 3;

/// Bytes that stand before the payload chunk in a continuation fragment.
pub const CONT_HEADER_LEN: usize = 1;

/// Sequence numbers are below this value.
pub const SEQ_LIMIT: u8 = 0x80;

/// A decoded fragment.
#[derive(Debug)]
pub struct Fragment {
    /// Command, in a first fragment.
    pub command: Option<CTapBLECommand>,
    /// Sequence number, in a continuation fragment.
    pub seq_no: Option<u8>,
    /// Declared length of the whole message, in a first fragment; zero in a
    /// continuation fragment.
    pub length: u16,
    /// The fragment's chunk of the payload.
    pub data: Vec<u8>,
}

/// Mathematical value of a [`Fragment`].
pub struct FragmentModel {
    pub command: Option<CTapBLECommand>,
    pub seq_no: Option<u8>,
    pub length: u16,
    pub data: Seq<u8>,
}

impl View for Fragment {
    type V = FragmentModel;

    open spec fn view(&self) -> FragmentModel {
        FragmentModel {
            command: self.command,
            seq_no: self.seq_no,
            length: self.length,
            data: self.data@,
        }
    }
}

/// What the bytes of a fragment decode to, while a message is in progress
/// (`continuing`) or not.
pub open spec fn decode(bytes: Seq<u8>, continuing: bool) -> Result<FragmentModel, CTapBLEError> {
    if bytes.len() < 1 {
        Err(CTapBLEError::InvalidLength)
    } else if continuing && bytes[0] < 0x80 {
        Ok(FragmentModel { command: None, seq_no: Some(bytes[0]), length: 0, data: bytes.skip(1) })
    } else if bytes.len() < 3 {
        Err(CTapBLEError::InvalidLength)
    } else {
        match CTapBLECommand::spec_from_repr(bytes[0]) {
            None => Err(CTapBLEError::InvalidCommand),
            Some(c) => Ok(
                FragmentModel {
                    command: Some(c),
                    seq_no: None,
                    length: be16_at(bytes, 1) as u16,
                    data: bytes.skip(3),
                },
            ),
        }
    }
}

impl Fragment {
    /// Decodes one fragment. An empty fragment, or a first fragment too
    /// short for its header, is refused with `InvalidLength`, a first
    /// fragment with an unknown command with `InvalidCommand`.
    pub fn new(data: &[u8], continuing: bool) -> (r: Result<Fragment, CTapBLEError>)
        ensures
            match r {
                Ok(f) => decode(data@, continuing) == Ok::<FragmentModel, CTapBLEError>(f@),
                Err(e) => decode(data@, continuing) == Err::<FragmentModel, CTapBLEError>(e),
            },
    {
        if data.len() < CONT_HEADER_LEN {
            return Err(CTapBLEError::InvalidLength);
        }
        let lead: u8 = data[0];
        if continuing && lead < SEQ_LIMIT {
            let mut chunk: Vec<u8> = Vec::new();
            put_range(&mut chunk, data, CONT_HEADER_LEN, data.len());
            assert(chunk@ =~= data@.skip(1));
            return Ok(Fragment { command: None, seq_no: Some(lead), length: 0, data: chunk });
        }
        if data.len() < FIRST_HEADER_LEN {
            return Err(CTapBLEError::InvalidLength);
        }
        match CTapBLECommand::from_repr(lead) {
            None => Err(CTapBLEError::InvalidCommand),
            Some(c) => {
                let length: u16 = read_be16(data, 1);
                let mut chunk: Vec<u8> = Vec::new();
                put_range(&mut chunk, data, FIRST_HEADER_LEN, data.len());
                assert(chunk@ =~= data@.skip(3));
                Ok(Fragment { command: Some(c), seq_no: None, length, data: chunk })
            },
        }
    }

    /// Whether this is the first fragment of a message.
    pub fn is_first(&self) -> (b: bool)
        ensures
            b == self@.command.is_some(),
    {
        self.command.is_some()
    }
}

} // verus!
