//! The channel state machine of one bridge session.
//!
//! A session has no channel until the host asks for one on the broadcast
//! channel. The request carries a nonce; the answer echoes it and names the
//! new channel. From then on the channel is bound, and busy while a command
//! is in flight on it.

use vstd::prelude::*;
use crate::cmd::CTapCHIDCmd;

verus! {

/// The channel that is reserved for asking for a channel.
pub const BROADCAST_CID: u32 = 0xffff_ffff;

/// Length of the nonce of a channel request.
pub const NONCE_LEN: usize = 8;

/// State of the channel of a session.
#[derive(Clone, Copy, Debug, PartialEq, Eq, Structural)]
pub enum ChannelState {
    /// No channel is allocated.
    Idle,
    /// A channel request has arrived; its nonce, read as a big-endian
    /// integer, is kept for the answer.
    Handshaking { nonce: u64 },
    /// The channel is allocated and free.
    Bound { cid: u32 },
    /// A command is in flight on the channel.
    Busy { cid: u32, pending_command: CTapCHIDCmd },
}

impl ChannelState {
    /// The allocated channel, if there is one.
    pub open spec fn cid(self) -> Option<u32> {
        match self {
            ChannelState::Bound { cid } => Some(cid),
            ChannelState::Busy { cid, .. } => Some(cid),
            _ => None,
        }
    }

    /// A channel request arrives with `nonce`.
    pub open spec fn begin_handshake(self, nonce: u64) -> ChannelState {
        match self {
            ChannelState::Busy { .. } => self,
            _ => ChannelState::Handshaking { nonce },
        }
    }

    /// The channel request is answered with the channel `cid`.
    pub open spec fn complete_handshake(self, cid: u32) -> ChannelState {
        match self {
            ChannelState::Handshaking { .. } => ChannelState::Bound { cid },
            _ => self,
        }
    }

    /// A command begins on the channel.
    pub open spec fn begin_command(self, command: CTapCHIDCmd) -> ChannelState {
        match self {
            ChannelState::Bound { cid } => ChannelState::Busy { cid, pending_command: command },
            _ => self,
        }
    }

    /// The command in flight is answered, or given up.
    pub open spec fn complete_command(self) -> ChannelState {
        match self {
            ChannelState::Busy { cid, .. } => ChannelState::Bound { cid },
            _ => self,
        }
    }

    /// Exec form of [`ChannelState::cid`].
    pub fn allocated(self) -> (r: Option<u32>)
        ensures
            r == self.cid(),
    {
        match self {
            ChannelState::Bound { cid } => Some(cid),
            ChannelState::Busy { cid, .. } => Some(cid),
            _ => None,
        }
    }

    /// Whether a command is in flight.
    pub fn is_busy(self) -> (b: bool)
        ensures
            b == (self is Busy),
    {
        match self {
            ChannelState::Busy { .. } => true,
            _ => false,
        }
    }

    /// Exec form of [`ChannelState::begin_handshake`]: from every state but
    /// `Busy` the channel request is taken up.
    pub fn on_channel_request(self, nonce: u64) -> (r: ChannelState)
        ensures
            r == self.begin_handshake(nonce),
    {
        match self {
            ChannelState::Busy { .. } => self,
            _ => ChannelState::Handshaking { nonce },
        }
    }

    /// Exec form of [`ChannelState::complete_handshake`].
    pub fn on_channel_issued(self, cid: u32) -> (r: ChannelState)
        ensures
            r == self.complete_handshake(cid),
    {
        match self {
            ChannelState::Handshaking { .. } => ChannelState::Bound { cid },
            _ => self,
        }
    }

    /// Exec form of [`ChannelState::begin_command`].
    pub fn on_command(self, command: CTapCHIDCmd) -> (r: ChannelState)
        ensures
            r == self.begin_command(command),
    {
        match self {
            ChannelState::Bound { cid } => ChannelState::Busy { cid, pending_command: command },
            _ => self,
        }
    }

    /// Exec form of [`ChannelState::complete_command`].
    pub fn on_completion(self) -> (r: ChannelState)
        ensures
            r == self.complete_command(),
    {
        match self {
            ChannelState::Busy { cid, .. } => ChannelState::Bound { cid },
            _ => self,
        }
    }
}

/// The channel that is issued after the channel `last`: the next value that
/// is neither zero nor the broadcast channel.
pub open spec fn next_cid(last: u32) -> u32 {
    if last >= 0xffff_fffe {
        1
    } else {
        (last + 1) as u32
    }
}

/// Exec form of [`next_cid`].
pub fn fresh_cid(last: u32) -> (cid: u32)
    ensures
        cid == next_cid(last),
        cid != 0,
        cid != BROADCAST_CID,
        cid != last,
{
    if last >= 0xffff_fffe {
        1
    } else {
        last + 1
    }
}

/// A channel request is answered from every state in which no command is in
/// flight: the channel passes through `Handshaking` with the request's nonce
/// to `Bound`, and the channel issued is neither zero, nor the broadcast
/// channel, nor the channel issued last.
pub proof fn lemma_handshake(state: ChannelState, nonce: u64, last: u32)
    requires
        !(state is Busy),
    ensures
        state.begin_handshake(nonce) == (ChannelState::Handshaking { nonce }),
        state.begin_handshake(nonce).complete_handshake(next_cid(last)) == (ChannelState::Bound {
            cid: next_cid(last),
        }),
        next_cid(last) != 0,
        next_cid(last) != BROADCAST_CID,
        next_cid(last) != last,
{
}

/// A command takes a bound channel to `Busy` and its completion back to
/// `Bound`, on the same channel.
pub proof fn lemma_command_cycle(cid: u32, command: CTapCHIDCmd)
    ensures
        (ChannelState::Bound { cid }).begin_command(command) == (ChannelState::Busy {
            cid,
            pending_command: command,
        }),
        (ChannelState::Bound { cid }).begin_command(command).complete_command() == (
        ChannelState::Bound { cid }),
{
}

} // verus!
