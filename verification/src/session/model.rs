//! The session as a mathematical state machine: its state, the events, the
//! replies, and what each event does.

use vstd::prelude::*;
use crate::ble::codec as ble_codec;
use crate::ble::reassembly as ble_reassembly;
use crate::channel::BROADCAST_CID;
use crate::channel::ChannelState;
use crate::channel::next_cid;
use crate::cmd::CTapBLECommand;
use crate::cmd::CTapBLEError;
use crate::cmd::CTapCHIDCmd;
use crate::cmd::CTapHIDCapabilities;
use crate::cmd::CTapStatus;
use crate::hid::codec as hid_codec;
use crate::hid::codec::REPORT_LEN;
use crate::hid::packet as hid_packet;
use crate::hid::reassembly as hid_reassembly;
use crate::reassembler::FeedModel;
use crate::reassembler::ReassemblerModel;
use crate::translate::ble_command;
use crate::translate::reply_command;
use crate::translate::status_of;
use crate::translate::status_of_code;
use crate::wire::be32_at;
use crate::wire::be32_bytes;
use crate::wire::be64_at;
use crate::wire::be64_bytes;

verus! {

/// Version of the HID protocol that the answer to a channel request names.
pub const PROTOCOL_VERSION: u8 = 2;

/// Keep-alive status: the authenticator is working on the command.
pub const STATUS_PROCESSING: u8 = 1;

/// Settings of a session.
#[derive(Clone, Copy, Debug, PartialEq, Eq, Structural)]
pub struct SessionConfig {
    /// Largest fragment that the authenticator takes.
    pub fragment_len: usize,
    /// Ticks of the keep-alive timer after which a command in flight is
    /// given up.
    pub max_wait_ticks: u32,
    /// Whether a cancellation by the host is passed on to the authenticator.
    pub forward_cancel: bool,
    /// Whether `Wink` and `Lock`, which the authenticator does not know, are
    /// answered as done; they are refused with `InvalidCommand` otherwise.
    pub accept_local: bool,
}

impl SessionConfig {
    /// The settings leave room for payload in a fragment, and for at least
    /// one keep-alive before a command is given up.
    pub open spec fn valid(self) -> bool {
        self.fragment_len >= 4 && self.max_wait_ticks >= 2
    }

    /// Settings for an authenticator of which nothing is known yet: the
    /// smallest fragment size that every link offers, three hundred ticks
    /// of waiting, cancellations passed on, and `Wink` and `Lock` refused.
    pub open spec fn standard() -> SessionConfig {
        SessionConfig {
            fragment_len: 20,
            max_wait_ticks: 300,
            forward_cancel: true,
            accept_local: false,
        }
    }

    /// Exec form of [`SessionConfig::standard`].
    pub fn standard_settings() -> (c: SessionConfig)
        ensures
            c == Self::standard(),
            c.valid(),
    {
        SessionConfig {
            fragment_len: 20,
            max_wait_ticks: 300,
            forward_cancel: true,
            accept_local: false,
        }
    }

    /// Exec form of [`SessionConfig::valid`].
    pub fn is_valid(&self) -> (b: bool)
        ensures
            b == self.valid(),
    {
        self.fragment_len >= 4 && self.max_wait_ticks >= 2
    }
}

/// Capability byte in the answer to a channel request.
pub open spec fn capabilities() -> u8 {
    (CTapHIDCapabilities::Error.spec_bit() + CTapHIDCapabilities::Nmsg.spec_bit()) as u8
}

/// Payload of the answer to a channel request: the nonce, the channel, the
/// protocol version, three bytes of device version and the capabilities.
pub open spec fn init_payload(nonce: u64, cid: u32) -> Seq<u8> {
    be64_bytes(nonce) + be32_bytes(cid) + seq![PROTOCOL_VERSION, 0u8, 0u8, 0u8, capabilities()]
}

/// A message for the host.
pub struct HostMessageModel {
    pub cid: u32,
    pub command: CTapCHIDCmd,
    pub payload: Seq<u8>,
}

/// A message for the authenticator.
pub struct DeviceMessageModel {
    pub command: CTapBLECommand,
    pub payload: Seq<u8>,
}

/// Mathematical value of a [`Reply`].
pub struct ReplyModel {
    pub host: Option<HostMessageModel>,
    pub device: Option<DeviceMessageModel>,
    pub closed: bool,
}

impl ReplyModel {
    /// No message for either side.
    pub open spec fn quiet(closed: bool) -> ReplyModel {
        ReplyModel { host: None, device: None, closed }
    }

    /// One message for the host.
    pub open spec fn to_host(cid: u32, command: CTapCHIDCmd, payload: Seq<u8>) -> ReplyModel {
        ReplyModel {
            host: Some(HostMessageModel { cid, command, payload }),
            device: None,
            closed: false,
        }
    }

    /// One message for the authenticator.
    pub open spec fn to_device(command: CTapBLECommand, payload: Seq<u8>) -> ReplyModel {
        ReplyModel {
            host: None,
            device: Some(DeviceMessageModel { command, payload }),
            closed: false,
        }
    }

    /// An error frame for the host, with the status that stands for `e`.
    pub open spec fn refusal(cid: u32, e: CTapBLEError) -> ReplyModel {
        Self::failure(cid, status_of(e))
    }

    /// An error frame for the host.
    pub open spec fn failure(cid: u32, status: CTapStatus) -> ReplyModel {
        Self::to_host(cid, CTapCHIDCmd::Error, seq![status.spec_code()])
    }

    /// Whether the host is sent a keep-alive.
    pub open spec fn is_keepalive(self) -> bool {
        self.host matches Some(h) && h.command == CTapCHIDCmd::KeepAlive
    }

    /// Both messages are short enough for their transports.
    pub open spec fn fits(self, config: SessionConfig) -> bool {
        &&& self.host matches Some(h) ==> h.payload.len() <= hid_codec::max_message_len(
            REPORT_LEN as nat,
        )
        &&& self.device matches Some(d) ==> d.payload.len() <= ble_codec::max_message_len(
            config.fragment_len as nat,
        )
    }
}

/// What happens to a session.
pub enum EventModel {
    /// The host wrote a report.
    Report(Seq<u8>),
    /// The authenticator sent a fragment.
    Notification(Seq<u8>),
    /// The keep-alive timer ticked.
    Tick,
    /// A transport was lost.
    Disconnected,
}

/// Mathematical value of a [`BridgeSession`].
pub struct SessionModel {
    pub config: SessionConfig,
    /// State of the channel.
    pub state: ChannelState,
    /// The channel that was issued last; zero if none was.
    pub last_cid: u32,
    /// Reassembly of the host's message.
    pub hid: ReassemblerModel<CTapCHIDCmd>,
    /// Reassembly of the authenticator's message.
    pub ble: ReassemblerModel<CTapBLECommand>,
    /// Ticks since the command in flight was passed on.
    pub waited: u32,
    /// Whether the host has cancelled the command in flight.
    pub cancelled: bool,
    /// Whether the keep-alive timer is running.
    pub keepalive: bool,
    /// Status that the next keep-alive reports.
    pub status: u8,
    /// Whether the session has ended.
    pub closed: bool,
}

impl SessionModel {
    /// A session before its first event.
    pub open spec fn initial(config: SessionConfig) -> SessionModel {
        SessionModel {
            config,
            state: ChannelState::Idle,
            last_cid: 0,
            hid: ReassemblerModel::<CTapCHIDCmd>::fresh(
                hid_codec::max_message_len(REPORT_LEN as nat),
                true,
            ),
            ble: ReassemblerModel::<CTapBLECommand>::fresh(
                ble_codec::max_message_len(config.fragment_len as nat),
                false,
            ),
            waited: 0,
            cancelled: false,
            keepalive: false,
            status: STATUS_PROCESSING,
            closed: false,
        }
    }

    /// What holds of every session.
    pub open spec fn inv(self) -> bool {
        &&& self.config.valid()
        &&& self.hid.inv()
        &&& self.hid.acc.padded
        &&& self.hid.acc.limit == hid_codec::max_message_len(REPORT_LEN as nat)
        &&& self.ble.inv()
        &&& !self.ble.acc.padded
        &&& self.ble.acc.limit == ble_codec::max_message_len(self.config.fragment_len as nat)
        &&& !(self.state is Handshaking)
        &&& self.state.cid() matches Some(c) ==> c == self.last_cid && c != 0 && c != BROADCAST_CID
        &&& self.state is Busy ==> self.waited < self.config.max_wait_ticks
        &&& self.keepalive ==> self.state is Busy && !self.cancelled
        &&& self.closed ==> self.state is Idle
    }

    /// The command in flight is over: the channel is free again, the timer
    /// stopped, and what the authenticator may still send of its answer is
    /// dropped. The host gets `answer`, or, if it has cancelled the command,
    /// the acknowledgment of the cancellation in its place.
    pub open spec fn resolve(self, answer: HostMessageModel) -> (SessionModel, ReplyModel) {
        (
            SessionModel {
                state: self.state.complete_command(),
                waited: 0,
                cancelled: false,
                keepalive: false,
                ble: self.ble.idle(),
                ..self
            },
            if self.cancelled {
                ReplyModel::to_host(answer.cid, CTapCHIDCmd::Cancel, Seq::empty())
            } else {
                ReplyModel { host: Some(answer), device: None, closed: false }
            },
        )
    }

    /// The command in flight fails with `status`.
    pub open spec fn fail(self, cid: u32, status: CTapStatus) -> (SessionModel, ReplyModel) {
        self.resolve(
            HostMessageModel { cid, command: CTapCHIDCmd::Error, payload: seq![status.spec_code()] },
        )
    }

    /// The host cancels the command in flight: the keep-alive timer stops at
    /// once, and the cancellation is passed on if the settings say so. The
    /// acknowledgment waits until the command is over.
    pub open spec fn on_cancel(self) -> (SessionModel, ReplyModel) {
        (
            SessionModel { cancelled: true, keepalive: false, ..self },
            if self.config.forward_cancel && !self.cancelled {
                ReplyModel::to_device(CTapBLECommand::Cancel, Seq::empty())
            } else {
                ReplyModel::quiet(false)
            },
        )
    }

    /// A report on the broadcast channel arrives. Only a channel request is
    /// taken there: an initialization frame with the command `Init` and a
    /// nonce of eight bytes. Anything else is refused: what does not decode
    /// for the reason that decoding gives, another frame with
    /// `InvalidChannel`, another length with `InvalidLength`. While a
    /// command is in flight the request is refused with `Busy`. Else a new
    /// channel is issued, which replaces the one allocated before, and the
    /// answer names it.
    pub open spec fn on_broadcast(self, bytes: Seq<u8>) -> (SessionModel, ReplyModel) {
        match hid_packet::decode(bytes) {
            Err(e) => (self, ReplyModel::refusal(BROADCAST_CID, e)),
            Ok(p) => if p.command != Some(CTapCHIDCmd::Init) {
                (self, ReplyModel::refusal(BROADCAST_CID, CTapBLEError::InvalidChannel))
            } else if p.length != 8 || p.data.len() < 8 {
                (self, ReplyModel::refusal(BROADCAST_CID, CTapBLEError::InvalidLength))
            } else if self.state is Busy {
                (self, ReplyModel::refusal(BROADCAST_CID, CTapBLEError::Busy))
            } else {
                let nonce = be64_at(p.data, 0) as u64;
                let cid = next_cid(self.last_cid);
                (
                    SessionModel {
                        state: self.state.begin_handshake(nonce).complete_handshake(cid),
                        last_cid: cid,
                        hid: self.hid.idle(),
                        ..self
                    },
                    ReplyModel::to_host(BROADCAST_CID, CTapCHIDCmd::Init, init_payload(nonce, cid)),
                )
            },
        }
    }

    /// A whole message of the host has arrived on the session's channel.
    /// While a command is in flight only its cancellation is taken. Else
    /// `Init`, `Cancel`, `Wink` and `Lock` are answered here, `KeepAlive`
    /// and `Error`, which are no requests, are refused, and the others are
    /// passed on under the command that carries them.
    pub open spec fn on_message(self, cid: u32, command: CTapCHIDCmd, payload: Seq<u8>) -> (
        SessionModel,
        ReplyModel,
    ) {
        if self.state is Busy {
            if command == CTapCHIDCmd::Cancel {
                self.on_cancel()
            } else {
                (self, ReplyModel::refusal(cid, CTapBLEError::Busy))
            }
        } else {
            match command {
                CTapCHIDCmd::Init => if payload.len() != 8 {
                    (self, ReplyModel::refusal(cid, CTapBLEError::InvalidLength))
                } else {
                    (
                        self,
                        ReplyModel::to_host(
                            cid,
                            CTapCHIDCmd::Init,
                            init_payload(be64_at(payload, 0) as u64, cid),
                        ),
                    )
                },
                CTapCHIDCmd::Cancel => (
                    self,
                    ReplyModel::to_host(cid, CTapCHIDCmd::Cancel, Seq::empty()),
                ),
                CTapCHIDCmd::Wink => self.on_local(cid, command),
                CTapCHIDCmd::Lock => self.on_local(cid, command),
                CTapCHIDCmd::KeepAlive => (
                    self,
                    ReplyModel::refusal(cid, CTapBLEError::InvalidCommand),
                ),
                CTapCHIDCmd::Error => (self, ReplyModel::refusal(cid, CTapBLEError::InvalidCommand)),
                _ => match ble_command(command) {
                    Some(carrier) => self.forward(cid, command, carrier, payload),
                    None => (self, ReplyModel::refusal(cid, CTapBLEError::InvalidCommand)),
                },
            }
        }
    }

    /// A command that the authenticator does not know is answered here.
    pub open spec fn on_local(self, cid: u32, command: CTapCHIDCmd) -> (SessionModel, ReplyModel) {
        if self.config.accept_local {
            (self, ReplyModel::to_host(cid, command, Seq::empty()))
        } else {
            (self, ReplyModel::refusal(cid, CTapBLEError::InvalidCommand))
        }
    }

    /// A command is passed on to the authenticator, if its payload fits
    /// into the fragments; the channel is busy from then on, and the
    /// keep-alive timer runs.
    pub open spec fn forward(
        self,
        cid: u32,
        command: CTapCHIDCmd,
        carrier: CTapBLECommand,
        payload: Seq<u8>,
    ) -> (SessionModel, ReplyModel) {
        if payload.len() > ble_codec::max_message_len(self.config.fragment_len as nat) {
            (self, ReplyModel::refusal(cid, CTapBLEError::InvalidLength))
        } else {
            (
                SessionModel {
                    state: self.state.begin_command(command),
                    waited: 0,
                    cancelled: false,
                    keepalive: true,
                    status: STATUS_PROCESSING,
                    ble: self.ble.idle(),
                    ..self
                },
                ReplyModel::to_device(carrier, payload),
            )
        }
    }

    /// The host writes a report. A report too short to name its channel and
    /// kind is refused with `InvalidLength` on the broadcast channel. A
    /// report on the broadcast channel is taken as a channel request. A
    /// report on any channel but the allocated one is refused with
    /// `InvalidChannel`, on that channel, and changes nothing. A report on
    /// the allocated channel is fed to the reassembler: what it refuses is
    /// reported to the host, and the message that it completes is answered.
    pub open spec fn on_report(self, bytes: Seq<u8>) -> (SessionModel, ReplyModel) {
        if self.closed {
            (self, ReplyModel::quiet(true))
        } else if bytes.len() < 5 {
            (self, ReplyModel::refusal(BROADCAST_CID, CTapBLEError::InvalidLength))
        } else {
            let channel = be32_at(bytes, 1) as u32;
            if channel == BROADCAST_CID {
                self.on_broadcast(bytes)
            } else if self.state.cid() != Some(channel) {
                (self, ReplyModel::refusal(channel, CTapBLEError::InvalidChannel))
            } else {
                let (hid, fed) = hid_reassembly::feed_frame(self.hid, bytes);
                let taken = SessionModel { hid, ..self };
                match fed {
                    FeedModel::Error(e) => (taken, ReplyModel::refusal(channel, e)),
                    FeedModel::Incomplete => (taken, ReplyModel::quiet(false)),
                    FeedModel::Complete(command, payload) => taken.on_message(
                        channel,
                        command,
                        payload,
                    ),
                }
            }
        }
    }

    /// A whole message of the authenticator has arrived while the command
    /// `asked` is in flight on the channel `cid`. A keep-alive sets the
    /// status that the next keep-alive for the host reports. An error ends
    /// the command with the status that stands for its code. Anything else
    /// is the answer, and goes to the host under the command that asked,
    /// unless it is too long for the reports.
    pub open spec fn on_answer(
        self,
        cid: u32,
        asked: CTapCHIDCmd,
        command: CTapBLECommand,
        payload: Seq<u8>,
    ) -> (SessionModel, ReplyModel) {
        match command {
            CTapBLECommand::KeepAlive => (
                SessionModel {
                    status: if payload.len() >= 1 {
                        payload[0]
                    } else {
                        self.status
                    },
                    ..self
                },
                ReplyModel::quiet(false),
            ),
            CTapBLECommand::Error => self.fail(
                cid,
                if payload.len() >= 1 {
                    status_of_code(payload[0])
                } else {
                    CTapStatus::ErrOther
                },
            ),
            _ => if payload.len() > hid_codec::max_message_len(REPORT_LEN as nat) {
                self.fail(cid, status_of(CTapBLEError::InvalidLength))
            } else {
                self.resolve(
                    HostMessageModel { cid, command: reply_command(asked, command), payload },
                )
            },
        }
    }

    /// Whether a fragment breaks off the answer that is being received: it
    /// begins an error message while an answer is in progress.
    pub open spec fn breaks_off(self, bytes: Seq<u8>) -> bool {
        self.ble.command.is_some() && bytes.len() >= 1 && bytes[0]
            == CTapBLECommand::Error.spec_code()
    }

    /// The authenticator sends a fragment. With no command in flight it is
    /// dropped. An error message may arrive in the middle of an answer:
    /// what has arrived of the answer is then given up, and the error is
    /// taken. Any other fragment is fed to the reassembler as it is.
    pub open spec fn on_notification(self, bytes: Seq<u8>) -> (SessionModel, ReplyModel) {
        if self.closed {
            (self, ReplyModel::quiet(true))
        } else {
            match self.state {
                ChannelState::Busy { cid, pending_command } => {
                    let ready = if self.breaks_off(bytes) {
                        self.ble.idle()
                    } else {
                        self.ble
                    };
                    let (ble, fed) = ble_reassembly::feed_frame(ready, bytes);
                    let taken = SessionModel { ble, ..self };
                    match fed {
                        FeedModel::Error(e) => taken.fail(cid, status_of(e)),
                        FeedModel::Incomplete => (taken, ReplyModel::quiet(false)),
                        FeedModel::Complete(command, payload) => taken.on_answer(
                            cid,
                            pending_command,
                            command,
                            payload,
                        ),
                    }
                },
                _ => (self, ReplyModel::quiet(false)),
            }
        }
    }

    /// The keep-alive timer ticks. While a command is in flight the tick is
    /// counted; the tick that reaches the limit gives the command up, and
    /// every tick before it sends the host a keep-alive if the timer is
    /// running.
    pub open spec fn on_tick(self) -> (SessionModel, ReplyModel) {
        if self.closed {
            (self, ReplyModel::quiet(true))
        } else {
            match self.state {
                ChannelState::Busy { cid, .. } => if self.waited + 1
                    >= self.config.max_wait_ticks {
                    self.fail(cid, status_of(CTapBLEError::RequestTimeout))
                } else {
                    (
                        SessionModel { waited: (self.waited + 1) as u32, ..self },
                        if self.keepalive {
                            ReplyModel::to_host(cid, CTapCHIDCmd::KeepAlive, seq![self.status])
                        } else {
                            ReplyModel::quiet(false)
                        },
                    )
                },
                _ => (self, ReplyModel::quiet(false)),
            }
        }
    }

    /// A transport is lost: the session ends and gives its channel up.
    pub open spec fn on_disconnect(self) -> (SessionModel, ReplyModel) {
        (
            SessionModel {
                state: ChannelState::Idle,
                hid: self.hid.idle(),
                ble: self.ble.idle(),
                waited: 0,
                cancelled: false,
                keepalive: false,
                closed: true,
                ..self
            },
            ReplyModel::quiet(true),
        )
    }

    /// The authenticator names a new fragment size. What it has sent of a
    /// message in progress is dropped. A size without room for payload is
    /// not taken.
    pub open spec fn with_fragment_len(self, len: usize) -> SessionModel {
        if len < 4 {
            self
        } else {
            SessionModel {
                config: SessionConfig { fragment_len: len, ..self.config },
                ble: ReassemblerModel::<CTapBLECommand>::fresh(
                    ble_codec::max_message_len(len as nat),
                    false,
                ),
                ..self
            }
        }
    }

    /// What an event does to a session.
    pub open spec fn step(self, event: EventModel) -> (SessionModel, ReplyModel) {
        match event {
            EventModel::Report(bytes) => self.on_report(bytes),
            EventModel::Notification(bytes) => self.on_notification(bytes),
            EventModel::Tick => self.on_tick(),
            EventModel::Disconnected => self.on_disconnect(),
        }
    }
}

/// Mathematical value of an [`Emitted`](crate::session::machine::Emitted).
pub struct EmittedModel {
    /// Reports for the host, in the order in which they are to be written.
    pub to_host: Seq<Seq<u8>>,
    /// Fragments for the authenticator, in the order in which they are to
    /// be written.
    pub to_device: Seq<Seq<u8>>,
    /// Whether the session has ended.
    pub closed: bool,
}

/// The frames of a reply: the reports of its message for the host and the
/// fragments of its message for the authenticator.
pub open spec fn rendering(config: SessionConfig, reply: ReplyModel) -> EmittedModel {
    EmittedModel {
        to_host: match reply.host {
            Some(h) => match hid_codec::encoding(h.cid, h.command, h.payload, REPORT_LEN as nat) {
                Ok(frames) => frames,
                Err(_) => Seq::empty(),
            },
            None => Seq::empty(),
        },
        to_device: match reply.device {
            Some(d) => match ble_codec::encoding(d.command, d.payload, config.fragment_len as nat) {
                Ok(frames) => frames,
                Err(_) => Seq::empty(),
            },
            None => Seq::empty(),
        },
        closed: reply.closed,
    }
}

} // verus!
