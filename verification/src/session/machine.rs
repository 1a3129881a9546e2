//! The session as it runs.

use vstd::prelude::*;
use crate::ble::codec as ble_codec;
use crate::ble::reassembly::BleReassembler;
use crate::channel::BROADCAST_CID;
use crate::channel::ChannelState;
use crate::channel::fresh_cid;
use crate::channel::NONCE_LEN;
use crate::cmd::CTapBLECommand;
use crate::cmd::CTapBLEError;
use crate::cmd::CTapCHIDCmd;
use crate::cmd::CTapHIDCapabilities;
use crate::cmd::CTapStatus;
use crate::hid::codec as hid_codec;
use crate::hid::codec::REPORT_LEN;
use crate::hid::packet::Packet;
use crate::hid::reassembly::HidReassembler;
use crate::reassembler::Feed;
use crate::reassembler::Message;
use crate::session::laws::lemma_initial_inv;
use crate::session::laws::lemma_on_answer_sound;
use crate::session::laws::lemma_on_broadcast_sound;
use crate::session::laws::lemma_on_message_sound;
use crate::session::laws::lemma_on_notification_sound;
use crate::session::laws::lemma_on_report_sound;
use crate::session::laws::lemma_on_tick_sound;
use crate::session::laws::lemma_resolve_sound;
use crate::session::laws::lemma_step_sound;
use crate::session::model::DeviceMessageModel;
use crate::session::model::EmittedModel;
use crate::session::model::EventModel;
use crate::session::model::HostMessageModel;
use crate::session::model::init_payload;
use crate::session::model::PROTOCOL_VERSION;
use crate::session::model::rendering;
use crate::session::model::ReplyModel;
use crate::session::model::SessionConfig;
use crate::session::model::SessionModel;
use crate::session::model::STATUS_PROCESSING;
use crate::translate::code_to_status;
use crate::translate::to_ble_command;
use crate::translate::to_reply_command;
use crate::translate::to_status;
use crate::wire::contents;
use crate::wire::put_be32;
use crate::wire::put_be64;
use crate::wire::read_be32;
use crate::wire::read_be64;

verus! {

/// A message for the host.
#[derive(Debug)]
pub struct HostMessage {
    /// Channel on which the message goes out.
    pub cid: u32,
    pub command: CTapCHIDCmd,
    pub payload: Vec<u8>,
}

impl View for HostMessage {
    type V = HostMessageModel;

    open spec fn view(&self) -> HostMessageModel {
        HostMessageModel { cid: self.cid, command: self.command, payload: self.payload@ }
    }
}

/// What a session answers to an event: at most one message for each side.
#[derive(Debug)]
pub struct Reply {
    pub host: Option<HostMessage>,
    pub device: Option<Message<CTapBLECommand>>,
    /// Whether the session has ended.
    pub closed: bool,
}

impl View for Reply {
    type V = ReplyModel;

    open spec fn view(&self) -> ReplyModel {
        ReplyModel {
            host: match self.host {
                Some(h) => Some(h@),
                None => None,
            },
            device: match self.device {
                Some(d) => Some(DeviceMessageModel { command: d.command, payload: d.payload@ }),
                None => None,
            },
            closed: self.closed,
        }
    }
}

impl Reply {
    /// No message for either side.
    pub fn quiet(closed: bool) -> (r: Reply)
        ensures
            r@ == ReplyModel::quiet(closed),
    {
        Reply { host: None, device: None, closed }
    }

    /// One message for the host.
    pub fn to_host(cid: u32, command: CTapCHIDCmd, payload: Vec<u8>) -> (r: Reply)
        ensures
            r@ == ReplyModel::to_host(cid, command, payload@),
    {
        Reply { host: Some(HostMessage { cid, command, payload }), device: None, closed: false }
    }

    /// One message for the authenticator.
    pub fn to_device(command: CTapBLECommand, payload: Vec<u8>) -> (r: Reply)
        ensures
            r@ == ReplyModel::to_device(command, payload@),
    {
        Reply { host: None, device: Some(Message { command, payload }), closed: false }
    }

    /// An error frame for the host.
    pub fn failure(cid: u32, status: CTapStatus) -> (r: Reply)
        ensures
            r@ == ReplyModel::failure(cid, status),
    {
        let mut payload: Vec<u8> = Vec::new();
        payload.push(status.code());
        assert(payload@ =~= seq![status.spec_code()]);
        Reply::to_host(cid, CTapCHIDCmd::Error, payload)
    }

    /// An error frame for the host, with the status that stands for `e`.
    pub fn refusal(cid: u32, e: CTapBLEError) -> (r: Reply)
        ensures
            r@ == ReplyModel::refusal(cid, e),
    {
        Reply::failure(cid, to_status(e))
    }
}

/// What happens to a session.
#[derive(Debug)]
pub enum Event {
    /// The host wrote a report.
    Report(Vec<u8>),
    /// The authenticator sent a fragment.
    Notification(Vec<u8>),
    /// The keep-alive timer ticked.
    Tick,
    /// A transport was lost.
    Disconnected,
}

impl View for Event {
    type V = EventModel;

    open spec fn view(&self) -> EventModel {
        match *self {
            Event::Report(bytes) => EventModel::Report(bytes@),
            Event::Notification(bytes) => EventModel::Notification(bytes@),
            Event::Tick => EventModel::Tick,
            Event::Disconnected => EventModel::Disconnected,
        }
    }
}

/// The frames of a reply, ready to be written to the transports.
#[derive(Debug)]
pub struct Emitted {
    /// Reports for the host, in the order in which they are to be written.
    pub to_host: Vec<Vec<u8>>,
    /// Fragments for the authenticator, in the order in which they are to
    /// be written.
    pub to_device: Vec<Vec<u8>>,
    /// Whether the session has ended.
    pub closed: bool,
}

impl View for Emitted {
    type V = EmittedModel;

    open spec fn view(&self) -> EmittedModel {
        EmittedModel {
            to_host: contents(self.to_host@),
            to_device: contents(self.to_device@),
            closed: self.closed,
        }
    }
}

/// Encodes the messages of a reply for their transports.
pub fn render(config: &SessionConfig, reply: &Reply) -> (r: Emitted)
    ensures
        r@ == rendering(*config, reply@),
{
    let to_host: Vec<Vec<u8>> = match &reply.host {
        Some(h) => match hid_codec::encode(h.cid, h.command, h.payload.as_slice(), REPORT_LEN) {
            Ok(frames) => frames,
            Err(_) => Vec::new(),
        },
        None => Vec::new(),
    };
    let to_device: Vec<Vec<u8>> = match &reply.device {
        Some(d) => match ble_codec::encode(d.command, d.payload.as_slice(), config.fragment_len) {
            Ok(frames) => frames,
            Err(_) => Vec::new(),
        },
        None => Vec::new(),
    };
    let r = Emitted { to_host, to_device, closed: reply.closed };
    assert(r@.to_host =~= rendering(*config, reply@).to_host);
    assert(r@.to_device =~= rendering(*config, reply@).to_device);
    r
}

/// Builds the payload of the answer to a channel request.
pub fn init_reply(nonce: u64, cid: u32) -> (r: Vec<u8>)
    ensures
        r@ == init_payload(nonce, cid),
{
    let mut out: Vec<u8> = Vec::new();
    put_be64(&mut out, nonce);
    put_be32(&mut out, cid);
    out.push(PROTOCOL_VERSION);
    out.push(0u8);
    out.push(0u8);
    out.push(0u8);
    out.push(CTapHIDCapabilities::Error.bit() + CTapHIDCapabilities::Nmsg.bit());
    assert(out@ =~= init_payload(nonce, cid));
    out
}

/// One bridge session.
#[derive(Debug)]
pub struct BridgeSession {
    config: SessionConfig,
    state: ChannelState,
    last_cid: u32,
    hid: HidReassembler,
    ble: BleReassembler,
    waited: u32,
    cancelled: bool,
    keepalive: bool,
    status: u8,
    closed: bool,
}

impl View for BridgeSession {
    type V = SessionModel;

    closed spec fn view(&self) -> SessionModel {
        SessionModel {
            config: self.config,
            state: self.state,
            last_cid: self.last_cid,
            hid: self.hid@,
            ble: self.ble@,
            waited: self.waited,
            cancelled: self.cancelled,
            keepalive: self.keepalive,
            status: self.status,
            closed: self.closed,
        }
    }
}

impl BridgeSession {
    /// Validity of the representation.
    pub closed spec fn wf(&self) -> bool {
        &&& self.hid.wf()
        &&& self.ble.wf()
        &&& self@.inv()
    }

    /// A valid session's value satisfies the invariant of the model.
    pub proof fn lemma_wf(&self)
        requires
            self.wf(),
        ensures
            self@.inv(),
    {
    }

    /// A session before its first event. Settings that are not valid are
    /// refused with `InvalidPAR`.
    pub fn new(config: SessionConfig) -> (r: Result<BridgeSession, CTapBLEError>)
        ensures
            match r {
                Ok(s) => config.valid() && s.wf() && s@ == SessionModel::initial(config),
                Err(e) => !config.valid() && e == CTapBLEError::InvalidPAR,
            },
    {
        if !config.is_valid() {
            return Err(CTapBLEError::InvalidPAR);
        }
        proof {
            lemma_initial_inv(config);
        }
        Ok(
            BridgeSession {
                config,
                state: ChannelState::Idle,
                last_cid: 0,
                hid: HidReassembler::new(hid_codec::max_message(REPORT_LEN)),
                ble: BleReassembler::new(ble_codec::max_message(config.fragment_len)),
                waited: 0,
                cancelled: false,
                keepalive: false,
                status: STATUS_PROCESSING,
                closed: false,
            },
        )
    }

    /// The settings.
    pub fn config(&self) -> (c: SessionConfig)
        ensures
            c == self@.config,
    {
        self.config
    }

    /// State of the channel.
    pub fn state(&self) -> (s: ChannelState)
        ensures
            s == self@.state,
    {
        self.state
    }

    /// The allocated channel, if there is one.
    pub fn cid(&self) -> (c: Option<u32>)
        ensures
            c == self@.state.cid(),
    {
        self.state.allocated()
    }

    /// Whether a command is in flight, so that ticks are to be delivered.
    pub fn is_waiting(&self) -> (b: bool)
        ensures
            b == (self@.state is Busy),
    {
        self.state.is_busy()
    }

    /// Whether the keep-alive timer is running.
    pub fn keepalive_running(&self) -> (b: bool)
        ensures
            b == self@.keepalive,
    {
        self.keepalive
    }

    /// Whether the session has ended.
    pub fn is_closed(&self) -> (b: bool)
        ensures
            b == self@.closed,
    {
        self.closed
    }

    /// Takes the fragment size that the authenticator names. What it has
    /// sent of a message in progress is dropped. A size without room for
    /// payload is not taken, and `false` returned.
    pub fn set_fragment_len(&mut self, len: usize) -> (taken: bool)
        requires
            old(self).wf(),
        ensures
            final(self).wf(),
            taken == (len >= 4),
            final(self)@ == old(self)@.with_fragment_len(len),
    {
        if len < 4 {
            return false;
        }
        self.config.fragment_len = len;
        self.ble.set_limit(ble_codec::max_message(len));
        true
    }

    /// Ends the command in flight.
    fn resolve(&mut self, answer: HostMessage) -> (r: Reply)
        requires
            old(self).wf(),
            answer.payload@.len() <= hid_codec::max_message_len(REPORT_LEN as nat),
        ensures
            final(self).wf(),
            (final(self)@, r@) == old(self)@.resolve(answer@),
    {
        proof {
            lemma_resolve_sound(self@, answer@);
        }
        let cancelled: bool = self.cancelled;
        self.state = self.state.on_completion();
        self.waited = 0;
        self.cancelled = false;
        self.keepalive = false;
        self.ble.reset();
        if cancelled {
            Reply::to_host(answer.cid, CTapCHIDCmd::Cancel, Vec::new())
        } else {
            Reply { host: Some(answer), device: None, closed: false }
        }
    }

    /// Ends the command in flight with an error.
    fn fail(&mut self, cid: u32, status: CTapStatus) -> (r: Reply)
        requires
            old(self).wf(),
        ensures
            final(self).wf(),
            (final(self)@, r@) == old(self)@.fail(cid, status),
    {
        let mut payload: Vec<u8> = Vec::new();
        payload.push(status.code());
        assert(payload@ =~= seq![status.spec_code()]);
        self.resolve(HostMessage { cid, command: CTapCHIDCmd::Error, payload })
    }

    /// Takes a request on the broadcast channel.
    fn on_broadcast(&mut self, report: &[u8]) -> (r: Reply)
        requires
            old(self).wf(),
            !old(self)@.closed,
        ensures
            final(self).wf(),
            (final(self)@, r@) == old(self)@.on_broadcast(report@),
    {
        proof {
            lemma_on_broadcast_sound(self@, report@);
        }
        match Packet::new(report) {
            Err(e) => Reply::refusal(BROADCAST_CID, e),
            Ok(p) => {
                let is_init: bool = match p.command {
                    Some(CTapCHIDCmd::Init) => true,
                    _ => false,
                };
                if !is_init {
                    Reply::refusal(BROADCAST_CID, CTapBLEError::InvalidChannel)
                } else if p.length != 8 || p.data.len() < NONCE_LEN {
                    Reply::refusal(BROADCAST_CID, CTapBLEError::InvalidLength)
                } else if self.state.is_busy() {
                    Reply::refusal(BROADCAST_CID, CTapBLEError::Busy)
                } else {
                    let nonce: u64 = read_be64(p.data.as_slice(), 0);
                    let cid: u32 = fresh_cid(self.last_cid);
                    self.state = self.state.on_channel_request(nonce).on_channel_issued(cid);
                    self.last_cid = cid;
                    self.hid.reset();
                    Reply::to_host(BROADCAST_CID, CTapCHIDCmd::Init, init_reply(nonce, cid))
                }
            },
        }
    }

    /// Passes a command on to the authenticator.
    fn forward(&mut self, cid: u32, command: CTapCHIDCmd, carrier: CTapBLECommand, payload: Vec<u8>) -> (r: Reply)
        requires
            old(self).wf(),
        ensures
            final(self)@.hid == old(self)@.hid,
            final(self).hid.wf(),
            final(self).ble.wf(),
            (final(self)@, r@) == old(self)@.forward(cid, command, carrier, payload@),
    {
        if payload.len() > ble_codec::max_message(self.config.fragment_len) {
            Reply::refusal(cid, CTapBLEError::InvalidLength)
        } else {
            self.state = self.state.on_command(command);
            self.waited = 0;
            self.cancelled = false;
            self.keepalive = true;
            self.status = STATUS_PROCESSING;
            self.ble.reset();
            Reply::to_device(carrier, payload)
        }
    }

    /// Answers a whole message of the host.
    fn on_message(&mut self, cid: u32, message: Message<CTapCHIDCmd>) -> (r: Reply)
        requires
            old(self).wf(),
            !old(self)@.closed,
            old(self)@.state.cid() == Some(cid),
            message.payload@.len() <= hid_codec::max_message_len(REPORT_LEN as nat),
        ensures
            final(self).wf(),
            (final(self)@, r@) == old(self)@.on_message(cid, message.command, message.payload@),
    {
        proof {
            lemma_on_message_sound(self@, cid, message.command, message.payload@);
        }
        let command: CTapCHIDCmd = message.command;
        if self.state.is_busy() {
            match command {
                CTapCHIDCmd::Cancel => {
                    let pass_on: bool = self.config.forward_cancel && !self.cancelled;
                    self.cancelled = true;
                    self.keepalive = false;
                    if pass_on {
                        Reply::to_device(CTapBLECommand::Cancel, Vec::new())
                    } else {
                        Reply::quiet(false)
                    }
                },
                _ => Reply::refusal(cid, CTapBLEError::Busy),
            }
        } else {
            match command {
                CTapCHIDCmd::Init => {
                    if message.payload.len() != NONCE_LEN {
                        Reply::refusal(cid, CTapBLEError::InvalidLength)
                    } else {
                        let nonce: u64 = read_be64(message.payload.as_slice(), 0);
                        Reply::to_host(cid, CTapCHIDCmd::Init, init_reply(nonce, cid))
                    }
                },
                CTapCHIDCmd::Cancel => Reply::to_host(cid, CTapCHIDCmd::Cancel, Vec::new()),
                CTapCHIDCmd::Wink | CTapCHIDCmd::Lock => {
                    if self.config.accept_local {
                        Reply::to_host(cid, command, Vec::new())
                    } else {
                        Reply::refusal(cid, CTapBLEError::InvalidCommand)
                    }
                },
                CTapCHIDCmd::KeepAlive | CTapCHIDCmd::Error => Reply::refusal(
                    cid,
                    CTapBLEError::InvalidCommand,
                ),
                _ => match to_ble_command(command) {
                    Some(carrier) => self.forward(cid, command, carrier, message.payload),
                    None => Reply::refusal(cid, CTapBLEError::InvalidCommand),
                },
            }
        }
    }

    /// The host writes a report.
    pub fn on_report(&mut self, report: &[u8]) -> (r: Reply)
        requires
            old(self).wf(),
        ensures
            final(self).wf(),
            (final(self)@, r@) == old(self)@.on_report(report@),
    {
        proof {
            lemma_on_report_sound(self@, report@);
        }
        if self.closed {
            return Reply::quiet(true);
        }
        if report.len() < 5 {
            return Reply::refusal(BROADCAST_CID, CTapBLEError::InvalidLength);
        }
        let channel: u32 = read_be32(report, 1);
        if channel == BROADCAST_CID {
            return self.on_broadcast(report);
        }
        let allocated: bool = match self.state.allocated() {
            Some(cid) => cid == channel,
            None => false,
        };
        if !allocated {
            return Reply::refusal(channel, CTapBLEError::InvalidChannel);
        }
        proof {
            crate::hid::reassembly::lemma_feed_keeps(self@.hid, report@);
            self.hid.lemma_wf();
        }
        match self.hid.feed_bytes(report) {
            Feed::Error(e) => Reply::refusal(channel, e),
            Feed::Incomplete => Reply::quiet(false),
            Feed::Complete(message) => self.on_message(channel, message),
        }
    }

    /// Answers a whole message of the authenticator.
    fn on_answer(&mut self, cid: u32, asked: CTapCHIDCmd, message: Message<CTapBLECommand>) -> (r:
        Reply)
        requires
            old(self).wf(),
            old(self)@.state is Busy,
        ensures
            final(self).wf(),
            (final(self)@, r@) == old(self)@.on_answer(
                cid,
                asked,
                message.command,
                message.payload@,
            ),
    {
        proof {
            lemma_on_answer_sound(self@, cid, asked, message.command, message.payload@);
        }
        match message.command {
            CTapBLECommand::KeepAlive => {
                if message.payload.len() >= 1 {
                    self.status = message.payload[0];
                }
                Reply::quiet(false)
            },
            CTapBLECommand::Error => {
                let status: CTapStatus = if message.payload.len() >= 1 {
                    code_to_status(message.payload[0])
                } else {
                    CTapStatus::ErrOther
                };
                self.fail(cid, status)
            },
            _ => {
                if message.payload.len() > hid_codec::max_message(REPORT_LEN) {
                    self.fail(cid, to_status(CTapBLEError::InvalidLength))
                } else {
                    let command: CTapCHIDCmd = to_reply_command(asked, message.command);
                    self.resolve(HostMessage { cid, command, payload: message.payload })
                }
            },
        }
    }

    /// The authenticator sends a fragment.
    pub fn on_notification(&mut self, fragment: &[u8]) -> (r: Reply)
        requires
            old(self).wf(),
        ensures
            final(self).wf(),
            (final(self)@, r@) == old(self)@.on_notification(fragment@),
    {
        proof {
            lemma_on_notification_sound(self@, fragment@);
        }
        if self.closed {
            return Reply::quiet(true);
        }
        match self.state {
            ChannelState::Busy { cid, pending_command } => {
                proof {
                    self.ble.lemma_wf();
                }
                if self.ble.pending_command().is_some() && fragment.len() >= 1 && fragment[0]
                    == CTapBLECommand::Error.code() {
                    self.ble.reset();
                }
                match self.ble.feed_bytes(fragment) {
                    Feed::Error(e) => self.fail(cid, to_status(e)),
                    Feed::Incomplete => Reply::quiet(false),
                    Feed::Complete(message) => self.on_answer(cid, pending_command, message),
                }
            },
            _ => Reply::quiet(false),
        }
    }

    /// The keep-alive timer ticks.
    pub fn on_tick(&mut self) -> (r: Reply)
        requires
            old(self).wf(),
        ensures
            final(self).wf(),
            (final(self)@, r@) == old(self)@.on_tick(),
    {
        proof {
            lemma_on_tick_sound(self@);
        }
        if self.closed {
            return Reply::quiet(true);
        }
        match self.state {
            ChannelState::Busy { cid, .. } => {
                if self.waited + 1 >= self.config.max_wait_ticks {
                    self.fail(cid, to_status(CTapBLEError::RequestTimeout))
                } else {
                    self.waited = self.waited + 1;
                    if self.keepalive {
                        let mut payload: Vec<u8> = Vec::new();
                        payload.push(self.status);
                        assert(payload@ =~= seq![self.status]);
                        Reply::to_host(cid, CTapCHIDCmd::KeepAlive, payload)
                    } else {
                        Reply::quiet(false)
                    }
                }
            },
            _ => Reply::quiet(false),
        }
    }

    /// A transport is lost: the session ends.
    pub fn on_disconnect(&mut self) -> (r: Reply)
        requires
            old(self).wf(),
        ensures
            final(self).wf(),
            (final(self)@, r@) == old(self)@.on_disconnect(),
    {
        proof {
            lemma_step_sound(self@, EventModel::Disconnected);
        }
        self.state = ChannelState::Idle;
        self.hid.reset();
        self.ble.reset();
        self.waited = 0;
        self.cancelled = false;
        self.keepalive = false;
        self.closed = true;
        Reply::quiet(true)
    }

    /// Takes an event and gives the reply to it.
    pub fn handle(&mut self, event: &Event) -> (r: Reply)
        requires
            old(self).wf(),
        ensures
            final(self).wf(),
            (final(self)@, r@) == old(self)@.step(event@),
    {
        match event {
            Event::Report(bytes) => self.on_report(bytes.as_slice()),
            Event::Notification(bytes) => self.on_notification(bytes.as_slice()),
            Event::Tick => self.on_tick(),
            Event::Disconnected => self.on_disconnect(),
        }
    }

    /// Takes an event and gives the frames of the reply to it.
    pub fn step(&mut self, event: &Event) -> (r: Emitted)
        requires
            old(self).wf(),
        ensures
            final(self).wf(),
            final(self)@ == old(self)@.step(event@).0,
            r@ == rendering(old(self)@.config, old(self)@.step(event@).1),
    {
        let config: SessionConfig = self.config;
        let reply: Reply = self.handle(event);
        render(&config, &reply)
    }
}

} // verus!
