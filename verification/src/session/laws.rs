//! What holds of every session, whatever happens to it.

use vstd::prelude::*;
use crate::ble::codec as ble_codec;
use crate::ble::fragment as ble_fragment;
use crate::ble::reassembly as ble_reassembly;
use crate::channel::BROADCAST_CID;
use crate::channel::ChannelState;
use crate::channel::next_cid;
use crate::cmd::CTapBLECommand;
use crate::cmd::CTapBLEError;
use crate::cmd::CTapCHIDCmd;
use crate::cmd::CTapStatus;
use crate::hid::codec as hid_codec;
use crate::hid::codec::REPORT_LEN;
use crate::hid::packet as hid_packet;
use crate::hid::reassembly as hid_reassembly;
use crate::reassembler::FeedModel;
use crate::session::model::capabilities;
use crate::session::model::EventModel;
use crate::session::model::HostMessageModel;
use crate::session::model::init_payload;
use crate::session::model::PROTOCOL_VERSION;
use crate::session::model::ReplyModel;
use crate::session::model::SessionConfig;
use crate::session::model::SessionModel;
use crate::session::model::STATUS_PROCESSING;
use crate::translate::reply_command;
use crate::translate::status_of;
use crate::translate::status_of_code;
use crate::wire::be32_at;
use crate::wire::be32_bytes;
use crate::wire::be64_at;
use crate::wire::lemma_be64_bytes_of_value;
use crate::wire::lemma_be64_roundtrip;
use crate::wire::lemma_chunk_count_bounds;

verus! {

/// A session that has not seen an event satisfies the invariant.
pub proof fn lemma_initial_inv(config: SessionConfig)
    requires
        config.valid(),
    ensures
        SessionModel::initial(config).inv(),
{
}

/// What a step owes: the invariant, the settings, and replies short enough
/// for their transports.
pub open spec fn sound(m: SessionModel, after: (SessionModel, ReplyModel)) -> bool {
    &&& after.0.inv()
    &&& after.0.config == m.config
    &&& after.1.fits(m.config)
}

/// The end of a command in flight is sound.
pub proof fn lemma_resolve_sound(m: SessionModel, answer: HostMessageModel)
    requires
        m.inv(),
        answer.payload.len() <= hid_codec::max_message_len(REPORT_LEN as nat),
    ensures
        sound(m, m.resolve(answer)),
{
    m.ble.lemma_inv_kept(CTapBLECommand::Ping, 0, 0, Seq::empty(), CTapBLEError::Other);
}

/// A request on the broadcast channel is answered soundly.
pub proof fn lemma_on_broadcast_sound(m: SessionModel, bytes: Seq<u8>)
    requires
        m.inv(),
        !m.closed,
    ensures
        sound(m, m.on_broadcast(bytes)),
{
    m.hid.lemma_inv_kept(CTapCHIDCmd::Ping, 0, 0, Seq::empty(), CTapBLEError::Other);
    assert forall|nonce: u64, cid: u32| #[trigger] init_payload(nonce, cid).len() == 17 by {
        lemma_be64_roundtrip(nonce);
    }
}

/// A whole message of the host is answered soundly.
pub proof fn lemma_on_message_sound(
    m: SessionModel,
    cid: u32,
    command: CTapCHIDCmd,
    payload: Seq<u8>,
)
    requires
        m.inv(),
        !m.closed,
        m.state.cid() == Some(cid),
        payload.len() <= hid_codec::max_message_len(REPORT_LEN as nat),
    ensures
        sound(m, m.on_message(cid, command, payload)),
{
    m.ble.lemma_inv_kept(CTapBLECommand::Ping, 0, 0, Seq::empty(), CTapBLEError::Other);
    if command == CTapCHIDCmd::Init && payload.len() == 8 {
        lemma_be64_roundtrip(be64_at(payload, 0) as u64);
    }
}

/// A report of the host is answered soundly.
pub proof fn lemma_on_report_sound(m: SessionModel, bytes: Seq<u8>)
    requires
        m.inv(),
    ensures
        sound(m, m.on_report(bytes)),
{
    if !m.closed && bytes.len() >= 5 {
        let channel = be32_at(bytes, 1) as u32;
        if channel == BROADCAST_CID {
            lemma_on_broadcast_sound(m, bytes);
        } else if m.state.cid() == Some(channel) {
            hid_reassembly::lemma_feed_keeps(m.hid, bytes);
            let (hid, fed) = hid_reassembly::feed_frame(m.hid, bytes);
            let taken = SessionModel { hid, ..m };
            assert(taken.inv());
            match fed {
                FeedModel::Complete(command, payload) => {
                    lemma_on_message_sound(taken, channel, command, payload);
                },
                _ => {},
            }
        }
    }
}

/// A fragment of the authenticator is answered soundly.
pub proof fn lemma_on_notification_sound(m: SessionModel, bytes: Seq<u8>)
    requires
        m.inv(),
    ensures
        sound(m, m.on_notification(bytes)),
{
    if !m.closed {
        match m.state {
            ChannelState::Busy { cid, pending_command } => {
                let ready = if m.breaks_off(bytes) {
                    m.ble.idle()
                } else {
                    m.ble
                };
                m.ble.lemma_inv_kept(CTapBLECommand::Ping, 0, 0, bytes, CTapBLEError::Other);
                ble_reassembly::lemma_feed_keeps(ready, bytes);
                let (ble, fed) = ble_reassembly::feed_frame(ready, bytes);
                let taken = SessionModel { ble, ..m };
                assert(taken.inv());
                match fed {
                    FeedModel::Error(e) => {
                        lemma_resolve_sound(
                            taken,
                            HostMessageModel {
                                cid,
                                command: CTapCHIDCmd::Error,
                                payload: seq![status_of(e).spec_code()],
                            },
                        );
                    },
                    FeedModel::Incomplete => {},
                    FeedModel::Complete(command, payload) => {
                        lemma_on_answer_sound(taken, cid, pending_command, command, payload);
                    },
                }
            },
            _ => {},
        }
    }
}

/// A whole message of the authenticator is answered soundly.
pub proof fn lemma_on_answer_sound(
    m: SessionModel,
    cid: u32,
    asked: CTapCHIDCmd,
    command: CTapBLECommand,
    payload: Seq<u8>,
)
    requires
        m.inv(),
        m.state is Busy,
    ensures
        sound(m, m.on_answer(cid, asked, command, payload)),
{
    match command {
        CTapBLECommand::KeepAlive => {},
        CTapBLECommand::Error => {
            let status = if payload.len() >= 1 {
                status_of_code(payload[0])
            } else {
                CTapStatus::ErrOther
            };
            lemma_resolve_sound(
                m,
                HostMessageModel {
                    cid,
                    command: CTapCHIDCmd::Error,
                    payload: seq![status.spec_code()],
                },
            );
        },
        _ => {
            if payload.len() > hid_codec::max_message_len(REPORT_LEN as nat) {
                lemma_resolve_sound(
                    m,
                    HostMessageModel {
                        cid,
                        command: CTapCHIDCmd::Error,
                        payload: seq![status_of(CTapBLEError::InvalidLength).spec_code()],
                    },
                );
            } else {
                lemma_resolve_sound(
                    m,
                    HostMessageModel { cid, command: reply_command(asked, command), payload },
                );
            }
        },
    }
}

/// A tick is answered soundly.
pub proof fn lemma_on_tick_sound(m: SessionModel)
    requires
        m.inv(),
    ensures
        sound(m, m.on_tick()),
{
    if !m.closed {
        match m.state {
            ChannelState::Busy { cid, .. } => {
                lemma_resolve_sound(
                    m,
                    HostMessageModel {
                        cid,
                        command: CTapCHIDCmd::Error,
                        payload: seq![status_of(CTapBLEError::RequestTimeout).spec_code()],
                    },
                );
            },
            _ => {},
        }
    }
}

/// Every event keeps the invariant and the settings, and every reply is
/// short enough for its transports: no message is lost for want of room.
pub proof fn lemma_step_sound(m: SessionModel, event: EventModel)
    requires
        m.inv(),
    ensures
        sound(m, m.step(event)),
{
    match event {
        EventModel::Report(bytes) => {
            lemma_on_report_sound(m, bytes);
        },
        EventModel::Notification(bytes) => {
            lemma_on_notification_sound(m, bytes);
        },
        EventModel::Tick => {
            lemma_on_tick_sound(m);
        },
        EventModel::Disconnected => {
            m.hid.lemma_inv_kept(CTapCHIDCmd::Ping, 0, 0, Seq::empty(), CTapBLEError::Other);
            m.ble.lemma_inv_kept(CTapBLECommand::Ping, 0, 0, Seq::empty(), CTapBLEError::Other);
        },
    }
}

/// Whether a report is a channel request with the nonce `nonce`: an
/// initialization frame on the broadcast channel with the command `Init`
/// and a payload of eight bytes.
pub open spec fn is_channel_request(bytes: Seq<u8>, nonce: Seq<u8>) -> bool {
    &&& bytes.len() >= 5
    &&& be32_at(bytes, 1) == BROADCAST_CID
    &&& hid_packet::decode(bytes) matches Ok(p) && p.command == Some(CTapCHIDCmd::Init) && p.length
        == 8 && p.data.len() >= 8 && p.data.take(8) == nonce
}

/// The report that encodes a channel request is one.
pub proof fn lemma_encoded_channel_request(nonce: Seq<u8>)
    requires
        nonce.len() == 8,
    ensures
        is_channel_request(
            hid_codec::frame(BROADCAST_CID, CTapCHIDCmd::Init, nonce, 0, REPORT_LEN as nat),
            nonce,
        ),
{
    let report_len = REPORT_LEN as nat;
    lemma_chunk_count_bounds(
        nonce.len(),
        hid_codec::init_capacity(report_len),
        hid_codec::cont_capacity(report_len),
    );
    hid_reassembly::lemma_frame_decodes(BROADCAST_CID, CTapCHIDCmd::Init, nonce, report_len, 0);
    hid_codec::lemma_frame_len(BROADCAST_CID, CTapCHIDCmd::Init, nonce, 0, report_len);
    let bytes = hid_codec::frame(BROADCAST_CID, CTapCHIDCmd::Init, nonce, 0, report_len);
    let p = hid_packet::decode(bytes)->Ok_0;
    let chunk = crate::wire::chunk_of(
        nonce,
        0,
        hid_codec::init_capacity(report_len),
        hid_codec::cont_capacity(report_len),
    );
    assert(chunk =~= nonce);
    assert(p.data.take(8) =~= nonce);
    assert(p.channel == be32_at(bytes, 1) as u32);
}

/// A channel request is always answered, unless a command is in flight:
/// the channel passes through `Handshaking` to `Bound`; the channel issued
/// is neither zero, nor the broadcast channel, nor the channel that was
/// allocated before; and the answer, on the broadcast channel, carries the
/// nonce of the request, then the channel issued, then the protocol
/// version, the device version and the capabilities.
pub proof fn lemma_channel_request(m: SessionModel, bytes: Seq<u8>, nonce: Seq<u8>)
    requires
        m.inv(),
        !m.closed,
        !(m.state is Busy),
        is_channel_request(bytes, nonce),
    ensures
        ({
            let (after, reply) = m.on_report(bytes);
            let issued = next_cid(m.last_cid);
            let kept = be64_at(nonce, 0) as u64;
            &&& m.state.begin_handshake(kept) == ChannelState::Handshaking { nonce: kept }
            &&& after.state == m.state.begin_handshake(kept).complete_handshake(issued)
            &&& after.state == ChannelState::Bound { cid: issued }
            &&& issued != 0
            &&& issued != BROADCAST_CID
            &&& m.state.cid() != Some(issued)
            &&& reply == ReplyModel::to_host(
                BROADCAST_CID,
                CTapCHIDCmd::Init,
                nonce + be32_bytes(issued) + seq![PROTOCOL_VERSION, 0u8, 0u8, 0u8, capabilities()],
            )
        }),
{
    let p = hid_packet::decode(bytes)->Ok_0;
    lemma_be64_bytes_of_value(p.data);
    lemma_be64_bytes_of_value(nonce);
    assert(nonce.take(8) =~= nonce);
    assert(be64_at(p.data, 0) == be64_at(nonce, 0));
}

/// A report on a channel that is not allocated is refused with
/// `InvalidChannel`, on that channel, and leaves the session as it was.
pub proof fn lemma_unallocated_channel(m: SessionModel, bytes: Seq<u8>)
    requires
        !m.closed,
        bytes.len() >= 5,
        be32_at(bytes, 1) != BROADCAST_CID,
        m.state.cid() != Some(be32_at(bytes, 1) as u32),
    ensures
        m.on_report(bytes) == (
            m,
            ReplyModel::refusal(be32_at(bytes, 1) as u32, CTapBLEError::InvalidChannel),
        ),
{
}

/// A report on the broadcast channel that is no channel request is refused
/// and leaves the session as it was: the broadcast channel serves for
/// nothing else.
pub proof fn lemma_broadcast_misuse(m: SessionModel, bytes: Seq<u8>)
    requires
        !m.closed,
        bytes.len() >= 5,
        be32_at(bytes, 1) == BROADCAST_CID,
        hid_packet::decode(bytes) matches Ok(p) && p.command != Some(CTapCHIDCmd::Init),
    ensures
        m.on_report(bytes) == (m, ReplyModel::refusal(BROADCAST_CID, CTapBLEError::InvalidChannel)),
{
}

/// While a command is in flight and the keep-alive timer runs, every tick
/// before the one that gives the command up sends the host exactly one
/// keep-alive, with the current status, and changes nothing but the count
/// of ticks.
pub proof fn lemma_tick_sends_keepalive(m: SessionModel)
    requires
        m.inv(),
        !m.closed,
        m.state is Busy,
        m.keepalive,
        m.waited + 1 < m.config.max_wait_ticks,
    ensures
        m.on_tick() == (
            SessionModel { waited: (m.waited + 1) as u32, ..m },
            ReplyModel::to_host(m.state.cid()->Some_0, CTapCHIDCmd::KeepAlive, seq![m.status]),
        ),
{
}

/// The first tick after a command was passed on sends a keep-alive: a wait
/// of more than one interval is never silent.
pub proof fn lemma_first_tick(
    m: SessionModel,
    cid: u32,
    command: CTapCHIDCmd,
    carrier: CTapBLECommand,
    payload: Seq<u8>,
)
    requires
        m.inv(),
        !m.closed,
        m.state == (ChannelState::Bound { cid }),
        payload.len() <= ble_codec::max_message_len(m.config.fragment_len as nat),
    ensures
        m.forward(cid, command, carrier, payload).1 == ReplyModel::to_device(carrier, payload),
        m.forward(cid, command, carrier, payload).0.on_tick().1 == ReplyModel::to_host(
            cid,
            CTapCHIDCmd::KeepAlive,
            seq![STATUS_PROCESSING],
        ),
{
}

/// Keep-alives come from ticks alone: no report and no notification makes
/// the session send one, so an answer that arrives before the first tick
/// arrives without any; nor does a tick send one unless a command is in
/// flight and the timer runs.
pub proof fn lemma_keepalive_only_on_tick(m: SessionModel, event: EventModel)
    requires
        m.inv(),
    ensures
        m.step(event).1.is_keepalive() ==> event is Tick && m.state is Busy && m.keepalive,
{
    match event {
        EventModel::Report(bytes) => {
            lemma_report_sends_no_keepalive(m, bytes);
        },
        EventModel::Notification(bytes) => {
            lemma_notification_sends_no_keepalive(m, bytes);
        },
        _ => {},
    }
}

/// No report makes the session send a keep-alive.
pub proof fn lemma_report_sends_no_keepalive(m: SessionModel, bytes: Seq<u8>)
    ensures
        !m.on_report(bytes).1.is_keepalive(),
{
    if !m.closed && bytes.len() >= 5 {
        let channel = be32_at(bytes, 1) as u32;
        if channel != BROADCAST_CID && m.state.cid() == Some(channel) {
            let (hid, fed) = hid_reassembly::feed_frame(m.hid, bytes);
            let taken = SessionModel { hid, ..m };
            match fed {
                FeedModel::Complete(command, payload) => {
                    assert(!taken.on_message(channel, command, payload).1.is_keepalive());
                },
                _ => {},
            }
        }
    }
}

/// No notification makes the session send a keep-alive.
pub proof fn lemma_notification_sends_no_keepalive(m: SessionModel, bytes: Seq<u8>)
    ensures
        !m.on_notification(bytes).1.is_keepalive(),
{
    if !m.closed {
        match m.state {
            ChannelState::Busy { cid, pending_command } => {
                let ready = if m.breaks_off(bytes) {
                    m.ble.idle()
                } else {
                    m.ble
                };
                let (ble, fed) = ble_reassembly::feed_frame(ready, bytes);
                let taken = SessionModel { ble, ..m };
                match fed {
                    FeedModel::Complete(command, payload) => {
                        assert(!taken.on_answer(
                            cid,
                            pending_command,
                            command,
                            payload,
                        ).1.is_keepalive());
                    },
                    _ => {},
                }
            },
            _ => {},
        }
    }
}

/// An error message of the authenticator reaches the host as an error
/// frame whose status stands for the authenticator's error code, and frees
/// the channel.
pub proof fn lemma_error_translated(
    m: SessionModel,
    cid: u32,
    asked: CTapCHIDCmd,
    payload: Seq<u8>,
)
    requires
        m.state == (ChannelState::Busy { cid, pending_command: asked }),
        !m.cancelled,
        payload.len() >= 1,
    ensures
        m.on_answer(cid, asked, CTapBLECommand::Error, payload).1 == ReplyModel::failure(
            cid,
            status_of_code(payload[0]),
        ),
        m.on_answer(cid, asked, CTapBLECommand::Error, payload).0.state == (ChannelState::Bound {
            cid,
        }),
{
}

/// An error message of the authenticator that arrives in the middle of its
/// answer, with part of the answer received, reaches the host all the same:
/// as an error frame whose status stands for the authenticator's error
/// code. The channel is free again, and nothing of the answer is kept.
pub proof fn lemma_error_mid_response(m: SessionModel, code: u8)
    requires
        m.inv(),
        !m.closed,
        m.state is Busy,
        !m.cancelled,
        m.ble.command.is_some(),
    ensures
        ({
            let (after, reply) = m.on_notification(seq![0xbfu8, 0u8, 1u8, code]);
            let cid = m.state.cid()->Some_0;
            &&& reply == ReplyModel::failure(cid, status_of_code(code))
            &&& after.state == ChannelState::Bound { cid }
            &&& after.ble.command.is_none()
        }),
{
    let bytes = seq![0xbfu8, 0u8, 1u8, code];
    let ready = m.ble.idle();
    assert(m.breaks_off(bytes));
    let f = ble_fragment::decode(bytes, false)->Ok_0;
    assert(bytes.skip(3) =~= seq![code]);
    assert(f.data.take(1) =~= seq![code]);
    assert(ble_reassembly::feed_frame(ready, bytes).1 == FeedModel::Complete(
        CTapBLECommand::Error,
        seq![code],
    ));
}

/// A cancellation by the host while a command is in flight stops the
/// keep-alive timer at once and sends the host nothing yet; it is passed on
/// to the authenticator exactly if the settings say so and it is the first.
pub proof fn lemma_cancel_stops_keepalive(m: SessionModel, cid: u32, payload: Seq<u8>)
    requires
        m.inv(),
        m.state is Busy,
    ensures
        ({
            let (after, reply) = m.on_message(cid, CTapCHIDCmd::Cancel, payload);
            &&& after == SessionModel { cancelled: true, keepalive: false, ..m }
            &&& reply.host.is_none()
            &&& reply.device.is_some() <==> m.config.forward_cancel && !m.cancelled
            &&& reply.device matches Some(d) ==> d.command == CTapBLECommand::Cancel
            &&& !after.on_tick().1.is_keepalive()
        }),
{
}

/// Once the host has cancelled the command in flight, whatever ends the
/// command (the authenticator's answer, its error, or the tick that gives
/// the command up) is reported to the host as the acknowledgment of the
/// cancellation, never as the answer; until then the host is sent nothing.
pub proof fn lemma_cancelled_resolution(m: SessionModel, event: EventModel)
    requires
        m.inv(),
        !m.closed,
        m.state is Busy,
        m.cancelled,
        event is Notification || event is Tick,
    ensures
        ({
            let (after, reply) = m.step(event);
            let cid = m.state.cid()->Some_0;
            ||| (reply == ReplyModel::quiet(false) && after.state == m.state && after.cancelled)
            ||| (reply == ReplyModel::to_host(cid, CTapCHIDCmd::Cancel, Seq::empty())
                && after.state == ChannelState::Bound { cid } && !after.cancelled)
        }),
{
    match event {
        EventModel::Notification(bytes) => {
            match m.state {
                ChannelState::Busy { cid, pending_command } => {
                    let ready = if m.breaks_off(bytes) {
                    m.ble.idle()
                } else {
                    m.ble
                };
                let (ble, fed) = ble_reassembly::feed_frame(ready, bytes);
                    let taken = SessionModel { ble, ..m };
                    match fed {
                        FeedModel::Complete(command, payload) => {
                            let (after, reply) = taken.on_answer(
                                cid,
                                pending_command,
                                command,
                                payload,
                            );
                            assert(reply == ReplyModel::quiet(false) || reply
                                == ReplyModel::to_host(cid, CTapCHIDCmd::Cancel, Seq::empty()));
                        },
                        _ => {},
                    }
                },
                _ => {},
            }
        },
        _ => {},
    }
}

} // verus!
