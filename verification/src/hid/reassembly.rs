//! Reassembly of messages from the frames of the HID transport.
//!
//! A continuation frame carries no command: it belongs to the message that
//! the last initialization frame began. A new initialization frame gives up
//! a message in progress and begins its own, unless the message in progress
//! is a `Lock`, which holds the channel: then the new frame is refused with
//! `Busy`. The last frame of a message is filled up with padding, which is
//! dropped.

use vstd::prelude::*;
use crate::cmd::CTapBLEError;
use crate::cmd::CTapCHIDCmd;
use crate::hid::codec::cont_capacity;
use crate::hid::codec::frame;
use crate::hid::codec::frames;
use crate::hid::codec::header;
use crate::hid::codec::init_capacity;
use crate::hid::codec::lemma_frame_len;
use crate::hid::codec::max_message;
use crate::hid::codec::max_message_len;
use crate::hid::codec::MIN_REPORT_LEN;
use crate::hid::packet::decode;
use crate::hid::packet::Packet;
use crate::hid::packet::PacketModel;
use crate::reassembler::Feed;
use crate::reassembler::FeedModel;
use crate::reassembler::Message;
use crate::reassembler::Reassembler;
use crate::reassembler::ReassemblerModel;
use crate::wire::be16_bytes;
use crate::wire::be32_bytes;
use crate::wire::chunk_count;
use crate::wire::chunk_of;
use crate::wire::contents;
use crate::wire::lemma_chunk_count_bounds;
use crate::wire::lemma_chunk_count_limit;
use crate::wire::lemma_chunk_offset_monotone;
use crate::wire::lemma_chunk_offset_step;
use crate::wire::zeros;

verus! {

/// What a decoded frame does to a reassembler.
pub open spec fn feed_packet(m: ReassemblerModel<CTapCHIDCmd>, p: PacketModel) -> (
    ReassemblerModel<CTapCHIDCmd>,
    FeedModel<CTapCHIDCmd>,
) {
    match p.command {
        Some(command) => if m.command == Some(CTapCHIDCmd::Lock) {
            m.refuse(CTapBLEError::Busy)
        } else {
            m.first(command, p.length as nat, p.data)
        },
        None => match p.seq_no {
            Some(seq) => m.next(seq as nat, p.data),
            None => m.refuse(CTapBLEError::InvalidSequence),
        },
    }
}

/// What the bytes of a frame do to a reassembler: a frame that does not
/// decode is refused for the reason that decoding gives.
pub open spec fn feed_frame(m: ReassemblerModel<CTapCHIDCmd>, bytes: Seq<u8>) -> (
    ReassemblerModel<CTapCHIDCmd>,
    FeedModel<CTapCHIDCmd>,
) {
    match decode(bytes) {
        Ok(p) => feed_packet(m, p),
        Err(e) => m.refuse(e),
    }
}

/// The reassembler and the last result after the frames have been fed in
/// their order, up to the first that is refused.
pub open spec fn replay(m: ReassemblerModel<CTapCHIDCmd>, frames: Seq<Seq<u8>>) -> (
    ReassemblerModel<CTapCHIDCmd>,
    FeedModel<CTapCHIDCmd>,
)
    decreases frames.len(),
{
    if frames.len() == 0 {
        (m, FeedModel::Incomplete)
    } else {
        let (before, r) = replay(m, frames.drop_last());
        match r {
            FeedModel::Error(_) => (before, r),
            _ => feed_frame(before, frames.last()),
        }
    }
}

/// The message that a list of frames holds: the command and payload that
/// the last frame completes. Frames that end short of a message are refused
/// with `InvalidLength`, a report length without room for payload with
/// `InvalidPAR`.
pub open spec fn decoding(frames: Seq<Seq<u8>>, report_len: nat) -> Result<
    (CTapCHIDCmd, Seq<u8>),
    CTapBLEError,
> {
    if report_len < 9 {
        Err(CTapBLEError::InvalidPAR)
    } else {
        match replay(
            ReassemblerModel::<CTapCHIDCmd>::fresh(max_message_len(report_len), true),
            frames,
        ).1 {
            FeedModel::Complete(command, payload) => Ok((command, payload)),
            FeedModel::Incomplete => Err(CTapBLEError::InvalidLength),
            FeedModel::Error(e) => Err(e),
        }
    }
}

/// The reassembler after the decoded frames `packets[0 .. n]` have been fed
/// in that order.
pub open spec fn after_packets(
    m: ReassemblerModel<CTapCHIDCmd>,
    packets: Seq<PacketModel>,
    n: nat,
) -> ReassemblerModel<CTapCHIDCmd>
    decreases n,
{
    if n == 0 {
        m
    } else {
        feed_packet(after_packets(m, packets, (n - 1) as nat), packets[n - 1]).0
    }
}

/// The sequence numbers and chunks of a run of continuation frames.
pub open spec fn continuations(packets: Seq<PacketModel>) -> Seq<(nat, Seq<u8>)> {
    Seq::new(packets.len(), |i: int| (packets[i].seq_no->Some_0 as nat, packets[i].data))
}

/// A run of continuation frames whose sequence numbers do not count up from
/// zero without a gap is refused: the first frame `at` whose number is not
/// its place in the run gives `InvalidSequence`. The run is taken where a
/// run may begin: right after an initialization frame, or with nothing in
/// progress.
pub proof fn lemma_out_of_sequence(
    m: ReassemblerModel<CTapCHIDCmd>,
    packets: Seq<PacketModel>,
    at: nat,
)
    requires
        m.inv(),
        m.acc.pending matches Some(g) ==> g.next_seq == 0,
        at < packets.len(),
        forall|i: int|
            0 <= i <= at ==> (#[trigger] packets[i]).command.is_none() && packets[i].seq_no.is_some(),
        forall|i: int| 0 <= i < at ==> (#[trigger] packets[i]).seq_no == Some(i as u8) && i < 256,
        packets[at as int].seq_no != Some(at as u8) || at >= 256,
    ensures
        feed_packet(after_packets(m, packets, at), packets[at as int]).1 == FeedModel::<
            CTapCHIDCmd,
        >::Error(CTapBLEError::InvalidSequence),
{
    let conts = continuations(packets);
    lemma_after_packets(m, packets, at);
    assert forall|i: int| 0 <= i < at implies (#[trigger] conts[i]).0 == i by {
        assert(packets[i].seq_no == Some(i as u8));
    }
    m.lemma_out_of_sequence(conts, at);
}

/// Feeding continuation frames is feeding their numbers and chunks.
pub proof fn lemma_after_packets(
    m: ReassemblerModel<CTapCHIDCmd>,
    packets: Seq<PacketModel>,
    n: nat,
)
    requires
        n <= packets.len(),
        forall|i: int|
            0 <= i < n ==> (#[trigger] packets[i]).command.is_none() && packets[i].seq_no.is_some(),
    ensures
        after_packets(m, packets, n) == m.after_continuations(continuations(packets), n),
    decreases n,
{
    if n > 0 {
        lemma_after_packets(m, packets, (n - 1) as nat);
        assert(packets[n - 1].command.is_none() && packets[n - 1].seq_no.is_some());
    }
}

/// Feeding a frame keeps the invariant and the settings of a reassembler.
pub proof fn lemma_feed_keeps(m: ReassemblerModel<CTapCHIDCmd>, bytes: Seq<u8>)
    requires
        m.inv(),
    ensures
        feed_frame(m, bytes).0.inv(),
        feed_frame(m, bytes).0.same_settings(m),
        feed_frame(m, bytes).1.within(m.acc.limit),
{
    m.lemma_inv_kept(CTapCHIDCmd::Ping, 0, 0, Seq::empty(), CTapBLEError::Other);
    match decode(bytes) {
        Ok(p) => {
            match p.command {
                Some(command) => {
                    m.lemma_inv_kept(command, p.length as nat, 0, p.data, CTapBLEError::Busy);
                },
                None => match p.seq_no {
                    Some(seq) => {
                        m.lemma_inv_kept(
                            CTapCHIDCmd::Ping,
                            0,
                            seq as nat,
                            p.data,
                            CTapBLEError::InvalidSequence,
                        );
                    },
                    None => {
                        m.lemma_inv_kept(
                            CTapCHIDCmd::Ping,
                            0,
                            0,
                            p.data,
                            CTapBLEError::InvalidSequence,
                        );
                    },
                },
            }
        },
        Err(e) => {
            m.lemma_inv_kept(CTapCHIDCmd::Ping, 0, 0, Seq::empty(), e);
        },
    }
}

/// Reassembler of the HID side.
#[derive(Debug)]
pub struct HidReassembler {
    inner: Reassembler<CTapCHIDCmd>,
}

impl View for HidReassembler {
    type V = ReassemblerModel<CTapCHIDCmd>;

    closed spec fn view(&self) -> ReassemblerModel<CTapCHIDCmd> {
        self.inner@
    }
}

impl HidReassembler {
    /// Validity of the representation.
    pub closed spec fn wf(&self) -> bool {
        &&& self.inner.wf()
        &&& self.inner@.acc.padded
    }

    /// A valid reassembler's value satisfies the invariant of the model.
    pub proof fn lemma_wf(&self)
        requires
            self.wf(),
        ensures
            self@.inv(),
            self@.acc.padded,
    {
        self.inner.lemma_wf();
    }

    /// A reassembler with nothing in progress, for messages of up to `limit`
    /// bytes.
    pub fn new(limit: usize) -> (r: HidReassembler)
        ensures
            r.wf(),
            r@ == ReassemblerModel::<CTapCHIDCmd>::fresh(limit as nat, true),
    {
        HidReassembler { inner: Reassembler::new(limit, true) }
    }

    /// Command of the message in progress, if there is one.
    pub fn pending_command(&self) -> (c: Option<CTapCHIDCmd>)
        ensures
            c == self@.command,
    {
        self.inner.pending_command()
    }

    /// Gives up the message in progress, if there is one.
    pub fn reset(&mut self)
        requires
            old(self).wf(),
        ensures
            final(self).wf(),
            final(self)@ == old(self)@.idle(),
    {
        self.inner.reset();
    }

    /// Feeds one decoded frame.
    pub fn feed(&mut self, packet: &Packet) -> (r: Feed<CTapCHIDCmd>)
        requires
            old(self).wf(),
        ensures
            final(self).wf(),
            (final(self)@, r@) == feed_packet(old(self)@, packet@),
    {
        match packet.command {
            Some(command) => {
                match self.inner.pending_command() {
                    Some(CTapCHIDCmd::Lock) => self.inner.refuse(CTapBLEError::Busy),
                    _ => self.inner.first(command, packet.length, packet.data.as_slice()),
                }
            },
            None => match packet.seq_no {
                Some(seq) => self.inner.next(seq, packet.data.as_slice()),
                None => self.inner.refuse(CTapBLEError::InvalidSequence),
            },
        }
    }

    /// Decodes and feeds the bytes of one frame.
    pub fn feed_bytes(&mut self, bytes: &[u8]) -> (r: Feed<CTapCHIDCmd>)
        requires
            old(self).wf(),
        ensures
            final(self).wf(),
            (final(self)@, r@) == feed_frame(old(self)@, bytes@),
    {
        match Packet::new(bytes) {
            Ok(packet) => self.feed(&packet),
            Err(e) => self.inner.refuse(e),
        }
    }
}

/// Rebuilds the message that a list of frames of `report_len` bytes holds.
pub fn decode_message(frames: &Vec<Vec<u8>>, report_len: usize) -> (r: Result<
    Message<CTapCHIDCmd>,
    CTapBLEError,
>)
    ensures
        match r {
            Ok(m) => decoding(contents(frames@), report_len as nat) == Ok::<
                (CTapCHIDCmd, Seq<u8>),
                CTapBLEError,
            >((m.command, m.payload@)),
            Err(e) => decoding(contents(frames@), report_len as nat) == Err::<
                (CTapCHIDCmd, Seq<u8>),
                CTapBLEError,
            >(e),
        },
{
    if report_len < MIN_REPORT_LEN {
        return Err(CTapBLEError::InvalidPAR);
    }
    let mut reassembler = HidReassembler::new(max_message(report_len));
    let ghost start = reassembler@;
    let ghost all = contents(frames@);
    let mut last: Feed<CTapCHIDCmd> = Feed::Incomplete;
    let mut i: usize = 0;
    while i < frames.len()
        invariant
            i <= frames@.len(),
            reassembler.wf(),
            all == contents(frames@),
            (reassembler@, last@) == replay(start, all.take(i as int)),
        decreases frames@.len() - i,
    {
        proof {
            assert(all.take(i + 1).drop_last() =~= all.take(i as int));
            assert(all.take(i + 1).last() == frames@[i as int]@);
        }
        let refused: bool = match &last {
            Feed::Error(_) => true,
            _ => false,
        };
        if !refused {
            last = reassembler.feed_bytes(frames[i].as_slice());
        }
        i += 1;
    }
    proof {
        assert(all.take(i as int) =~= all);
    }
    match last {
        Feed::Complete(m) => Ok(m),
        Feed::Incomplete => Err(CTapBLEError::InvalidLength),
        Feed::Error(e) => Err(e),
    }
}

/// Frame `k` of a message decodes to its channel, to the command and the
/// declared length in the first frame and the sequence number in the
/// others, and to its chunk with the padding behind it.
pub proof fn lemma_frame_decodes(
    cid: u32,
    cmd: CTapCHIDCmd,
    payload: Seq<u8>,
    report_len: nat,
    k: nat,
)
    requires
        report_len >= 9,
        payload.len() <= max_message_len(report_len),
        k < chunk_count(payload.len(), init_capacity(report_len), cont_capacity(report_len)),
    ensures
        ({
            let chunk = chunk_of(payload, k, init_capacity(report_len), cont_capacity(report_len));
            let room = if k == 0 {
                init_capacity(report_len)
            } else {
                cont_capacity(report_len)
            };
            &&& chunk.len() <= room
            &&& k <= 128
            &&& decode(frame(cid, cmd, payload, k, report_len)) == Ok::<PacketModel, CTapBLEError>(
                PacketModel {
                    channel: cid,
                    command: if k == 0 {
                        Some(cmd)
                    } else {
                        None
                    },
                    seq_no: if k == 0 {
                        None
                    } else {
                        Some((k - 1) as u8)
                    },
                    length: if k == 0 {
                        payload.len() as u16
                    } else {
                        0
                    },
                    data: chunk + zeros((room - chunk.len()) as nat),
                },
            )
        }),
{
    let first = init_capacity(report_len);
    let rest = cont_capacity(report_len);
    lemma_chunk_count_limit(payload.len(), first, rest);
    lemma_chunk_offset_step(k, first, rest);
    lemma_frame_len(cid, cmd, payload, k, report_len);
    CTapCHIDCmd::lemma_code_roundtrip(cmd, 0);
    let chunk = chunk_of(payload, k, first, rest);
    let head = header(cid, cmd, payload.len(), k);
    let f = frame(cid, cmd, payload, k, report_len);
    let room = if k == 0 {
        first
    } else {
        rest
    };
    let fill = zeros((room - chunk.len()) as nat);
    assert(f =~= head + chunk + fill);
    assert(be32_bytes(cid).len() == 4);
    assert(be16_bytes(payload.len() as u16).len() == 2);
    if k == 0 {
        assert(head.len() == 8);
        assert(f.skip(8) =~= chunk + fill);
        assert(f[0] == (0x80 + cmd.spec_code()) as u8);
        assert(f[1] == be32_bytes(cid)[0]);
        assert(f[2] == be32_bytes(cid)[1]);
        assert(f[3] == be32_bytes(cid)[2]);
        assert(f[4] == be32_bytes(cid)[3]);
        assert(f[6] == be16_bytes(payload.len() as u16)[0]);
        assert(f[7] == be16_bytes(payload.len() as u16)[1]);
    } else {
        assert(head.len() == 5);
        assert(f.skip(5) =~= chunk + fill);
        assert(f[0] == (k - 1) as u8);
        assert(f[1] == be32_bytes(cid)[0]);
        assert(f[2] == be32_bytes(cid)[1]);
        assert(f[3] == be32_bytes(cid)[2]);
        assert(f[4] == be32_bytes(cid)[3]);
    }
}

/// The reassembler after the first `k` frames of a message that has more
/// than `k` frames: fresh before the first, midway after it.
pub open spec fn underway(
    cmd: CTapCHIDCmd,
    payload: Seq<u8>,
    report_len: nat,
    limit: nat,
    k: nat,
) -> ReassemblerModel<CTapCHIDCmd> {
    if k == 0 {
        ReassemblerModel::<CTapCHIDCmd>::fresh(limit, true)
    } else {
        ReassemblerModel::<CTapCHIDCmd>::midway(
            limit,
            true,
            cmd,
            payload,
            init_capacity(report_len),
            cont_capacity(report_len),
            k,
        )
    }
}

/// Frame `k` of a message, fed after the frames before it, completes the
/// message if it is the last, and else leaves the reassembler one frame
/// further.
pub proof fn lemma_feed_frame(
    cid: u32,
    cmd: CTapCHIDCmd,
    payload: Seq<u8>,
    report_len: nat,
    limit: nat,
    k: nat,
)
    requires
        report_len >= 9,
        payload.len() <= max_message_len(report_len),
        payload.len() <= limit,
        k < chunk_count(payload.len(), init_capacity(report_len), cont_capacity(report_len)),
    ensures
        feed_frame(
            underway(cmd, payload, report_len, limit, k),
            frame(cid, cmd, payload, k, report_len),
        ) == (if k + 1 == chunk_count(
            payload.len(),
            init_capacity(report_len),
            cont_capacity(report_len),
        ) {
            (
                ReassemblerModel::<CTapCHIDCmd>::fresh(limit, true),
                FeedModel::<CTapCHIDCmd>::Complete(cmd, payload),
            )
        } else {
            (
                underway(cmd, payload, report_len, limit, k + 1),
                FeedModel::<CTapCHIDCmd>::Incomplete,
            )
        }),
{
    let first = init_capacity(report_len);
    let rest = cont_capacity(report_len);
    let n = chunk_count(payload.len(), first, rest);
    let before = underway(cmd, payload, report_len, limit, k);
    lemma_chunk_count_bounds(payload.len(), first, rest);
    lemma_chunk_offset_monotone(k, (n - 1) as nat, first, rest);
    lemma_chunk_offset_monotone(k + 1, n, first, rest);
    if k + 1 < n {
        lemma_chunk_offset_monotone(k + 1, (n - 1) as nat, first, rest);
    }
    lemma_chunk_offset_step(k, first, rest);
    lemma_frame_decodes(cid, cmd, payload, report_len, k);
    let chunk = chunk_of(payload, k, first, rest);
    let bytes = frame(cid, cmd, payload, k, report_len);
    let p = decode(bytes)->Ok_0;
    assert(feed_frame(before, bytes) == feed_packet(before, p));
    if k == 0 {
        let fill = zeros((first - chunk.len()) as nat);
        assert(p.data == chunk + fill);
        assert(feed_packet(before, p) == before.first(cmd, payload.len(), chunk + fill));
        before.lemma_first_chunk(cmd, payload, first, rest, fill);
        assert(before.idle() == before);
    } else {
        let fill = zeros((rest - chunk.len()) as nat);
        assert(p.data == chunk + fill);
        assert(feed_packet(before, p) == before.next((k - 1) as nat, chunk + fill));
        ReassemblerModel::<CTapCHIDCmd>::lemma_next_chunk(
            cmd,
            payload,
            limit,
            true,
            first,
            rest,
            k,
            fill,
        );
        assert(before.idle() == ReassemblerModel::<CTapCHIDCmd>::fresh(limit, true));
    }
}

/// After the first `j` frames of a message that has more, the reassembler
/// is midway through it.
pub proof fn lemma_replay_prefix(
    cid: u32,
    cmd: CTapCHIDCmd,
    payload: Seq<u8>,
    report_len: nat,
    limit: nat,
    j: nat,
)
    requires
        report_len >= 9,
        payload.len() <= max_message_len(report_len),
        payload.len() <= limit,
        j < chunk_count(payload.len(), init_capacity(report_len), cont_capacity(report_len)),
    ensures
        replay(
            ReassemblerModel::<CTapCHIDCmd>::fresh(limit, true),
            frames(cid, cmd, payload, report_len).take(j as int),
        ) == (underway(cmd, payload, report_len, limit, j), FeedModel::<CTapCHIDCmd>::Incomplete),
    decreases j,
{
    let all = frames(cid, cmd, payload, report_len);
    let start = ReassemblerModel::<CTapCHIDCmd>::fresh(limit, true);
    if j == 0 {
        assert(all.take(0).len() == 0);
    } else {
        let k = (j - 1) as nat;
        lemma_replay_prefix(cid, cmd, payload, report_len, limit, k);
        lemma_feed_frame(cid, cmd, payload, report_len, limit, k);
        assert(all.take(j as int).drop_last() =~= all.take(k as int));
        assert(all.take(j as int).last() == frame(cid, cmd, payload, k, report_len));
    }
}

/// Decoding the frames of a message gives the message back: for every
/// channel, command and report length with room for payload, and every
/// payload that the frames can carry, the frames that encoding gives
/// reassemble to the same command and payload, and each of them carries the
/// channel.
pub proof fn lemma_roundtrip(cid: u32, cmd: CTapCHIDCmd, payload: Seq<u8>, report_len: nat)
    requires
        report_len >= 9,
        payload.len() <= max_message_len(report_len),
    ensures
        decoding(frames(cid, cmd, payload, report_len), report_len) == Ok::<
            (CTapCHIDCmd, Seq<u8>),
            CTapBLEError,
        >((cmd, payload)),
        forall|k: int|
            0 <= k < frames(cid, cmd, payload, report_len).len() ==> (match decode(
                #[trigger] frames(cid, cmd, payload, report_len)[k],
            ) {
                Ok(p) => p.channel == cid,
                Err(_) => false,
            }),
{
    let limit = max_message_len(report_len);
    let n = chunk_count(payload.len(), init_capacity(report_len), cont_capacity(report_len));
    let all = frames(cid, cmd, payload, report_len);
    let k = (n - 1) as nat;
    lemma_chunk_count_bounds(payload.len(), init_capacity(report_len), cont_capacity(report_len));
    lemma_replay_prefix(cid, cmd, payload, report_len, limit, k);
    lemma_feed_frame(cid, cmd, payload, report_len, limit, k);
    assert(all.drop_last() =~= all.take(k as int));
    assert(all.last() == frame(cid, cmd, payload, k, report_len));
    assert forall|i: int| 0 <= i < all.len() implies (match decode(#[trigger] all[i]) {
        Ok(p) => p.channel == cid,
        Err(_) => false,
    }) by {
        lemma_frame_decodes(cid, cmd, payload, report_len, i as nat);
    }
}

} // verus!
