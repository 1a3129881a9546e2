//! Reassembly of messages from the fragments of the Bluetooth LE transport.
//!
//! The link carries one conversation at a time: a first fragment that
//! arrives while a message is in progress is refused with `Busy`. There is
//! no padding: a fragment that holds more than the message still lacks is
//! refused with `InvalidLength`.

use vstd::prelude::*;
use crate::ble::codec::cont_capacity;
use crate::ble::codec::first_capacity;
use crate::ble::codec::fragment;
use crate::ble::codec::fragments;
use crate::ble::codec::header;
use crate::ble::codec::max_message;
use crate::ble::codec::max_message_len;
use crate::ble::fragment::decode;
use crate::ble::fragment::Fragment;
use crate::ble::fragment::FragmentModel;
use crate::cmd::CTapBLECommand;
use crate::cmd::CTapBLEError;
use crate::reassembler::Feed;
use crate::reassembler::FeedModel;
use crate::reassembler::Message;
use crate::reassembler::Reassembler;
use crate::reassembler::ReassemblerModel;
use crate::wire::be16_bytes;
use crate::wire::chunk_count;
use crate::wire::chunk_of;
use crate::wire::contents;
use crate::wire::lemma_chunk_count_bounds;
use crate::wire::lemma_chunk_count_limit;
use crate::wire::lemma_chunk_offset_monotone;
use crate::wire::lemma_chunk_offset_step;

verus! {

/// What a decoded fragment does to a reassembler.
pub open spec fn feed_fragment(m: ReassemblerModel<CTapBLECommand>, f: FragmentModel) -> (
    ReassemblerModel<CTapBLECommand>,
    FeedModel<CTapBLECommand>,
) {
    match f.command {
        Some(command) => if m.command.is_some() {
            m.refuse(CTapBLEError::Busy)
        } else {
            m.first(command, f.length as nat, f.data)
        },
        None => match f.seq_no {
            Some(seq) => m.next(seq as nat, f.data),
            None => m.refuse(CTapBLEError::InvalidSequence),
        },
    }
}

/// What the bytes of a fragment do to a reassembler: a fragment that does
/// not decode is refused for the reason that decoding gives.
pub open spec fn feed_frame(m: ReassemblerModel<CTapBLECommand>, bytes: Seq<u8>) -> (
    ReassemblerModel<CTapBLECommand>,
    FeedModel<CTapBLECommand>,
) {
    match decode(bytes, m.command.is_some()) {
        Ok(f) => feed_fragment(m, f),
        Err(e) => m.refuse(e),
    }
}

/// The reassembler and the last result after the fragments have been fed in
/// their order, up to the first that is refused.
pub open spec fn replay(m: ReassemblerModel<CTapBLECommand>, frames: Seq<Seq<u8>>) -> (
    ReassemblerModel<CTapBLECommand>,
    FeedModel<CTapBLECommand>,
)
    decreases frames.len(),
{
    if frames.len() == 0 {
        (m, FeedModel::Incomplete)
    } else {
        let (before, r) = replay(m, frames.drop_last());
        match r {
            FeedModel::Error(_) => (before, r),
            _ => feed_frame(before, frames.last()),
        }
    }
}

/// The message that a list of fragments holds: the command and payload that
/// the last fragment completes. Fragments that end short of a message are
/// refused with `InvalidLength`, a fragment size without room for payload
/// with `InvalidPAR`.
pub open spec fn decoding(frames: Seq<Seq<u8>>, size: nat) -> Result<
    (CTapBLECommand, Seq<u8>),
    CTapBLEError,
> {
    if size < 4 {
        Err(CTapBLEError::InvalidPAR)
    } else {
        match replay(
            ReassemblerModel::<CTapBLECommand>::fresh(max_message_len(size), false),
            frames,
        ).1 {
            FeedModel::Complete(command, payload) => Ok((command, payload)),
            FeedModel::Incomplete => Err(CTapBLEError::InvalidLength),
            FeedModel::Error(e) => Err(e),
        }
    }
}

/// The reassembler after the decoded fragments `list[0 .. n]` have been fed
/// in that order.
pub open spec fn after_fragments(
    m: ReassemblerModel<CTapBLECommand>,
    list: Seq<FragmentModel>,
    n: nat,
) -> ReassemblerModel<CTapBLECommand>
    decreases n,
{
    if n == 0 {
        m
    } else {
        feed_fragment(after_fragments(m, list, (n - 1) as nat), list[n - 1]).0
    }
}

/// The sequence numbers and chunks of a run of continuation fragments.
pub open spec fn continuations(list: Seq<FragmentModel>) -> Seq<(nat, Seq<u8>)> {
    Seq::new(list.len(), |i: int| (list[i].seq_no->Some_0 as nat, list[i].data))
}

/// A run of continuation fragments whose sequence numbers do not count up
/// from zero without a gap is refused: the first fragment `at` whose number
/// is not its place in the run gives `InvalidSequence`. The run is taken
/// where a run may begin: right after a first fragment, or with nothing in
/// progress.
pub proof fn lemma_out_of_sequence(
    m: ReassemblerModel<CTapBLECommand>,
    list: Seq<FragmentModel>,
    at: nat,
)
    requires
        m.inv(),
        m.acc.pending matches Some(g) ==> g.next_seq == 0,
        at < list.len(),
        forall|i: int|
            0 <= i <= at ==> (#[trigger] list[i]).command.is_none() && list[i].seq_no.is_some(),
        forall|i: int| 0 <= i < at ==> (#[trigger] list[i]).seq_no == Some(i as u8) && i < 256,
        list[at as int].seq_no != Some(at as u8) || at >= 256,
    ensures
        feed_fragment(after_fragments(m, list, at), list[at as int]).1 == FeedModel::<
            CTapBLECommand,
        >::Error(CTapBLEError::InvalidSequence),
{
    let conts = continuations(list);
    lemma_after_fragments(m, list, at);
    assert forall|i: int| 0 <= i < at implies (#[trigger] conts[i]).0 == i by {
        assert(list[i].seq_no == Some(i as u8));
    }
    m.lemma_out_of_sequence(conts, at);
}

/// Feeding continuation fragments is feeding their numbers and chunks.
pub proof fn lemma_after_fragments(
    m: ReassemblerModel<CTapBLECommand>,
    list: Seq<FragmentModel>,
    n: nat,
)
    requires
        n <= list.len(),
        forall|i: int|
            0 <= i < n ==> (#[trigger] list[i]).command.is_none() && list[i].seq_no.is_some(),
    ensures
        after_fragments(m, list, n) == m.after_continuations(continuations(list), n),
    decreases n,
{
    if n > 0 {
        lemma_after_fragments(m, list, (n - 1) as nat);
        assert(list[n - 1].command.is_none() && list[n - 1].seq_no.is_some());
    }
}

/// Feeding a fragment keeps the invariant and the settings of a
/// reassembler.
pub proof fn lemma_feed_keeps(m: ReassemblerModel<CTapBLECommand>, bytes: Seq<u8>)
    requires
        m.inv(),
    ensures
        feed_frame(m, bytes).0.inv(),
        feed_frame(m, bytes).0.same_settings(m),
        feed_frame(m, bytes).1.within(m.acc.limit),
{
    match decode(bytes, m.command.is_some()) {
        Ok(f) => {
            match f.command {
                Some(command) => {
                    m.lemma_inv_kept(command, f.length as nat, 0, f.data, CTapBLEError::Busy);
                },
                None => match f.seq_no {
                    Some(seq) => {
                        m.lemma_inv_kept(
                            CTapBLECommand::Ping,
                            0,
                            seq as nat,
                            f.data,
                            CTapBLEError::InvalidSequence,
                        );
                    },
                    None => {
                        m.lemma_inv_kept(
                            CTapBLECommand::Ping,
                            0,
                            0,
                            f.data,
                            CTapBLEError::InvalidSequence,
                        );
                    },
                },
            }
        },
        Err(e) => {
            m.lemma_inv_kept(CTapBLECommand::Ping, 0, 0, Seq::empty(), e);
        },
    }
}

/// Reassembler of the Bluetooth LE side.
#[derive(Debug)]
pub struct BleReassembler {
    inner: Reassembler<CTapBLECommand>,
}

impl View for BleReassembler {
    type V = ReassemblerModel<CTapBLECommand>;

    closed spec fn view(&self) -> ReassemblerModel<CTapBLECommand> {
        self.inner@
    }
}

impl BleReassembler {
    /// Validity of the representation.
    pub closed spec fn wf(&self) -> bool {
        &&& self.inner.wf()
        &&& !self.inner@.acc.padded
    }

    /// A valid reassembler's value satisfies the invariant of the model.
    pub proof fn lemma_wf(&self)
        requires
            self.wf(),
        ensures
            self@.inv(),
            !self@.acc.padded,
    {
        self.inner.lemma_wf();
    }

    /// A reassembler with nothing in progress, for messages of up to `limit`
    /// bytes.
    pub fn new(limit: usize) -> (r: BleReassembler)
        ensures
            r.wf(),
            r@ == ReassemblerModel::<CTapBLECommand>::fresh(limit as nat, false),
    {
        BleReassembler { inner: Reassembler::new(limit, false) }
    }

    /// Command of the message in progress, if there is one.
    pub fn pending_command(&self) -> (c: Option<CTapBLECommand>)
        ensures
            c == self@.command,
    {
        self.inner.pending_command()
    }

    /// Gives up the message in progress, if there is one.
    pub fn reset(&mut self)
        requires
            old(self).wf(),
        ensures
            final(self).wf(),
            final(self)@ == old(self)@.idle(),
    {
        self.inner.reset();
    }

    /// Changes the limit; a message in progress is given up.
    pub fn set_limit(&mut self, limit: usize)
        requires
            old(self).wf(),
        ensures
            final(self).wf(),
            final(self)@ == ReassemblerModel::<CTapBLECommand>::fresh(limit as nat, false),
    {
        self.inner.set_limit(limit);
    }

    /// Feeds one decoded fragment.
    pub fn feed(&mut self, fragment: &Fragment) -> (r: Feed<CTapBLECommand>)
        requires
            old(self).wf(),
        ensures
            final(self).wf(),
            (final(self)@, r@) == feed_fragment(old(self)@, fragment@),
    {
        match fragment.command {
            Some(command) => {
                match self.inner.pending_command() {
                    Some(_) => self.inner.refuse(CTapBLEError::Busy),
                    None => self.inner.first(command, fragment.length, fragment.data.as_slice()),
                }
            },
            None => match fragment.seq_no {
                Some(seq) => self.inner.next(seq, fragment.data.as_slice()),
                None => self.inner.refuse(CTapBLEError::InvalidSequence),
            },
        }
    }

    /// Decodes and feeds the bytes of one fragment.
    pub fn feed_bytes(&mut self, bytes: &[u8]) -> (r: Feed<CTapBLECommand>)
        requires
            old(self).wf(),
        ensures
            final(self).wf(),
            (final(self)@, r@) == feed_frame(old(self)@, bytes@),
    {
        let continuing: bool = self.inner.pending_command().is_some();
        match Fragment::new(bytes, continuing) {
            Ok(fragment) => self.feed(&fragment),
            Err(e) => self.inner.refuse(e),
        }
    }
}

/// Rebuilds the message that a list of fragments of up to `size` bytes
/// holds.
pub fn decode_message(frames: &Vec<Vec<u8>>, size: usize) -> (r: Result<
    Message<CTapBLECommand>,
    CTapBLEError,
>)
    ensures
        match r {
            Ok(m) => decoding(contents(frames@), size as nat) == Ok::<
                (CTapBLECommand, Seq<u8>),
                CTapBLEError,
            >((m.command, m.payload@)),
            Err(e) => decoding(contents(frames@), size as nat) == Err::<
                (CTapBLECommand, Seq<u8>),
                CTapBLEError,
            >(e),
        },
{
    if size < 4 {
        return Err(CTapBLEError::InvalidPAR);
    }
    let mut reassembler = BleReassembler::new(max_message(size));
    let ghost start = reassembler@;
    let ghost all = contents(frames@);
    let mut last: Feed<CTapBLECommand> = Feed::Incomplete;
    let mut i: usize = 0;
    while i < frames.len()
        invariant
            i <= frames@.len(),
            reassembler.wf(),
            all == contents(frames@),
            (reassembler@, last@) == replay(start, all.take(i as int)),
        decreases frames@.len() - i,
    {
        proof {
            assert(all.take(i + 1).drop_last() =~= all.take(i as int));
            assert(all.take(i + 1).last() == frames@[i as int]@);
        }
        let refused: bool = match &last {
            Feed::Error(_) => true,
            _ => false,
        };
        if !refused {
            last = reassembler.feed_bytes(frames[i].as_slice());
        }
        i += 1;
    }
    proof {
        assert(all.take(i as int) =~= all);
    }
    match last {
        Feed::Complete(m) => Ok(m),
        Feed::Incomplete => Err(CTapBLEError::InvalidLength),
        Feed::Error(e) => Err(e),
    }
}

/// Fragment `k` of a message, read while a message is in progress exactly
/// if `k` is not zero, decodes to the command and the declared length in
/// the first fragment and the sequence number in the others, and to its
/// chunk.
pub proof fn lemma_fragment_decodes(cmd: CTapBLECommand, payload: Seq<u8>, size: nat, k: nat)
    requires
        size >= 4,
        payload.len() <= max_message_len(size),
        k < chunk_count(payload.len(), first_capacity(size), cont_capacity(size)),
    ensures
        k <= 128,
        decode(fragment(cmd, payload, k, size), k != 0) == Ok::<FragmentModel, CTapBLEError>(
            FragmentModel {
                command: if k == 0 {
                    Some(cmd)
                } else {
                    None
                },
                seq_no: if k == 0 {
                    None
                } else {
                    Some((k - 1) as u8)
                },
                length: if k == 0 {
                    payload.len() as u16
                } else {
                    0
                },
                data: chunk_of(payload, k, first_capacity(size), cont_capacity(size)),
            },
        ),
{
    let first = first_capacity(size);
    let rest = cont_capacity(size);
    lemma_chunk_count_limit(payload.len(), first, rest);
    CTapBLECommand::lemma_code_roundtrip(cmd, 0);
    let chunk = chunk_of(payload, k, first, rest);
    let head = header(cmd, payload.len(), k);
    let f = fragment(cmd, payload, k, size);
    assert(be16_bytes(payload.len() as u16).len() == 2);
    if k == 0 {
        assert(head.len() == 3);
        assert(f.skip(3) =~= chunk);
        assert(f[0] == cmd.spec_code());
        assert(f[1] == be16_bytes(payload.len() as u16)[0]);
        assert(f[2] == be16_bytes(payload.len() as u16)[1]);
    } else {
        assert(head.len() == 1);
        assert(f.skip(1) =~= chunk);
        assert(f[0] == (k - 1) as u8);
    }
}

/// The reassembler after the first `k` fragments of a message that has
/// more than `k` fragments: fresh before the first, midway after it.
pub open spec fn underway(
    cmd: CTapBLECommand,
    payload: Seq<u8>,
    size: nat,
    limit: nat,
    k: nat,
) -> ReassemblerModel<CTapBLECommand> {
    if k == 0 {
        ReassemblerModel::<CTapBLECommand>::fresh(limit, false)
    } else {
        ReassemblerModel::<CTapBLECommand>::midway(
            limit,
            false,
            cmd,
            payload,
            first_capacity(size),
            cont_capacity(size),
            k,
        )
    }
}

/// Fragment `k` of a message, fed after the fragments before it, completes
/// the message if it is the last, and else leaves the reassembler one
/// fragment further.
pub proof fn lemma_feed_fragment(
    cmd: CTapBLECommand,
    payload: Seq<u8>,
    size: nat,
    limit: nat,
    k: nat,
)
    requires
        size >= 4,
        payload.len() <= max_message_len(size),
        payload.len() <= limit,
        k < chunk_count(payload.len(), first_capacity(size), cont_capacity(size)),
    ensures
        feed_frame(underway(cmd, payload, size, limit, k), fragment(cmd, payload, k, size)) == (
            if k + 1 == chunk_count(payload.len(), first_capacity(size), cont_capacity(size)) {
                (
                    ReassemblerModel::<CTapBLECommand>::fresh(limit, false),
                    FeedModel::<CTapBLECommand>::Complete(cmd, payload),
                )
            } else {
                (underway(cmd, payload, size, limit, k + 1), FeedModel::<CTapBLECommand>::Incomplete)
            }
        ),
{
    let first = first_capacity(size);
    let rest = cont_capacity(size);
    let n = chunk_count(payload.len(), first, rest);
    let before = underway(cmd, payload, size, limit, k);
    lemma_chunk_count_bounds(payload.len(), first, rest);
    lemma_chunk_offset_monotone(k, (n - 1) as nat, first, rest);
    lemma_chunk_offset_monotone(k + 1, n, first, rest);
    if k + 1 < n {
        lemma_chunk_offset_monotone(k + 1, (n - 1) as nat, first, rest);
    }
    lemma_chunk_offset_step(k, first, rest);
    lemma_fragment_decodes(cmd, payload, size, k);
    let chunk = chunk_of(payload, k, first, rest);
    let bytes = fragment(cmd, payload, k, size);
    let none = Seq::<u8>::empty();
    assert(chunk + none =~= chunk);
    let f = decode(bytes, k != 0)->Ok_0;
    assert(before.command.is_some() == (k != 0));
    assert(feed_frame(before, bytes) == feed_fragment(before, f));
    if k == 0 {
        assert(feed_fragment(before, f) == before.first(cmd, payload.len(), chunk + none));
        before.lemma_first_chunk(cmd, payload, first, rest, none);
        assert(before.idle() == before);
    } else {
        assert(feed_fragment(before, f) == before.next((k - 1) as nat, chunk + none));
        ReassemblerModel::<CTapBLECommand>::lemma_next_chunk(
            cmd,
            payload,
            limit,
            false,
            first,
            rest,
            k,
            none,
        );
        assert(before.idle() == ReassemblerModel::<CTapBLECommand>::fresh(limit, false));
    }
}

/// After the first `j` fragments of a message that has more, the
/// reassembler is midway through it.
pub proof fn lemma_replay_prefix(
    cmd: CTapBLECommand,
    payload: Seq<u8>,
    size: nat,
    limit: nat,
    j: nat,
)
    requires
        size >= 4,
        payload.len() <= max_message_len(size),
        payload.len() <= limit,
        j < chunk_count(payload.len(), first_capacity(size), cont_capacity(size)),
    ensures
        replay(
            ReassemblerModel::<CTapBLECommand>::fresh(limit, false),
            fragments(cmd, payload, size).take(j as int),
        ) == (underway(cmd, payload, size, limit, j), FeedModel::<CTapBLECommand>::Incomplete),
    decreases j,
{
    let all = fragments(cmd, payload, size);
    if j == 0 {
        assert(all.take(0).len() == 0);
    } else {
        let k = (j - 1) as nat;
        lemma_replay_prefix(cmd, payload, size, limit, k);
        lemma_feed_fragment(cmd, payload, size, limit, k);
        assert(all.take(j as int).drop_last() =~= all.take(k as int));
        assert(all.take(j as int).last() == fragment(cmd, payload, k, size));
    }
}

/// Decoding the fragments of a message gives the message back: for every
/// command and fragment size with room for payload, and every payload that
/// the fragments can carry, the fragments that encoding gives reassemble to
/// the same command and payload.
pub proof fn lemma_roundtrip(cmd: CTapBLECommand, payload: Seq<u8>, size: nat)
    requires
        size >= 4,
        payload.len() <= max_message_len(size),
    ensures
        decoding(fragments(cmd, payload, size), size) == Ok::<
            (CTapBLECommand, Seq<u8>),
            CTapBLEError,
        >((cmd, payload)),
{
    let limit = max_message_len(size);
    let n = chunk_count(payload.len(), first_capacity(size), cont_capacity(size));
    let all = fragments(cmd, payload, size);
    let k = (n - 1) as nat;
    lemma_chunk_count_bounds(payload.len(), first_capacity(size), cont_capacity(size));
    lemma_replay_prefix(cmd, payload, size, limit, k);
    lemma_feed_fragment(cmd, payload, size, limit, k);
    assert(all.drop_last() =~= all.take(k as int));
    assert(all.last() == fragment(cmd, payload, k, size));
}

} // verus!
