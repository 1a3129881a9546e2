//! Rebuilding a logical message from the chunks of its frames.
//!
//! The [`Accumulator`] tracks the declared length, the bytes received so far
//! and the sequence number that the next continuation must carry. The
//! [`Reassembler`] adds the command of the message in progress, whatever the
//! transport's command set is. What a transport adds to that (how its frames
//! are told apart, and what a new first frame does to a message in progress)
//! is in the transport's own module.

use vstd::prelude::*;
use crate::cmd::CTapBLEError;
use crate::wire::chunk_of;
use crate::wire::chunk_offset;
use crate::wire::lemma_chunk_offset_step;
use crate::wire::put_range;

verus! {

/// A logical message: a command of one of the transports and its payload.
#[derive(Debug)]
pub struct Message<C> {
    pub command: C,
    pub payload: Vec<u8>,
}

/// What feeding one frame to a reassembler gives.
#[derive(Debug)]
pub enum Feed<C> {
    /// The frame completed this message.
    Complete(Message<C>),
    /// The frame was taken, and more are needed.
    Incomplete,
    /// The frame was refused; reassembly starts afresh.
    Error(CTapBLEError),
}

/// Mathematical value of a [`Feed`].
pub enum FeedModel<C> {
    Complete(C, Seq<u8>),
    Incomplete,
    Error(CTapBLEError),
}

impl<C> FeedModel<C> {
    /// A completed payload is at most `limit` bytes long.
    pub open spec fn within(self, limit: nat) -> bool {
        self matches FeedModel::Complete(_, payload) ==> payload.len() <= limit
    }
}

impl<C> View for Feed<C> {
    type V = FeedModel<C>;

    open spec fn view(&self) -> FeedModel<C> {
        match *self {
            Feed::Complete(m) => FeedModel::Complete(m.command, m.payload@),
            Feed::Incomplete => FeedModel::Incomplete,
            Feed::Error(e) => FeedModel::Error(e),
        }
    }
}

/// What taking one chunk into the accumulator gives.
#[derive(Debug)]
pub enum Progress {
    /// The chunk completed a payload, which is handed out.
    Complete(Vec<u8>),
    /// The chunk was taken, and more are needed.
    Incomplete,
    /// The chunk was refused, and the accumulator is idle again.
    Error(CTapBLEError),
}

/// Mathematical value of a [`Progress`].
pub enum ProgressModel {
    Complete(Seq<u8>),
    Incomplete,
    Error(CTapBLEError),
}

impl View for Progress {
    type V = ProgressModel;

    open spec fn view(&self) -> ProgressModel {
        match *self {
            Progress::Complete(p) => ProgressModel::Complete(p@),
            Progress::Incomplete => ProgressModel::Incomplete,
            Progress::Error(e) => ProgressModel::Error(e),
        }
    }
}

/// A payload in the course of being received.
pub struct Gathering {
    /// Length that the first frame declared.
    pub total: nat,
    /// Bytes received so far.
    pub data: Seq<u8>,
    /// Sequence number that the next continuation must carry.
    pub next_seq: nat,
}

/// Mathematical value of an [`Accumulator`].
pub struct AccumulatorModel {
    /// Longest payload that is accepted.
    pub limit: nat,
    /// Whether bytes beyond the declared length are padding, to be dropped,
    /// or an error.
    pub padded: bool,
    /// The payload in progress, if there is one.
    pub pending: Option<Gathering>,
}

impl AccumulatorModel {
    /// The same accumulator with nothing in progress.
    pub open spec fn idle(self) -> AccumulatorModel {
        AccumulatorModel { pending: None, ..self }
    }

    /// A first chunk arrives, declaring `total` bytes in all. A payload that
    /// was in progress is given up.
    pub open spec fn begin(self, total: nat, chunk: Seq<u8>) -> (AccumulatorModel, ProgressModel) {
        if total > self.limit {
            (self.idle(), ProgressModel::Error(CTapBLEError::InvalidLength))
        } else if chunk.len() > total && !self.padded {
            (self.idle(), ProgressModel::Error(CTapBLEError::InvalidLength))
        } else if chunk.len() >= total {
            (self.idle(), ProgressModel::Complete(chunk.take(total as int)))
        } else {
            (
                AccumulatorModel {
                    pending: Some(Gathering { total, data: chunk, next_seq: 0 }),
                    ..self
                },
                ProgressModel::Incomplete,
            )
        }
    }

    /// A continuation chunk arrives with sequence number `seq`.
    pub open spec fn extend(self, seq: nat, chunk: Seq<u8>) -> (AccumulatorModel, ProgressModel) {
        match self.pending {
            None => (self.idle(), ProgressModel::Error(CTapBLEError::InvalidSequence)),
            Some(g) => {
                let missing = (g.total - g.data.len()) as nat;
                if seq != g.next_seq || seq > 127 {
                    (self.idle(), ProgressModel::Error(CTapBLEError::InvalidSequence))
                } else if chunk.len() > missing && !self.padded {
                    (self.idle(), ProgressModel::Error(CTapBLEError::InvalidLength))
                } else if chunk.len() >= missing {
                    (self.idle(), ProgressModel::Complete(g.data + chunk.take(missing as int)))
                } else {
                    (
                        AccumulatorModel {
                            pending: Some(
                                Gathering {
                                    total: g.total,
                                    data: g.data + chunk,
                                    next_seq: g.next_seq + 1,
                                },
                            ),
                            ..self
                        },
                        ProgressModel::Incomplete,
                    )
                }
            },
        }
    }

    /// What holds of every accumulator: a payload in progress is short of
    /// its declared length, which is within the limit.
    pub open spec fn inv(self) -> bool {
        match self.pending {
            None => true,
            Some(g) => g.data.len() < g.total <= self.limit && g.next_seq <= 128,
        }
    }
}

/// Accumulates the chunks of one payload at a time.
#[derive(Debug)]
pub struct Accumulator {
    limit: usize,
    padded: bool,
    active: bool,
    total: usize,
    data: Vec<u8>,
    next_seq: u8,
}

impl View for Accumulator {
    type V = AccumulatorModel;

    closed spec fn view(&self) -> AccumulatorModel {
        AccumulatorModel {
            limit: self.limit as nat,
            padded: self.padded,
            pending: if self.active {
                Some(
                    Gathering {
                        total: self.total as nat,
                        data: self.data@,
                        next_seq: self.next_seq as nat,
                    },
                )
            } else {
                None
            },
        }
    }
}

impl Accumulator {
    /// Validity of the representation.
    pub closed spec fn wf(&self) -> bool {
        self@.inv()
    }

    /// A valid accumulator's value satisfies the invariant of the model.
    pub proof fn lemma_wf(&self)
        requires
            self.wf(),
        ensures
            self@.inv(),
    {
    }

    /// An idle accumulator that accepts payloads of up to `limit` bytes.
    pub fn new(limit: usize, padded: bool) -> (acc: Accumulator)
        ensures
            acc.wf(),
            acc@ == (AccumulatorModel { limit: limit as nat, padded, pending: None }),
    {
        Accumulator { limit, padded, active: false, total: 0, data: Vec::new(), next_seq: 0 }
    }

    /// Whether a payload is in progress.
    pub fn is_active(&self) -> (b: bool)
        ensures
            b == self@.pending.is_some(),
    {
        self.active
    }

    /// Longest payload that is accepted.
    pub fn limit(&self) -> (n: usize)
        ensures
            n == self@.limit,
    {
        self.limit
    }

    /// Gives up the payload in progress, if there is one.
    pub fn reset(&mut self)
        ensures
            final(self).wf(),
            final(self)@ == old(self)@.idle(),
    {
        self.active = false;
        self.data = Vec::new();
    }

    /// Changes the limit; a payload in progress is given up.
    pub fn set_limit(&mut self, limit: usize)
        ensures
            final(self).wf(),
            final(self)@ == (AccumulatorModel {
                limit: limit as nat,
                padded: old(self)@.padded,
                pending: None,
            }),
    {
        self.active = false;
        self.data = Vec::new();
        self.limit = limit;
    }

    /// Takes the first chunk of a payload of `total` bytes.
    pub fn begin(&mut self, total: u16, chunk: &[u8]) -> (r: Progress)
        ensures
            final(self).wf(),
            (final(self)@, r@) == old(self)@.begin(total as nat, chunk@),
    {
        self.active = false;
        self.data = Vec::new();
        let total: usize = total as usize;
        if total > self.limit {
            return Progress::Error(CTapBLEError::InvalidLength);
        }
        if chunk.len() > total && !self.padded {
            return Progress::Error(CTapBLEError::InvalidLength);
        }
        let mut data: Vec<u8> = Vec::new();
        if chunk.len() >= total {
            put_range(&mut data, chunk, 0, total);
            assert(data@ =~= chunk@.take(total as int));
            return Progress::Complete(data);
        }
        put_range(&mut data, chunk, 0, chunk.len());
        assert(data@ =~= chunk@);
        self.active = true;
        self.total = total;
        self.data = data;
        self.next_seq = 0;
        Progress::Incomplete
    }

    /// Takes a continuation chunk that carries sequence number `seq`.
    pub fn extend(&mut self, seq: u8, chunk: &[u8]) -> (r: Progress)
        requires
            old(self).wf(),
        ensures
            final(self).wf(),
            (final(self)@, r@) == old(self)@.extend(seq as nat, chunk@),
    {
        if !self.active {
            self.data = Vec::new();
            return Progress::Error(CTapBLEError::InvalidSequence);
        }
        self.active = false;
        let mut data: Vec<u8> = Vec::new();
        std::mem::swap(&mut data, &mut self.data);
        if seq != self.next_seq || seq > 127 {
            return Progress::Error(CTapBLEError::InvalidSequence);
        }
        let missing: usize = self.total - data.len();
        if chunk.len() > missing && !self.padded {
            return Progress::Error(CTapBLEError::InvalidLength);
        }
        if chunk.len() >= missing {
            put_range(&mut data, chunk, 0, missing);
            assert(chunk@.subrange(0, missing as int) =~= chunk@.take(missing as int));
            return Progress::Complete(data);
        }
        put_range(&mut data, chunk, 0, chunk.len());
        assert(chunk@.subrange(0, chunk@.len() as int) =~= chunk@);
        self.active = true;
        self.data = data;
        self.next_seq = seq + 1;
        Progress::Incomplete
    }
}

/// Mathematical value of a [`Reassembler`].
pub struct ReassemblerModel<C> {
    /// Lengths, bytes and sequence number.
    pub acc: AccumulatorModel,
    /// Command of the message in progress, if there is one.
    pub command: Option<C>,
}

impl<C> ReassemblerModel<C> {
    /// A reassembler with nothing in progress.
    pub open spec fn fresh(limit: nat, padded: bool) -> ReassemblerModel<C> {
        ReassemblerModel { acc: AccumulatorModel { limit, padded, pending: None }, command: None }
    }

    /// The same reassembler with nothing in progress.
    pub open spec fn idle(self) -> ReassemblerModel<C> {
        ReassemblerModel { acc: self.acc.idle(), command: None }
    }

    /// The reassembler and the result after the accumulator has taken a
    /// chunk of a message with command `command`.
    pub open spec fn settle(acc: AccumulatorModel, command: C, p: ProgressModel) -> (
        ReassemblerModel<C>,
        FeedModel<C>,
    ) {
        match p {
            ProgressModel::Complete(data) => (
                ReassemblerModel { acc, command: None },
                FeedModel::Complete(command, data),
            ),
            ProgressModel::Incomplete => (
                ReassemblerModel { acc, command: Some(command) },
                FeedModel::Incomplete,
            ),
            ProgressModel::Error(e) => (ReassemblerModel { acc, command: None }, FeedModel::Error(e)),
        }
    }

    /// A first frame arrives: a message with command `command` and `total`
    /// bytes begins with `chunk`. A message in progress is given up.
    pub open spec fn first(self, command: C, total: nat, chunk: Seq<u8>) -> (
        ReassemblerModel<C>,
        FeedModel<C>,
    ) {
        let (acc, p) = self.acc.begin(total, chunk);
        Self::settle(acc, command, p)
    }

    /// A continuation frame arrives with sequence number `seq`.
    pub open spec fn next(self, seq: nat, chunk: Seq<u8>) -> (ReassemblerModel<C>, FeedModel<C>) {
        match self.command {
            None => (self.idle(), FeedModel::Error(CTapBLEError::InvalidSequence)),
            Some(command) => {
                let (acc, p) = self.acc.extend(seq, chunk);
                Self::settle(acc, command, p)
            },
        }
    }

    /// A frame is refused for the reason `e`.
    pub open spec fn refuse(self, e: CTapBLEError) -> (ReassemblerModel<C>, FeedModel<C>) {
        (self.idle(), FeedModel::Error(e))
    }

    /// Whether two reassemblers have the same limit and the same way with
    /// padding.
    pub open spec fn same_settings(self, other: ReassemblerModel<C>) -> bool {
        self.acc.limit == other.acc.limit && self.acc.padded == other.acc.padded
    }

    /// What holds of every reassembler: it knows a command exactly while a
    /// payload is in progress.
    pub open spec fn inv(self) -> bool {
        &&& self.acc.inv()
        &&& self.command.is_some() <==> self.acc.pending.is_some()
    }

    /// The reassembler after the continuation frames `conts[0 .. n]`, each a
    /// sequence number and its chunk, have been fed in that order.
    pub open spec fn after_continuations(self, conts: Seq<(nat, Seq<u8>)>, n: nat) -> ReassemblerModel<
        C,
    >
        decreases n,
    {
        if n == 0 {
            self
        } else {
            let before = self.after_continuations(conts, (n - 1) as nat);
            before.next(conts[n - 1].0, conts[n - 1].1).0
        }
    }

    /// The reassembler in the middle of a message: `progress` chunks of
    /// `payload` have been taken, and more are to come.
    pub open spec fn midway(
        limit: nat,
        padded: bool,
        command: C,
        payload: Seq<u8>,
        first: nat,
        rest: nat,
        progress: nat,
    ) -> ReassemblerModel<C> {
        ReassemblerModel {
            acc: AccumulatorModel {
                limit,
                padded,
                pending: Some(
                    Gathering {
                        total: payload.len(),
                        data: payload.take(chunk_offset(progress, first, rest) as int),
                        next_seq: (progress - 1) as nat,
                    },
                ),
            },
            command: Some(command),
        }
    }

    /// Every step keeps the invariant.
    pub proof fn lemma_inv_kept(self, command: C, total: nat, seq: nat, chunk: Seq<u8>, e: CTapBLEError)
        requires
            self.inv(),
        ensures
            self.first(command, total, chunk).0.inv(),
            self.next(seq, chunk).0.inv(),
            self.refuse(e).0.inv(),
            self.idle().inv(),
            self.first(command, total, chunk).0.same_settings(self),
            self.next(seq, chunk).0.same_settings(self),
            self.refuse(e).0.same_settings(self),
            self.idle().same_settings(self),
            self.first(command, total, chunk).1.within(self.acc.limit),
            self.next(seq, chunk).1.within(self.acc.limit),
            self.refuse(e).1.within(self.acc.limit),
    {
    }

    /// A run of continuation frames whose sequence numbers do not count up
    /// from zero without a gap is refused: the first frame `at` whose number
    /// is not its place in the run gives `InvalidSequence`. The run is taken
    /// where a run may begin: right after a first frame, or with nothing in
    /// progress.
    pub proof fn lemma_out_of_sequence(self, conts: Seq<(nat, Seq<u8>)>, at: nat)
        requires
            self.inv(),
            self.acc.pending matches Some(g) ==> g.next_seq == 0,
            at < conts.len(),
            forall|i: int| 0 <= i < at ==> (#[trigger] conts[i]).0 == i,
            conts[at as int].0 != at,
        ensures
            self.after_continuations(conts, at).next(conts[at as int].0, conts[at as int].1).1
                == FeedModel::<C>::Error(CTapBLEError::InvalidSequence),
    {
        self.lemma_in_sequence(conts, at);
    }

    /// After `n` continuation frames numbered from zero without a gap, the
    /// reassembler is idle or expects the number `n`.
    pub proof fn lemma_in_sequence(self, conts: Seq<(nat, Seq<u8>)>, n: nat)
        requires
            self.inv(),
            self.acc.pending matches Some(g) ==> g.next_seq == 0,
            n <= conts.len(),
            forall|i: int| 0 <= i < n ==> (#[trigger] conts[i]).0 == i,
        ensures
            self.after_continuations(conts, n).inv(),
            self.after_continuations(conts, n).acc.pending matches Some(g) ==> g.next_seq == n,
        decreases n,
    {
        if n > 0 {
            self.lemma_in_sequence(conts, (n - 1) as nat);
            assert(conts[n - 1].0 == n - 1);
        }
    }

    /// The first chunk of a payload, taken by a reassembler whose limit the
    /// payload is within, completes the message if it holds all of it, and
    /// else leaves the reassembler midway. `extra` stands for padding behind
    /// the chunk: there is none unless the chunk is the last and padding is
    /// dropped.
    pub proof fn lemma_first_chunk(
        self,
        command: C,
        payload: Seq<u8>,
        first: nat,
        rest: nat,
        extra: Seq<u8>,
    )
        requires
            payload.len() <= self.acc.limit,
            payload.len() > first ==> extra.len() == 0,
            !self.acc.padded ==> extra.len() == 0,
        ensures
            self.first(command, payload.len(), chunk_of(payload, 0, first, rest) + extra) == (
                if payload.len() <= first {
                    (self.idle(), FeedModel::Complete(command, payload))
                } else {
                    (
                        Self::midway(self.acc.limit, self.acc.padded, command, payload, first, rest, 1),
                        FeedModel::Incomplete,
                    )
                }
            ),
    {
        lemma_chunk_offset_step(0, first, rest);
        let chunk = chunk_of(payload, 0, first, rest);
        let whole = chunk + extra;
        if payload.len() <= first {
            assert(chunk =~= payload);
            assert(whole.take(payload.len() as int) =~= payload);
        } else {
            assert(whole =~= payload.take(first as int));
        }
    }

    /// A later chunk of a payload, taken by a reassembler that is midway
    /// through it, completes the message if it holds the rest of it, and else
    /// leaves the reassembler midway, one chunk further.
    pub proof fn lemma_next_chunk(
        command: C,
        payload: Seq<u8>,
        limit: nat,
        padded: bool,
        first: nat,
        rest: nat,
        k: nat,
        extra: Seq<u8>,
    )
        requires
            1 <= k <= 128,
            chunk_offset(k, first, rest) < payload.len(),
            payload.len() > chunk_offset(k + 1, first, rest) ==> extra.len() == 0,
            !padded ==> extra.len() == 0,
        ensures
            Self::midway(limit, padded, command, payload, first, rest, k).next(
                (k - 1) as nat,
                chunk_of(payload, k, first, rest) + extra,
            ) == (if payload.len() <= chunk_offset(k + 1, first, rest) {
                (
                    Self::midway(limit, padded, command, payload, first, rest, k).idle(),
                    FeedModel::Complete(command, payload),
                )
            } else {
                (
                    Self::midway(limit, padded, command, payload, first, rest, k + 1),
                    FeedModel::Incomplete,
                )
            }),
    {
        lemma_chunk_offset_step(k, first, rest);
        let lo = chunk_offset(k, first, rest) as int;
        let hi = chunk_offset(k + 1, first, rest) as int;
        let chunk = chunk_of(payload, k, first, rest);
        let whole = chunk + extra;
        let got = payload.take(lo);
        let missing = payload.len() - lo;
        if payload.len() <= hi {
            assert(chunk =~= payload.skip(lo));
            assert(got + whole.take(missing) =~= payload);
        } else {
            assert(got + whole =~= payload.take(hi));
        }
    }
}

/// Rebuilds messages with commands of type `C` from the chunks of their
/// frames, one message at a time.
#[derive(Debug)]
pub struct Reassembler<C> {
    acc: Accumulator,
    command: Option<C>,
}

impl<C> View for Reassembler<C> {
    type V = ReassemblerModel<C>;

    closed spec fn view(&self) -> ReassemblerModel<C> {
        ReassemblerModel {
            acc: self.acc@,
            command: if self.acc@.pending.is_some() {
                self.command
            } else {
                None
            },
        }
    }
}

impl<C: Copy> Reassembler<C> {
    /// Validity of the representation.
    pub closed spec fn wf(&self) -> bool {
        &&& self.acc.wf()
        &&& self.acc@.pending.is_some() ==> self.command.is_some()
    }

    /// A valid reassembler's value satisfies the invariant of the model.
    pub proof fn lemma_wf(&self)
        requires
            self.wf(),
        ensures
            self@.inv(),
    {
        self.acc.lemma_wf();
    }

    /// A reassembler with nothing in progress, which accepts payloads of up
    /// to `limit` bytes. With `padded`, bytes beyond the declared length are
    /// dropped as padding; without, they are an error.
    pub fn new(limit: usize, padded: bool) -> (r: Reassembler<C>)
        ensures
            r.wf(),
            r@ == ReassemblerModel::<C>::fresh(limit as nat, padded),
    {
        Reassembler { acc: Accumulator::new(limit, padded), command: None }
    }

    /// Command of the message in progress, if there is one.
    pub fn pending_command(&self) -> (c: Option<C>)
        ensures
            c == self@.command,
    {
        if self.acc.is_active() {
            self.command
        } else {
            None
        }
    }

    /// Longest payload that is accepted.
    pub fn limit(&self) -> (n: usize)
        ensures
            n == self@.acc.limit,
    {
        self.acc.limit()
    }

    /// Gives up the message in progress, if there is one.
    pub fn reset(&mut self)
        ensures
            final(self).wf(),
            final(self)@ == old(self)@.idle(),
    {
        self.acc.reset();
        self.command = None;
    }

    /// Changes the limit; a message in progress is given up.
    pub fn set_limit(&mut self, limit: usize)
        ensures
            final(self).wf(),
            final(self)@ == ReassemblerModel::<C>::fresh(limit as nat, old(self)@.acc.padded),
    {
        self.acc.set_limit(limit);
        self.command = None;
    }

    /// Gives up the message in progress and reports the refusal of a frame.
    pub fn refuse(&mut self, e: CTapBLEError) -> (r: Feed<C>)
        ensures
            final(self).wf(),
            (final(self)@, r@) == old(self)@.refuse(e),
    {
        self.reset();
        Feed::Error(e)
    }

    /// Takes the first frame of a message.
    pub fn first(&mut self, command: C, total: u16, chunk: &[u8]) -> (r: Feed<C>)
        ensures
            final(self).wf(),
            (final(self)@, r@) == old(self)@.first(command, total as nat, chunk@),
    {
        self.command = Some(command);
        match self.acc.begin(total, chunk) {
            Progress::Complete(payload) => Feed::Complete(Message { command, payload }),
            Progress::Incomplete => Feed::Incomplete,
            Progress::Error(e) => Feed::Error(e),
        }
    }

    /// Takes a continuation frame.
    pub fn next(&mut self, seq: u8, chunk: &[u8]) -> (r: Feed<C>)
        requires
            old(self).wf(),
        ensures
            final(self).wf(),
            (final(self)@, r@) == old(self)@.next(seq as nat, chunk@),
    {
        match self.pending_command() {
            None => self.refuse(CTapBLEError::InvalidSequence),
            Some(command) => match self.acc.extend(seq, chunk) {
                Progress::Complete(payload) => Feed::Complete(Message { command, payload }),
                Progress::Incomplete => Feed::Incomplete,
                Progress::Error(e) => Feed::Error(e),
            },
        }
    }
}

} // verus!
