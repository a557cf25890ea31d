//! The bridge between capture and network: a bounded first-in-first-out
//! queue of sample words with a small life cycle.
//!
//! The producer enqueues one word per sample and is refused, never
//! overwritten, when the queue is full: the caller waits and tries again,
//! which is the backpressure that tells it the consumer has fallen behind.
//! The consumer takes whole transfer units out of the queue. Once the
//! producer has closed the bridge, the consumer flushes what is left as a
//! last, possibly short, chunk.
//!
//! ```text
//! Idle -> Streaming -> Draining -> Terminated
//! ```
//!
//! Locks and waiting are the caller's business: a bridge is a plain value.

use crate::announce::announcement;
use crate::announce::control_frame;
use crate::announce::control_frame_of;
use crate::capture::frames_of;
use crate::capture::views;
use crate::chunker::chunk_at;
use crate::chunker::chunk_count;
use crate::chunker::chunk_start;
use crate::chunker::lemma_chunk_count_is_ceiling;
use crate::chunker::lemma_chunk_exists;
use crate::chunker::lemma_chunk_step;
use crate::config::Args;
use crate::framing::frame;
use crate::framing::frame_of;
use crate::framing::CHUNK_SIZE;
use std::collections::VecDeque;
use vstd::arithmetic::div_mod::lemma_div_denominator;
use vstd::arithmetic::div_mod::lemma_fundamental_div_mod;
use vstd::arithmetic::div_mod::lemma_fundamental_div_mod_converse;
use vstd::prelude::*;

verus! {

/// Where a bridge stands in its life cycle.
#[derive(Clone, Copy, Debug, PartialEq, Eq, Structural)]
pub enum BridgeState {
    /// Nothing has been enqueued yet.
    Idle,
    /// The producer is enqueuing.
    Streaming,
    /// The producer has closed the bridge and words are still queued.
    Draining,
    /// Closed and empty, or stopped by a fatal error.
    Terminated,
}

/// How an attempt to enqueue ended.
#[derive(Clone, Copy, Debug, PartialEq, Eq, Structural)]
pub enum Enqueue {
    /// The word is in the queue.
    Queued,
    /// The queue is at capacity: the producer has to wait for the consumer.
    Full,
    /// The bridge takes no more words.
    Closed,
}

/// Mathematical model of a bridge.
#[verifier::ext_equal]
pub struct BridgeModel {
    /// The queued words, oldest first.
    pub words: Seq<u32>,
    /// The most words that the queue holds.
    pub capacity: nat,
    pub state: BridgeState,
}

impl BridgeModel {
    /// A bridge that nothing has passed through yet.
    pub open spec fn fresh(capacity: nat) -> BridgeModel {
        BridgeModel { words: Seq::empty(), capacity, state: BridgeState::Idle }
    }

    /// The producer may still enqueue.
    pub open spec fn is_open(self) -> bool {
        self.state == BridgeState::Idle || self.state == BridgeState::Streaming
    }

    /// What holds of every bridge that was reached from a fresh one: the
    /// queue is within its capacity, an idle or terminated bridge is empty,
    /// and a draining one is not.
    pub open spec fn wf(self) -> bool {
        &&& self.capacity > 0
        &&& self.words.len() <= self.capacity
        &&& (self.state == BridgeState::Idle ==> self.words.len() == 0)
        &&& (self.state == BridgeState::Draining ==> self.words.len() > 0)
        &&& (self.state == BridgeState::Terminated ==> self.words.len() == 0)
    }

    /// The outcome of enqueuing on this bridge.
    pub open spec fn enqueue_outcome(self) -> Enqueue {
        if !self.is_open() {
            Enqueue::Closed
        } else if self.words.len() >= self.capacity {
            Enqueue::Full
        } else {
            Enqueue::Queued
        }
    }

    /// The bridge after an attempt to enqueue `word`: the word goes to the
    /// back of the queue of an open bridge with room, which is then
    /// streaming; nothing changes otherwise.
    pub open spec fn enqueue(self, word: u32) -> BridgeModel {
        if self.enqueue_outcome() == Enqueue::Queued {
            BridgeModel {
                words: self.words.push(word),
                capacity: self.capacity,
                state: BridgeState::Streaming,
            }
        } else {
            self
        }
    }

    /// The word that a dequeue hands out: the oldest, if there is any.
    pub open spec fn front(self) -> Option<u32> {
        if self.words.len() > 0 {
            Some(self.words[0])
        } else {
            None
        }
    }

    /// The bridge after a dequeue: the oldest word is gone, and a draining
    /// bridge that is empty now is terminated.
    pub open spec fn dequeue(self) -> BridgeModel {
        let rest = if self.words.len() > 0 {
            self.words.skip(1)
        } else {
            self.words
        };
        BridgeModel {
            words: rest,
            capacity: self.capacity,
            state: if self.state == BridgeState::Draining && rest.len() == 0 {
                BridgeState::Terminated
            } else {
                self.state
            },
        }
    }

    /// The bridge after the producer has closed it: draining where words
    /// are queued, terminated where none are.
    pub open spec fn close(self) -> BridgeModel {
        BridgeModel {
            words: self.words,
            capacity: self.capacity,
            state: if self.state == BridgeState::Terminated {
                BridgeState::Terminated
            } else if self.words.len() > 0 {
                BridgeState::Draining
            } else {
                BridgeState::Terminated
            },
        }
    }

    /// The bridge after a fatal error on the consumer's side: terminated,
    /// what was queued is discarded.
    pub open spec fn fail(self) -> BridgeModel {
        BridgeModel {
            words: Seq::empty(),
            capacity: self.capacity,
            state: BridgeState::Terminated,
        }
    }
}

/// One operation on a bridge.
pub enum BridgeOp {
    /// The producer offers a word.
    Enqueue(u32),
    /// The consumer asks for a word.
    Dequeue,
    /// The producer closes the bridge.
    Close,
    /// The consumer hits a fatal error.
    Fail,
}

/// A bridge together with the record of what has passed through it.
pub struct Trace {
    pub bridge: BridgeModel,
    /// The words that were queued, in the order in which they were offered.
    pub accepted: Seq<u32>,
    /// The words that were handed to the consumer, in the order in which it
    /// got them.
    pub delivered: Seq<u32>,
    /// The words that a fatal error discarded.
    pub discarded: Seq<u32>,
}

impl Trace {
    /// The record of a fresh bridge.
    pub open spec fn fresh(capacity: nat) -> Trace {
        Trace {
            bridge: BridgeModel::fresh(capacity),
            accepted: Seq::empty(),
            delivered: Seq::empty(),
            discarded: Seq::empty(),
        }
    }

    /// The record after one more operation.
    pub open spec fn step(self, op: BridgeOp) -> Trace {
        match op {
            BridgeOp::Enqueue(word) => Trace {
                bridge: self.bridge.enqueue(word),
                accepted: if self.bridge.enqueue_outcome() == Enqueue::Queued {
                    self.accepted.push(word)
                } else {
                    self.accepted
                },
                delivered: self.delivered,
                discarded: self.discarded,
            },
            BridgeOp::Dequeue => Trace {
                bridge: self.bridge.dequeue(),
                accepted: self.accepted,
                delivered: match self.bridge.front() {
                    Some(word) => self.delivered.push(word),
                    None => self.delivered,
                },
                discarded: self.discarded,
            },
            BridgeOp::Close => Trace {
                bridge: self.bridge.close(),
                accepted: self.accepted,
                delivered: self.delivered,
                discarded: self.discarded,
            },
            BridgeOp::Fail => Trace {
                bridge: self.bridge.fail(),
                accepted: self.accepted,
                delivered: self.delivered,
                discarded: self.discarded + self.bridge.words,
            },
        }
    }

    /// The record after a sequence of operations.
    pub open spec fn run(self, ops: Seq<BridgeOp>) -> Trace
        decreases ops.len(),
    {
        if ops.len() == 0 {
            self
        } else {
            self.run(ops.drop_last()).step(ops.last())
        }
    }

    /// Nothing is lost, doubled or reordered: what was accepted is what was
    /// delivered, then what was discarded, then what is still queued.
    pub open spec fn conserves(self) -> bool {
        &&& self.bridge.wf()
        &&& self.accepted == self.delivered + self.discarded + self.bridge.words
        &&& (self.discarded.len() > 0 ==> self.bridge.state == BridgeState::Terminated)
    }
}

/// Every operation keeps a bridge well formed.
pub proof fn lemma_wf_preserved(bridge: BridgeModel, word: u32)
    requires
        bridge.wf(),
    ensures
        bridge.enqueue(word).wf(),
        bridge.dequeue().wf(),
        bridge.close().wf(),
        bridge.fail().wf(),
        BridgeModel::fresh(bridge.capacity).wf(),
{
}

/// One operation keeps the record conserved.
pub proof fn lemma_step_conserves(t: Trace, op: BridgeOp)
    requires
        t.conserves(),
    ensures
        t.step(op).conserves(),
{
    let next = t.step(op);
    match op {
        BridgeOp::Enqueue(word) => {
            assert(next.accepted =~= next.delivered + next.discarded + next.bridge.words);
        },
        BridgeOp::Dequeue => {
            assert(next.accepted =~= next.delivered + next.discarded + next.bridge.words);
        },
        BridgeOp::Close => {},
        BridgeOp::Fail => {
            assert(next.accepted =~= next.delivered + next.discarded + next.bridge.words);
        },
    }
}

/// First in, first out: whatever the producer and the consumer do to a
/// bridge, in whatever order, the words that the consumer has got are the
/// first of the words that were queued, in the order in which they were
/// queued, none of them twice; the queue never holds more than its
/// capacity; and as long as no fatal error struck, the words still queued
/// are exactly the rest.
pub proof fn lemma_fifo(capacity: nat, ops: Seq<BridgeOp>)
    requires
        capacity > 0,
    ensures
        Trace::fresh(capacity).run(ops).conserves(),
        Trace::fresh(capacity).run(ops).bridge.words.len() <= capacity,
        Trace::fresh(capacity).run(ops).delivered == Trace::fresh(capacity).run(
            ops,
        ).accepted.take(Trace::fresh(capacity).run(ops).delivered.len() as int),
        (forall|i: int| 0 <= i < ops.len() ==> !(ops[i] is Fail)) ==> Trace::fresh(capacity).run(
            ops,
        ).accepted == Trace::fresh(capacity).run(ops).delivered + Trace::fresh(capacity).run(
            ops,
        ).bridge.words,
    decreases ops.len(),
{
    let start = Trace::fresh(capacity);
    if ops.len() == 0 {
        assert(start.accepted =~= start.delivered + start.discarded + start.bridge.words);
        assert(start.delivered =~= start.accepted.take(0));
    } else {
        let before = start.run(ops.drop_last());
        lemma_fifo(capacity, ops.drop_last());
        lemma_capacity_fixed(start, ops.drop_last());
        lemma_step_conserves(before, ops.last());
        let after = start.run(ops);
        assert(after.delivered =~= after.accepted.take(after.delivered.len() as int));
        if forall|i: int| 0 <= i < ops.len() ==> !(ops[i] is Fail) {
            assert forall|i: int| 0 <= i < ops.drop_last().len() implies !(ops.drop_last()[i]
                is Fail) by {
                assert(ops.drop_last()[i] == ops[i]);
            }
            assert(!(ops[ops.len() - 1] is Fail));
            assert(before.accepted == before.delivered + before.bridge.words);
            lemma_nothing_discarded(start, ops.drop_last());
            assert(after.discarded.len() == 0);
            assert(after.accepted =~= after.delivered + after.bridge.words);
        }
    }
    lemma_capacity_fixed(start, ops);
}

/// No operation changes the capacity.
pub proof fn lemma_capacity_fixed(t: Trace, ops: Seq<BridgeOp>)
    ensures
        t.run(ops).bridge.capacity == t.bridge.capacity,
    decreases ops.len(),
{
    if ops.len() > 0 {
        lemma_capacity_fixed(t, ops.drop_last());
    }
}

/// Without a fatal error nothing is discarded.
pub proof fn lemma_nothing_discarded(t: Trace, ops: Seq<BridgeOp>)
    requires
        forall|i: int| 0 <= i < ops.len() ==> !(ops[i] is Fail),
    ensures
        t.run(ops).discarded == t.discarded,
    decreases ops.len(),
{
    if ops.len() > 0 {
        assert forall|i: int| 0 <= i < ops.drop_last().len() implies !(ops.drop_last()[i]
            is Fail) by {
            assert(ops.drop_last()[i] == ops[i]);
        }
        lemma_nothing_discarded(t, ops.drop_last());
        assert(!(ops[ops.len() - 1] is Fail));
    }
}

/// Position of a state in the life cycle.
pub open spec fn stage(state: BridgeState) -> nat {
    match state {
        BridgeState::Idle => 0,
        BridgeState::Streaming => 1,
        BridgeState::Draining => 2,
        BridgeState::Terminated => 3,
    }
}

/// The life cycle runs one way: no operation takes a bridge back to an
/// earlier state, an idle bridge starts streaming with the first word it
/// takes, and a terminated bridge stays terminated and empty.
pub proof fn lemma_life_cycle(bridge: BridgeModel, word: u32)
    requires
        bridge.wf(),
    ensures
        stage(bridge.enqueue(word).state) >= stage(bridge.state),
        stage(bridge.dequeue().state) >= stage(bridge.state),
        stage(bridge.close().state) >= stage(bridge.state),
        stage(bridge.fail().state) >= stage(bridge.state),
        bridge.state == BridgeState::Idle ==> bridge.enqueue(word).state == BridgeState::Streaming,
        bridge.state == BridgeState::Streaming && bridge.words.len() > 0 ==> bridge.close().state
            == BridgeState::Draining,
        bridge.state == BridgeState::Draining && bridge.words.len() == 1
            ==> bridge.dequeue().state == BridgeState::Terminated,
        bridge.state == BridgeState::Terminated ==> {
            &&& bridge.enqueue(word) == bridge
            &&& bridge.dequeue() == bridge
            &&& bridge.close() == bridge
            &&& bridge.fail() == bridge
        },
{
    if bridge.state == BridgeState::Terminated {
        assert(bridge.dequeue() =~= bridge);
        assert(bridge.close() =~= bridge);
        assert(bridge.fail() =~= bridge);
    }
}

/// Backpressure: an open bridge refuses a word exactly when its queue is at
/// capacity; the refusal changes nothing; and as soon as the consumer has
/// taken one word out, the same word is accepted.
pub proof fn lemma_backpressure(bridge: BridgeModel, word: u32)
    requires
        bridge.wf(),
        bridge.is_open(),
    ensures
        bridge.enqueue_outcome() == Enqueue::Full <==> bridge.words.len() == bridge.capacity,
        bridge.enqueue_outcome() == Enqueue::Queued <==> bridge.words.len() < bridge.capacity,
        bridge.enqueue_outcome() == Enqueue::Full ==> bridge.enqueue(word) == bridge,
        bridge.enqueue_outcome() == Enqueue::Full ==> bridge.dequeue().enqueue_outcome()
            == Enqueue::Queued,
        bridge.enqueue(word).words.len() <= bridge.capacity,
{
}

/// Byte `k` of the little-endian encoding of `word`.
pub open spec fn word_byte(word: u32, k: int) -> u8 {
    if k == 0 {
        (word % 256) as u8
    } else if k == 1 {
        ((word / 256) % 256) as u8
    } else if k == 2 {
        ((word / 65536) % 256) as u8
    } else {
        (word / 16777216) as u8
    }
}

/// The four bytes of one sample word, least significant first.
pub open spec fn word_bytes(word: u32) -> Seq<u8> {
    seq![word_byte(word, 0), word_byte(word, 1), word_byte(word, 2), word_byte(word, 3)]
}

/// The bytes of a run of sample words, in order.
pub open spec fn words_bytes(words: Seq<u32>) -> Seq<u8> {
    Seq::new(4 * words.len(), |i: int| word_byte(words[i / 4], i % 4))
}

/// The bytes of a run with one more word are the bytes of the run followed
/// by the bytes of the word.
pub proof fn lemma_words_bytes_push(words: Seq<u32>, word: u32)
    ensures
        words_bytes(words.push(word)) == words_bytes(words) + word_bytes(word),
{
    let left = words_bytes(words.push(word));
    let right = words_bytes(words) + word_bytes(word);
    assert(left.len() == right.len());
    assert forall|i: int| 0 <= i < left.len() implies left[i] == right[i] by {
        if i < 4 * words.len() {
            assert(words.push(word)[i / 4] == words[i / 4]);
        } else {
            assert(i / 4 == words.len());
            assert(i % 4 == i - 4 * words.len());
        }
    }
    assert(left =~= right);
}

/// The bytes of a part of a run are the matching part of the run's bytes.
pub proof fn lemma_words_bytes_subrange(words: Seq<u32>, from: int, to: int)
    requires
        0 <= from <= to <= words.len(),
    ensures
        words_bytes(words.subrange(from, to)) == words_bytes(words).subrange(4 * from, 4 * to),
{
    let left = words_bytes(words.subrange(from, to));
    let right = words_bytes(words).subrange(4 * from, 4 * to);
    assert(left.len() == right.len());
    assert forall|i: int| 0 <= i < left.len() implies left[i] == right[i] by {
        assert((4 * from + i) / 4 == from + i / 4);
        assert((4 * from + i) % 4 == i % 4);
    }
    assert(left =~= right);
}

impl BridgeModel {
    /// Number of words that the consumer takes out next, at `unit` words a
    /// transfer unit: a whole unit where more than a unit is queued, all
    /// that is left where the bridge is draining, nothing otherwise.
    pub open spec fn takes(self, unit: nat) -> nat {
        if (self.state == BridgeState::Streaming || self.state == BridgeState::Draining)
            && self.words.len() > unit {
            unit
        } else if self.state == BridgeState::Draining {
            self.words.len()
        } else {
            0
        }
    }

    /// The bridge after the consumer has taken its next chunk: a draining
    /// bridge that has given its last word is terminated.
    pub open spec fn after_take(self, unit: nat) -> BridgeModel {
        BridgeModel {
            words: self.words.skip(self.takes(unit) as int),
            capacity: self.capacity,
            state: if self.state == BridgeState::Draining && self.takes(unit)
                == self.words.len() {
                BridgeState::Terminated
            } else {
                self.state
            },
        }
    }

    /// Number of chunks that the consumer takes out until it has to wait:
    /// all of them from a draining bridge, all but the last from a
    /// streaming one, which keeps up to a unit back for the next time.
    pub open spec fn drain_count(self, unit: nat) -> nat {
        let whole = chunk_count(self.words.len(), unit);
        if self.state == BridgeState::Draining {
            whole
        } else if self.state == BridgeState::Streaming && whole > 0 {
            (whole - 1) as nat
        } else {
            0
        }
    }

    /// The frames of those chunks: the first [`Self::drain_count`] frames of
    /// the queued bytes, cut at four bytes a word.
    pub open spec fn drain_frames(self, unit: nat) -> Seq<Seq<u8>> {
        frames_of(words_bytes(self.words), 4 * unit).take(self.drain_count(unit) as int)
    }

    /// The bridge after those chunks have been taken.
    pub open spec fn after_drain(self, unit: nat) -> BridgeModel {
        BridgeModel {
            words: self.words.skip(
                chunk_start(self.words.len(), unit, self.drain_count(unit)) as int,
            ),
            capacity: self.capacity,
            state: if self.state == BridgeState::Draining {
                BridgeState::Terminated
            } else {
                self.state
            },
        }
    }
}

/// Chunk `j` of the queued bytes is made of the words of chunk `j` of the
/// queue.
pub proof fn lemma_word_chunk(words: Seq<u32>, unit: nat, j: nat)
    requires
        unit > 0,
    ensures
        chunk_count(4 * words.len(), 4 * unit) == chunk_count(words.len(), unit),
        chunk_start(4 * words.len(), 4 * unit, j) == 4 * chunk_start(words.len(), unit, j),
        chunk_at(words_bytes(words), 4 * unit, j) == words_bytes(
            words.subrange(
                chunk_start(words.len(), unit, j) as int,
                chunk_start(words.len(), unit, j + 1) as int,
            ),
        ),
{
    let len = words.len();
    let c1 = chunk_count(len, unit);
    let c2 = chunk_count(4 * len, 4 * unit);
    lemma_chunk_count_is_ceiling(len, unit);
    lemma_chunk_exists(4 * len, 4 * unit, c1);
    assert(c1 * (4 * unit) == 4 * (c1 * unit)) by (nonlinear_arith);
    if c1 > 0 {
        let p = (c1 - 1) as nat;
        lemma_chunk_exists(4 * len, 4 * unit, p);
        assert(p * (4 * unit) == 4 * (p * unit)) by (nonlinear_arith);
    }
    assert(c1 == c2);
    assert(j * (4 * unit) == 4 * (j * unit)) by (nonlinear_arith);
    assert((j + 1) * (4 * unit) == 4 * ((j + 1) * unit)) by (nonlinear_arith);
    lemma_chunk_step(len, unit, j);
    lemma_words_bytes_subrange(
        words,
        chunk_start(len, unit, j) as int,
        chunk_start(len, unit, j + 1) as int,
    );
}

/// The bounded queue between the capture side and the network side.
pub struct Bridge {
    queue: VecDeque<u32>,
    capacity: usize,
    state: BridgeState,
}

impl View for Bridge {
    type V = BridgeModel;

    closed spec fn view(&self) -> BridgeModel {
        BridgeModel { words: self.queue@, capacity: self.capacity as nat, state: self.state }
    }
}

/// Appends the four bytes of `word` to `out`, least significant first.
pub fn push_word(out: &mut Vec<u8>, word: u32)
    ensures
        final(out)@ == old(out)@ + word_bytes(word),
{
    out.push((word % 256) as u8);
    out.push(((word / 256) % 256) as u8);
    out.push(((word / 65536) % 256) as u8);
    out.push((word / 16777216) as u8);
    assert(out@ =~= old(out)@ + word_bytes(word));
}

impl Bridge {
    /// A bridge that holds up to `capacity` words and has seen none yet.
    pub fn new(capacity: usize) -> (bridge: Bridge)
        ensures
            bridge@ == BridgeModel::fresh(capacity as nat),
    {
        Bridge { queue: VecDeque::new(), capacity, state: BridgeState::Idle }
    }

    /// Where the bridge stands in its life cycle.
    pub fn state(&self) -> (state: BridgeState)
        ensures
            state == self@.state,
    {
        self.state
    }

    /// Number of words queued.
    pub fn len(&self) -> (len: usize)
        ensures
            len == self@.words.len(),
    {
        self.queue.len()
    }

    /// The most words that the queue holds.
    pub fn capacity(&self) -> (capacity: usize)
        ensures
            capacity == self@.capacity,
    {
        self.capacity
    }

    /// Offers `word` to the queue. An open bridge with room takes it at the
    /// back; a full one refuses it and stays as it is, and so does a bridge
    /// that has been closed.
    pub fn enqueue(&mut self, word: u32) -> (outcome: Enqueue)
        ensures
            outcome == old(self)@.enqueue_outcome(),
            final(self)@ == old(self)@.enqueue(word),
            old(self)@.wf() ==> final(self)@.wf(),
    {
        match self.state {
            BridgeState::Idle | BridgeState::Streaming => {},
            _ => {
                return Enqueue::Closed;
            },
        }
        if self.queue.len() >= self.capacity {
            return Enqueue::Full;
        }
        self.queue.push_back(word);
        self.state = BridgeState::Streaming;
        assert(self@ =~= old(self)@.enqueue(word));
        Enqueue::Queued
    }

    /// Takes the oldest word out of the queue, if there is one. A draining
    /// bridge that gives its last word is terminated.
    pub fn dequeue(&mut self) -> (word: Option<u32>)
        ensures
            word == old(self)@.front(),
            final(self)@ == old(self)@.dequeue(),
            old(self)@.wf() ==> final(self)@.wf(),
    {
        let word = self.queue.pop_front();
        if self.queue.len() == 0 {
            match self.state {
                BridgeState::Draining => {
                    self.state = BridgeState::Terminated;
                },
                _ => {},
            }
        }
        assert(self@ =~= old(self)@.dequeue());
        word
    }

    /// The producer is done: what is queued is still to be sent, and
    /// nothing more is taken in.
    pub fn close(&mut self)
        ensures
            final(self)@ == old(self)@.close(),
            old(self)@.wf() ==> final(self)@.wf(),
    {
        match self.state {
            BridgeState::Terminated => {},
            _ => {
                if self.queue.len() > 0 {
                    self.state = BridgeState::Draining;
                } else {
                    self.state = BridgeState::Terminated;
                }
            },
        }
        assert(self@ =~= old(self)@.close());
    }

    /// The consumer cannot go on: what is queued is discarded and the
    /// bridge is terminated.
    pub fn fail(&mut self)
        ensures
            final(self)@ == old(self)@.fail(),
            old(self)@.wf() ==> final(self)@.wf(),
    {
        self.queue.clear();
        self.state = BridgeState::Terminated;
        assert(self@ =~= old(self)@.fail());
    }

    /// Takes the next chunk out of the queue, at `unit` words a transfer
    /// unit, as bytes: see [`BridgeModel::takes`]. `None` means that the
    /// consumer has to wait for more words, or that the bridge is done.
    pub fn next_chunk(&mut self, unit: usize) -> (chunk: Option<Vec<u8>>)
        requires
            unit > 0,
        ensures
            final(self)@ == old(self)@.after_take(unit as nat),
            old(self)@.wf() ==> final(self)@.wf(),
            chunk is Some <==> old(self)@.takes(unit as nat) > 0,
            chunk matches Some(bytes) ==> bytes@ == words_bytes(
                old(self)@.words.take(old(self)@.takes(unit as nat) as int),
            ),
    {
        let ghost before = self@;
        let len = self.queue.len();
        let n: usize = match self.state {
            BridgeState::Streaming => if len > unit {
                unit
            } else {
                0
            },
            BridgeState::Draining => if len > unit {
                unit
            } else {
                len
            },
            _ => 0,
        };
        assert(n == before.takes(unit as nat));
        let mut bytes: Vec<u8> = Vec::new();
        let mut i: usize = 0;
        assert(bytes@ =~= words_bytes(before.words.take(0)));
        while i < n
            invariant
                i <= n <= before.words.len(),
                self.queue@ == before.words.skip(i as int),
                self.capacity == before.capacity,
                self.state == before.state,
                bytes@ == words_bytes(before.words.take(i as int)),
            decreases n - i,
        {
            let word = self.queue.pop_front();
            proof {
                assert(self.queue@ =~= before.words.skip(i + 1));
                assert(before.words.take(i + 1) =~= before.words.take(i as int).push(
                    before.words[i as int],
                ));
                lemma_words_bytes_push(before.words.take(i as int), before.words[i as int]);
            }
            match word {
                Some(word) => {
                    push_word(&mut bytes, word);
                },
                None => {},
            }
            i += 1;
        }
        if self.queue.len() == 0 {
            match self.state {
                BridgeState::Draining => {
                    self.state = BridgeState::Terminated;
                },
                _ => {},
            }
        }
        assert(self@ =~= before.after_take(unit as nat));
        if n == 0 {
            None
        } else {
            Some(bytes)
        }
    }
}

/// Sample rate of a bridged session whose settings name none.
pub const FALLBACK_RATE: u32 = 44100;

/// Number of sample words in one transfer unit of a stream with `channels`
/// channels: [`CHUNK_SIZE`] frames of one word a channel.
pub fn words_per_unit(channels: u16) -> (unit: usize)
    ensures
        unit == channels * CHUNK_SIZE,
{
    let unit: u32 = channels as u32 * 1024;
    unit as usize
}

/// Takes out of the bridge every chunk that is ready and frames it: see
/// [`BridgeModel::drain_frames`]. The datagrams come back in the order in
/// which they are to be sent; afterwards the consumer has to wait for the
/// producer, or the bridge is terminated.
pub fn capture_loop(bridge: &mut Bridge, unit: usize) -> (sent: Vec<Vec<u8>>)
    requires
        unit > 0,
    ensures
        views(sent@) == old(bridge)@.drain_frames(unit as nat),
        final(bridge)@ == old(bridge)@.after_drain(unit as nat),
        old(bridge)@.wf() ==> final(bridge)@.wf(),
{
    let ghost before = bridge@;
    let ghost total = before.drain_count(unit as nat);
    let ghost len = before.words.len();
    let ghost all = words_bytes(before.words);
    let mut sent: Vec<Vec<u8>> = Vec::new();
    let mut done = false;
    proof {
        assert(0 * (unit as nat) == 0) by (nonlinear_arith);
        assert(bridge@.words =~= before.words.skip(0));
    }
    while !done
        invariant
            unit > 0,
            total == before.drain_count(unit as nat),
            len == before.words.len(),
            all == words_bytes(before.words),
            sent@.len() <= total,
            bridge@.capacity == before.capacity,
            bridge@.words == before.words.skip(
                chunk_start(len, unit as nat, sent@.len()) as int,
            ),
            bridge@.state == before.state || (before.state == BridgeState::Draining && bridge@.state
                == BridgeState::Terminated && sent@.len() == total && chunk_start(
                len,
                unit as nat,
                sent@.len(),
            ) == len),
            before.wf() ==> bridge@.wf(),
            forall|i: int|
                0 <= i < sent@.len() ==> (#[trigger] sent@[i])@ == frame_of(
                    chunk_at(all, 4 * (unit as nat), i as nat),
                ),
            done ==> sent@.len() == total && bridge@ == before.after_drain(unit as nat),
        decreases
                total - sent@.len() + if done {
                    0int
                } else {
                    1int
                },
    {
        let ghost cur = bridge@;
        let ghost j: nat = sent@.len();
        proof {
            lemma_chunk_exists(len, unit as nat, j);
            lemma_chunk_exists(len, unit as nat, j + 1);
            lemma_chunk_step(len, unit as nat, j);
            lemma_chunk_count_is_ceiling(len, unit as nat);
            lemma_word_chunk(before.words, unit as nat, j);
        }
        match bridge.next_chunk(unit) {
            Some(bytes) => {
                proof {
                    let n = cur.takes(unit as nat);
                    let from = chunk_start(len, unit as nat, j);
                    let to = chunk_start(len, unit as nat, j + 1);
                    assert(cur.state == before.state);
                    assert(from + n == to);
                    assert(cur.words.take(n as int) =~= before.words.subrange(
                        from as int,
                        to as int,
                    ));
                    assert(bridge@.words =~= before.words.skip(to as int));
                    assert(bytes@ == chunk_at(all, 4 * (unit as nat), j));
                }
                sent.push(frame(bytes.as_slice()));
            },
            None => {
                proof {
                    assert(sent@.len() == total);
                    assert(bridge@ =~= before.after_drain(unit as nat));
                }
                done = true;
            },
        }
    }
    proof {
        lemma_word_chunk(before.words, unit as nat, 0);
        lemma_chunk_count_is_ceiling(len, unit as nat);
        assert(views(sent@) =~= before.drain_frames(unit as nat));
    }
    sent
}

/// How a bridged session starts.
pub struct Plan {
    /// Sample rate to capture at.
    pub rate: u32,
    /// The control frame to send before any audio.
    pub announcement: Vec<u8>,
}

/// Plans a bridged session from the command line's settings: it captures at
/// the configured rate, or at [`FALLBACK_RATE`] where none is configured,
/// and announces that rate with the configured buffer size before anything
/// else is sent.
pub fn stream(args: &Args) -> (plan: Plan)
    ensures
        plan.rate == if args.rate == 0 {
            FALLBACK_RATE
        } else {
            args.rate
        },
        plan.announcement@ == control_frame_of(announcement(plan.rate, args.buffer)),
{
    let rate = args.rate_or(FALLBACK_RATE);
    Plan { rate, announcement: control_frame(rate, args.buffer) }
}

/// The sample word that four bytes encode, least significant first.
pub open spec fn sample_word_of(bytes: Seq<u8>) -> u32
    recommends
        bytes.len() == 4,
{
    (bytes[0] as nat + 256 * (bytes[1] as nat) + 65536 * (bytes[2] as nat) + 16777216 * (
    bytes[3] as nat)) as u32
}

/// The whole sample words that a run of bytes holds, in order; up to three
/// bytes at the end that make no whole word are left out.
pub open spec fn bytes_words(bytes: Seq<u8>) -> Seq<u32> {
    Seq::new(bytes.len() / 4, |i: int| sample_word_of(bytes.subrange(4 * i, 4 * i + 4)))
}

/// A word is the word that its own bytes encode.
pub proof fn lemma_word_of_its_bytes(word: u32)
    ensures
        sample_word_of(word_bytes(word)) == word,
{
    let w = word as int;
    let a = w / 256;
    let b = a / 256;
    let c = b / 256;
    lemma_fundamental_div_mod(w, 256);
    lemma_fundamental_div_mod(a, 256);
    lemma_fundamental_div_mod(b, 256);
    lemma_div_denominator(w, 256, 256);
    lemma_div_denominator(w, 65536, 256);
    assert(b == w / 65536);
    assert(c == w / 16777216);
    assert(w == w % 256 + 256 * (a % 256) + 65536 * (b % 256) + 16777216 * c);
    assert(0 <= c < 256);
}

/// Four bytes are the bytes of the word that they encode.
pub proof fn lemma_bytes_of_their_word(bytes: Seq<u8>)
    requires
        bytes.len() == 4,
    ensures
        word_bytes(sample_word_of(bytes)) == bytes,
{
    let b0 = bytes[0] as int;
    let b1 = bytes[1] as int;
    let b2 = bytes[2] as int;
    let b3 = bytes[3] as int;
    let v = b0 + 256 * b1 + 65536 * b2 + 16777216 * b3;
    let v1 = b1 + 256 * b2 + 65536 * b3;
    let v2 = b2 + 256 * b3;
    assert(0 <= v <= 0xffff_ffff);
    lemma_fundamental_div_mod_converse(v, 256, v1, b0);
    lemma_fundamental_div_mod_converse(v1, 256, v2, b1);
    lemma_fundamental_div_mod_converse(v2, 256, b3, b2);
    lemma_div_denominator(v, 256, 256);
    lemma_div_denominator(v, 65536, 256);
    assert(v / 256 == v1);
    assert(v / 65536 == v2);
    assert(v / 16777216 == b3);
    let word = sample_word_of(bytes);
    assert(word == v);
    assert(word_byte(word, 0) == bytes[0]);
    assert(word_byte(word, 1) == bytes[1]);
    assert(word_byte(word, 2) == bytes[2]);
    assert(word_byte(word, 3) == bytes[3]);
    assert(word_bytes(word) =~= bytes);
}

/// Bytes that pass through the bridge as words come out as they went in:
/// the bytes of the words of a run are the run, up to its last whole word.
pub proof fn lemma_bytes_roundtrip(bytes: Seq<u8>)
    ensures
        words_bytes(bytes_words(bytes)) == bytes.take(4 * (bytes.len() / 4) as int),
        bytes.len() % 4 == 0 ==> words_bytes(bytes_words(bytes)) == bytes,
{
    let words = bytes_words(bytes);
    let back = words_bytes(words);
    let whole = bytes.take(4 * (bytes.len() / 4) as int);
    assert(back.len() == whole.len());
    assert forall|i: int| 0 <= i < back.len() implies back[i] == whole[i] by {
        let k = i / 4;
        let four = bytes.subrange(4 * k, 4 * k + 4);
        lemma_bytes_of_their_word(four);
        assert(words[k] == sample_word_of(four));
        assert(word_bytes(words[k])[i % 4] == four[i % 4]);
        assert(four[i % 4] == bytes[4 * k + i % 4]);
    }
    assert(back =~= whole);
    if bytes.len() % 4 == 0 {
        assert(whole =~= bytes);
    }
}

/// Reads the sample word that starts at `at`.
pub fn sample_word(bytes: &[u8], at: usize) -> (word: u32)
    requires
        at + 4 <= bytes@.len(),
    ensures
        word == sample_word_of(bytes@.subrange(at as int, at + 4)),
{
    let b0 = bytes[at] as u32;
    let b1 = bytes[at + 1] as u32;
    let b2 = bytes[at + 2] as u32;
    let b3 = bytes[at + 3] as u32;
    b0 + 256 * b1 + 65536 * b2 + 16777216 * b3
}

impl BridgeModel {
    /// Number of words that the producer can enqueue before it is refused.
    pub open spec fn room(self) -> nat {
        if self.is_open() && self.words.len() < self.capacity {
            (self.capacity - self.words.len()) as nat
        } else {
            0
        }
    }

    /// Number of the words on offer that the bridge takes: all of them, or
    /// as many as there is room for.
    pub open spec fn admits(self, offered: nat) -> nat {
        if offered <= self.room() {
            offered
        } else {
            self.room()
        }
    }

    /// The bridge after a run of words has been offered in order: it has
    /// taken the first [`Self::admits`] of them.
    pub open spec fn enqueue_run(self, offered: Seq<u32>) -> BridgeModel {
        if self.admits(offered.len()) == 0 {
            self
        } else {
            BridgeModel {
                words: self.words + offered.take(self.admits(offered.len()) as int),
                capacity: self.capacity,
                state: BridgeState::Streaming,
            }
        }
    }
}

impl Bridge {
    /// Enqueues the sample words of `samples` from byte `from` on, in
    /// order, until the bytes run out or the bridge refuses a word, and
    /// returns the offset of the first byte that was not enqueued. A caller
    /// that gets back less than it offered waits for the consumer and calls
    /// again with that offset.
    pub fn enqueue_samples(&mut self, samples: &[u8], from: usize) -> (next: usize)
        requires
            from <= samples@.len(),
        ensures
            next == from + 4 * old(self)@.admits(bytes_words(samples@.skip(from as int)).len()),
            final(self)@ == old(self)@.enqueue_run(bytes_words(samples@.skip(from as int))),
            old(self)@.wf() ==> final(self)@.wf(),
    {
        let ghost before = self@;
        let ghost offered = bytes_words(samples@.skip(from as int));
        let mut at: usize = from;
        let mut done = false;
        let ghost mut k: nat = 0;
        proof {
            assert(self@.words =~= before.words + offered.take(0));
        }
        while !done
            invariant
                from <= at <= samples@.len(),
                offered == bytes_words(samples@.skip(from as int)),
                at == from + 4 * k,
                k <= before.admits(offered.len()),
                self@.capacity == before.capacity,
                self@.words == before.words + offered.take(k as int),
                self@.state == if k == 0 {
                    before.state
                } else {
                    BridgeState::Streaming
                },
                before.wf() ==> self@.wf(),
                done ==> k == before.admits(offered.len()),
            decreases
                    samples@.len() - at + if done {
                        0int
                    } else {
                        1int
                    },
        {
            if samples.len() - at < 4 {
                done = true;
            } else {
                let word = sample_word(samples, at);
                proof {
                    assert(samples@.subrange(at as int, at + 4) =~= samples@.skip(
                        from as int,
                    ).subrange(4 * (k as int), 4 * (k as int) + 4));
                    assert(word == offered[k as int]);
                }
                match self.enqueue(word) {
                    Enqueue::Queued => {
                        proof {
                            assert(offered.take(k as int + 1) =~= offered.take(k as int).push(word));
                            assert(self@.words =~= before.words + offered.take(k as int + 1));
                            k = k + 1;
                        }
                        at += 4;
                    },
                    _ => {
                        done = true;
                    },
                }
            }
        }
        assert(self@ =~= before.enqueue_run(offered));
        at
    }
}

} // verus!
