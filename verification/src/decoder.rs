//! The protocol decoder: a state machine over edge events.
//!
//! The decoder follows the level of both lines. A falling data line while
//! the clock is high is a START, a rising one a STOP. Every rise of the
//! clock samples the data line: the first eight samples of a cycle are the
//! bits of a byte, most significant first, and the ninth is its
//! acknowledge bit, after which the next cycle begins. A START abandons
//! the cycle in progress.

use vstd::prelude::*;
use crate::event::EdgeEvent;
use crate::log::EdgeLog;

verus! {

/// What the decoder reports while it replays a log.
#[derive(Clone, Copy, Debug, PartialEq, Eq, Structural)]
pub enum Symbol {
    /// The data line fell while the clock was high.
    Start,
    /// The data line rose while the clock was high.
    Stop,
    /// The level of the data line, sampled on a rise of the clock.
    Bit(bool),
    /// Eight data bits and the acknowledge bit that followed them.
    /// `ack` is `true` when the data line was low on the ninth rise.
    Byte { value: u8, ack: bool },
}

/// The decoder's state as a mathematical value.
pub struct Bus {
    /// The clock is high.
    pub scl: bool,
    /// The data line is high.
    pub sda: bool,
    /// The data bits sampled so far in the current cycle, oldest first.
    pub bits: Seq<bool>,
}

/// The weight of the `k`-th sampled bit of a cycle in its byte: the first
/// bit is the most significant one.
pub open spec fn bit_weight(k: int) -> int {
    if k == 0 {
        128
    } else if k == 1 {
        64
    } else if k == 2 {
        32
    } else if k == 3 {
        16
    } else if k == 4 {
        8
    } else if k == 5 {
        4
    } else if k == 6 {
        2
    } else if k == 7 {
        1
    } else {
        0
    }
}

/// What the `k`-th sampled bit contributes to the byte.
pub open spec fn bit_share(bits: Seq<bool>, k: int) -> int {
    if 0 <= k < bits.len() && bits[k] {
        bit_weight(k)
    } else {
        0
    }
}

/// The number that the sampled bits spell, each at its own position;
/// positions not yet sampled count as zero.
pub open spec fn byte_value(bits: Seq<bool>) -> int {
    bit_share(bits, 0) + bit_share(bits, 1) + bit_share(bits, 2) + bit_share(bits, 3)
        + bit_share(bits, 4) + bit_share(bits, 5) + bit_share(bits, 6) + bit_share(bits, 7)
}

impl Bus {
    /// Both lines idle high, no bit sampled.
    pub open spec fn idle() -> Bus {
        Bus { scl: true, sda: true, bits: Seq::empty() }
    }

    /// A full set of data bits is waiting for its acknowledge bit.
    pub open spec fn byte_ready(self) -> bool {
        self.bits.len() >= 8
    }

    /// The state after one more event.
    pub open spec fn next(self, event: EdgeEvent) -> Bus {
        match event {
            EdgeEvent::SclRise => Bus {
                scl: true,
                sda: self.sda,
                bits: if self.byte_ready() {
                    Seq::empty()
                } else {
                    self.bits.push(self.sda)
                },
            },
            EdgeEvent::SclFall => Bus { scl: false, sda: self.sda, bits: self.bits },
            EdgeEvent::SdaRise => Bus { scl: self.scl, sda: true, bits: self.bits },
            EdgeEvent::SdaFall => Bus {
                scl: self.scl,
                sda: false,
                bits: if self.scl {
                    Seq::empty()
                } else {
                    self.bits
                },
            },
        }
    }

    /// The symbols that one event gives rise to, in order.
    pub open spec fn emitted(self, event: EdgeEvent) -> Seq<Symbol> {
        match event {
            EdgeEvent::SclRise => if self.byte_ready() {
                seq![
                    Symbol::Bit(self.sda),
                    (Symbol::Byte { value: byte_value(self.bits) as u8, ack: !self.sda }),
                ]
            } else {
                seq![Symbol::Bit(self.sda)]
            },
            EdgeEvent::SclFall => Seq::empty(),
            EdgeEvent::SdaRise => if self.scl {
                seq![Symbol::Stop]
            } else {
                Seq::empty()
            },
            EdgeEvent::SdaFall => if self.scl {
                seq![Symbol::Start]
            } else {
                Seq::empty()
            },
        }
    }

    /// The state after a whole sequence of events.
    pub open spec fn run(self, events: Seq<EdgeEvent>) -> Bus
        decreases events.len(),
    {
        if events.len() == 0 {
            self
        } else {
            self.run(events.drop_last()).next(events.last())
        }
    }

    /// The symbols that a whole sequence of events gives rise to.
    pub open spec fn trace(self, events: Seq<EdgeEvent>) -> Seq<Symbol>
        decreases events.len(),
    {
        if events.len() == 0 {
            Seq::empty()
        } else {
            self.trace(events.drop_last()) + self.run(events.drop_last()).emitted(events.last())
        }
    }
}

/// The decoder's state once it has replayed `events` from the start.
pub open spec fn state_after(events: Seq<EdgeEvent>) -> Bus {
    Bus::idle().run(events)
}

/// The symbols that a log decodes to.
pub open spec fn decoded(events: Seq<EdgeEvent>) -> Seq<Symbol> {
    Bus::idle().trace(events)
}

/// The `k`-th sampled bit as the accumulator holds it.
spec fn stored_bit(acc: u8, k: u8) -> bool {
    (acc >> ((7 - k) as u8)) & 1 == 1
}

/// The running state of a decoder.
#[derive(Clone, Copy, Debug, PartialEq, Eq, Structural)]
pub struct DecoderState {
    scl: bool,
    sda: bool,
    acc: u8,
    count: u8,
}

impl View for DecoderState {
    type V = Bus;

    closed spec fn view(&self) -> Bus {
        Bus {
            scl: self.scl,
            sda: self.sda,
            bits: Seq::new(self.count as nat, |k: int| stored_bit(self.acc, k as u8)),
        }
    }
}

proof fn lemma_acc_value(acc: u8, count: u8)
    requires
        count <= 8,
        acc & (0xffu8 >> count) == 0,
    ensures
        acc == byte_value(Seq::new(count as nat, |k: int| stored_bit(acc, k as u8))),
{
    let bits = Seq::new(count as nat, |k: int| stored_bit(acc, k as u8));
    let t0: u8 = if 0 < count && stored_bit(acc, 0) { 128 } else { 0 };
    let t1: u8 = if 1 < count && stored_bit(acc, 1) { 64 } else { 0 };
    let t2: u8 = if 2 < count && stored_bit(acc, 2) { 32 } else { 0 };
    let t3: u8 = if 3 < count && stored_bit(acc, 3) { 16 } else { 0 };
    let t4: u8 = if 4 < count && stored_bit(acc, 4) { 8 } else { 0 };
    let t5: u8 = if 5 < count && stored_bit(acc, 5) { 4 } else { 0 };
    let t6: u8 = if 6 < count && stored_bit(acc, 6) { 2 } else { 0 };
    let t7: u8 = if 7 < count && stored_bit(acc, 7) { 1 } else { 0 };
    assert(t0 == bit_share(bits, 0));
    assert(t1 == bit_share(bits, 1));
    assert(t2 == bit_share(bits, 2));
    assert(t3 == bit_share(bits, 3));
    assert(t4 == bit_share(bits, 4));
    assert(t5 == bit_share(bits, 5));
    assert(t6 == bit_share(bits, 6));
    assert(t7 == bit_share(bits, 7));
    assert(acc == t0 + t1 + t2 + t3 + t4 + t5 + t6 + t7) by (bit_vector)
        requires
            count <= 8,
            acc & (0xffu8 >> count) == 0,
            t0 == (if 0 < count && (acc >> 7u8) & 1 == 1 { 128u8 } else { 0u8 }),
            t1 == (if 1 < count && (acc >> 6u8) & 1 == 1 { 64u8 } else { 0u8 }),
            t2 == (if 2 < count && (acc >> 5u8) & 1 == 1 { 32u8 } else { 0u8 }),
            t3 == (if 3 < count && (acc >> 4u8) & 1 == 1 { 16u8 } else { 0u8 }),
            t4 == (if 4 < count && (acc >> 3u8) & 1 == 1 { 8u8 } else { 0u8 }),
            t5 == (if 5 < count && (acc >> 2u8) & 1 == 1 { 4u8 } else { 0u8 }),
            t6 == (if 6 < count && (acc >> 1u8) & 1 == 1 { 2u8 } else { 0u8 }),
            t7 == (if 7 < count && (acc >> 0u8) & 1 == 1 { 1u8 } else { 0u8 }),
    ;
}

/// The accumulator with one more sampled level stored behind `count` bits.
spec fn shifted_in(acc: u8, count: u8, level: bool) -> u8 {
    if level {
        acc | (1u8 << ((7 - count) as u8))
    } else {
        acc
    }
}

proof fn lemma_shift_in(acc: u8, count: u8, level: bool, grown: u8)
    requires
        count < 8,
        acc & (0xffu8 >> count) == 0,
        grown == shifted_in(acc, count, level),
    ensures
        grown & (0xffu8 >> ((count + 1) as u8)) == 0,
        stored_bit(grown, count) == level,
        forall|k: u8| k < count ==> stored_bit(grown, k) == stored_bit(acc, k),
{
    assert(grown & (0xffu8 >> ((count + 1) as u8)) == 0) by (bit_vector)
        requires
            count < 8,
            acc & (0xffu8 >> count) == 0,
            grown == (if level { acc | (1u8 << ((7 - count) as u8)) } else { acc }),
    ;
    assert(((grown >> ((7 - count) as u8)) & 1 == 1) == level) by (bit_vector)
        requires
            count < 8,
            acc & (0xffu8 >> count) == 0,
            grown == (if level { acc | (1u8 << ((7 - count) as u8)) } else { acc }),
    ;
    assert forall|k: u8| k < count implies stored_bit(grown, k) == stored_bit(acc, k) by {
        assert(((grown >> ((7 - k) as u8)) & 1 == 1) == ((acc >> ((7 - k) as u8)) & 1 == 1))
            by (bit_vector)
            requires
                k < count,
                count < 8,
                grown == (if level { acc | (1u8 << ((7 - count) as u8)) } else { acc }),
        ;
    }
}

proof fn lemma_nothing_stored()
    ensures
        0u8 & (0xffu8 >> 0u8) == 0,
{
    assert(0u8 & (0xffu8 >> 0u8) == 0) by (bit_vector);
}

impl DecoderState {
    #[verifier::type_invariant]
    spec fn well_formed(self) -> bool {
        &&& self.count <= 8
        &&& self.acc & (0xffu8 >> self.count) == 0
    }

    /// A decoder at the start of a log: both lines high, nothing sampled.
    pub fn new() -> (state: DecoderState)
        ensures
            state@ == Bus::idle(),
    {
        proof {
            lemma_nothing_stored();
        }
        let state = DecoderState { scl: true, sda: true, acc: 0, count: 0 };
        assert(state@.bits =~= Seq::empty());
        state
    }

    /// Whether the clock is high.
    pub fn scl(&self) -> (high: bool)
        ensures
            high == self@.scl,
    {
        self.scl
    }

    /// Whether the data line is high.
    pub fn sda(&self) -> (high: bool)
        ensures
            high == self@.sda,
    {
        self.sda
    }

    /// The number of data bits sampled in the current cycle: eight at
    /// most.
    pub fn bits_received(&self) -> (count: u8)
        ensures
            count == self@.bits.len(),
            count <= 8,
    {
        proof {
            use_type_invariant(self);
        }
        self.count
    }

    /// The bit accumulator: the bits sampled in the current cycle, each
    /// at its position in the byte, the first in the highest.
    pub fn accumulator(&self) -> (value: u8)
        ensures
            value == byte_value(self@.bits),
    {
        proof {
            use_type_invariant(self);
            lemma_acc_value(self.acc, self.count);
        }
        self.acc
    }

    /// Forgets the bits sampled in the current cycle.
    fn clear_bits(&mut self)
        ensures
            final(self)@.scl == old(self)@.scl,
            final(self)@.sda == old(self)@.sda,
            final(self)@.bits == Seq::<bool>::empty(),
    {
        proof {
            lemma_nothing_stored();
        }
        *self = DecoderState { scl: self.scl, sda: self.sda, acc: 0, count: 0 };
    }

    /// Replays one event: the state moves on, and the symbols that the
    /// event gives rise to are returned in order.
    pub fn step(&mut self, event: EdgeEvent) -> (symbols: Vec<Symbol>)
        ensures
            final(self)@ == old(self)@.next(event),
            symbols@ == old(self)@.emitted(event),
    {
        proof {
            use_type_invariant(&*self);
        }
        let mut symbols: Vec<Symbol> = Vec::new();
        match event {
            EdgeEvent::SclRise => {
                self.scl = true;
                symbols.push(Symbol::Bit(self.sda));
                if self.count == 8 {
                    proof {
                        lemma_acc_value(self.acc, self.count);
                    }
                    symbols.push(Symbol::Byte { value: self.acc, ack: !self.sda });
                    self.clear_bits();
                } else {
                    let acc = if self.sda {
                        self.acc | (1u8 << (7 - self.count))
                    } else {
                        self.acc
                    };
                    proof {
                        lemma_shift_in(self.acc, self.count, self.sda, acc);
                    }
                    *self = DecoderState { scl: true, sda: self.sda, acc, count: self.count + 1 };
                    assert(self@.bits =~= old(self)@.bits.push(old(self).sda));
                }
            },
            EdgeEvent::SclFall => {
                self.scl = false;
            },
            EdgeEvent::SdaRise => {
                self.sda = true;
                if self.scl {
                    symbols.push(Symbol::Stop);
                }
            },
            EdgeEvent::SdaFall => {
                self.sda = false;
                if self.scl {
                    symbols.push(Symbol::Start);
                    self.clear_bits();
                }
            },
        }
        symbols
    }
}

/// Decodes a sequence of events from the start: the symbols, in the
/// order of the events that gave rise to them.
pub fn decode_events(events: &[EdgeEvent]) -> (symbols: Vec<Symbol>)
    ensures
        symbols@ == decoded(events@),
{
    let mut state = DecoderState::new();
    let mut symbols: Vec<Symbol> = Vec::new();
    for i in 0..events.len()
        invariant
            state@ == state_after(events@.take(i as int)),
            symbols@ == decoded(events@.take(i as int)),
    {
        assert(events@.take(i + 1).drop_last() == events@.take(i as int));
        let mut emitted = state.step(events[i]);
        symbols.append(&mut emitted);
    }
    assert(events@.take(events.len() as int) == events@);
    symbols
}

/// A single pass over a sequence of events that hands out the symbols of
/// one event at a time. It goes forward only; to decode again, start a
/// new pass.
pub struct Replay<'a> {
    events: &'a [EdgeEvent],
    position: usize,
    state: DecoderState,
}

impl<'a> Replay<'a> {
    #[verifier::type_invariant]
    spec fn well_formed(self) -> bool {
        &&& self.position <= self.events@.len()
        &&& self.state@ == state_after(self.events@.take(self.position as int))
    }

    /// The events that the pass goes over.
    pub closed spec fn events(self) -> Seq<EdgeEvent> {
        self.events@
    }

    /// The number of events that the pass has behind it.
    pub closed spec fn done(self) -> nat {
        self.position as nat
    }

    /// Whether an event is left to replay.
    pub open spec fn pending(self) -> bool {
        self.done() < self.events().len()
    }

    /// The symbols that the next event gives rise to.
    pub open spec fn upcoming(self) -> Seq<Symbol> {
        state_after(self.events().take(self.done() as int)).emitted(
            self.events()[self.done() as int],
        )
    }

    /// All symbols that the pass has handed out: what the events behind
    /// it decode to.
    pub open spec fn handed_out(self) -> Seq<Symbol> {
        decoded(self.events().take(self.done() as int))
    }

    /// A pass at the start of `events`.
    pub fn new(events: &'a [EdgeEvent]) -> (replay: Replay<'a>)
        ensures
            replay.events() == events@,
            replay.done() == 0,
    {
        let state = DecoderState::new();
        assert(events@.take(0) == Seq::<EdgeEvent>::empty());
        Replay { events, position: 0, state }
    }

    /// The number of events that the pass has behind it.
    pub fn position(&self) -> (position: usize)
        ensures
            position == self.done(),
            position <= self.events().len(),
    {
        proof {
            use_type_invariant(self);
        }
        self.position
    }

    /// Replays the next event and returns the symbols that it gives rise
    /// to, or `None` once every event has been replayed.
    pub fn advance(&mut self) -> (symbols: Option<Vec<Symbol>>)
        ensures
            final(self).events() == old(self).events(),
            match symbols {
                Some(emitted) => {
                    &&& old(self).pending()
                    &&& emitted@ == old(self).upcoming()
                    &&& final(self).done() == old(self).done() + 1
                    &&& final(self).handed_out() == old(self).handed_out() + emitted@
                },
                None => !old(self).pending() && final(self).done() == old(self).done(),
            },
    {
        proof {
            use_type_invariant(&*self);
        }
        if self.position < self.events.len() {
            let mut state = self.state;
            let symbols = state.step(self.events[self.position]);
            assert(self.events@.take(self.position + 1).drop_last() == self.events@.take(
                self.position as int,
            ));
            *self = Replay { events: self.events, position: self.position + 1, state };
            Some(symbols)
        } else {
            None
        }
    }
}

/// Decodes a finished log. The log is only read.
pub fn decode(log: &EdgeLog) -> (symbols: Vec<Symbol>)
    ensures
        symbols@ == decoded(log@.events),
{
    decode_events(log.as_slice())
}

} // verus!
