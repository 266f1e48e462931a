//! What holds of the decoder and of the log for every input.

use vstd::prelude::*;
use crate::decoder::{byte_value, decoded, state_after, Bus, Symbol};
use crate::event::{EdgeEvent, Line};
use crate::log::Record;

verus! {

/// The number of bytes among the symbols.
pub open spec fn byte_count(symbols: Seq<Symbol>) -> nat
    decreases symbols.len(),
{
    if symbols.len() == 0 {
        0
    } else {
        byte_count(symbols.drop_last()) + if symbols.last() is Byte {
            1nat
        } else {
            0nat
        }
    }
}

/// The number of rises of the clock among the events.
pub open spec fn clock_rises(events: Seq<EdgeEvent>) -> nat
    decreases events.len(),
{
    if events.len() == 0 {
        0
    } else {
        clock_rises(events.drop_last()) + if events.last() == EdgeEvent::SclRise {
            1nat
        } else {
            0nat
        }
    }
}

/// The number of rises of the clock in a log that sample a data bit:
/// all but those that sample an acknowledge bit.
pub open spec fn data_rises(events: Seq<EdgeEvent>) -> nat
    decreases events.len(),
{
    if events.len() == 0 {
        0
    } else {
        let before = state_after(events.drop_last());
        data_rises(events.drop_last()) + if events.last() == EdgeEvent::SclRise
            && !before.byte_ready() {
            1nat
        } else {
            0nat
        }
    }
}

/// The number of data bits in a log that a START has thrown away.
pub open spec fn abandoned_bits(events: Seq<EdgeEvent>) -> nat
    decreases events.len(),
{
    if events.len() == 0 {
        0
    } else {
        let before = state_after(events.drop_last());
        abandoned_bits(events.drop_last()) + if events.last() == EdgeEvent::SdaFall && before.scl {
            before.bits.len()
        } else {
            0nat
        }
    }
}

/// The number of data bits of a log that belong to no byte: those that a
/// START has thrown away, and those of the cycle in progress at the end.
pub open spec fn loose_bits(events: Seq<EdgeEvent>) -> nat {
    abandoned_bits(events) + state_after(events).bits.len()
}

/// The bits sampled in the cycle in progress at the end of `symbols`:
/// those reported since the last START or byte.
pub open spec fn cycle_bits(symbols: Seq<Symbol>) -> Seq<bool>
    decreases symbols.len(),
{
    if symbols.len() == 0 {
        Seq::empty()
    } else {
        match symbols.last() {
            Symbol::Start => Seq::empty(),
            Symbol::Byte { .. } => Seq::empty(),
            Symbol::Stop => cycle_bits(symbols.drop_last()),
            Symbol::Bit(level) => cycle_bits(symbols.drop_last()).push(level),
        }
    }
}

/// The level of `line` once the events have passed: that of the last
/// edge on it, and high where it never moved.
pub open spec fn line_level(events: Seq<EdgeEvent>, line: Line) -> bool
    decreases events.len(),
{
    if events.len() == 0 {
        true
    } else if events.last().on() == line {
        events.last().rising()
    } else {
        line_level(events.drop_last(), line)
    }
}

/// Whether the events leave the data line alone.
pub open spec fn clock_only(events: Seq<EdgeEvent>) -> bool {
    forall|i: int|
        0 <= i < events.len() ==> events[i] == EdgeEvent::SclRise || events[i]
            == EdgeEvent::SclFall
}

proof fn lemma_byte_count_concat(a: Seq<Symbol>, b: Seq<Symbol>)
    ensures
        byte_count(a + b) == byte_count(a) + byte_count(b),
    decreases b.len(),
{
    if b.len() == 0 {
        assert(a + b == a);
    } else {
        assert((a + b).drop_last() == a + b.drop_last());
        lemma_byte_count_concat(a, b.drop_last());
    }
}

proof fn lemma_byte_count_emitted(before: Bus, event: EdgeEvent)
    ensures
        byte_count(before.emitted(event)) == (if event == EdgeEvent::SclRise
            && before.byte_ready() {
            1nat
        } else {
            0nat
        }),
{
    reveal_with_fuel(byte_count, 3);
    let emitted = before.emitted(event);
    if emitted.len() == 2 {
        assert(emitted.drop_last().drop_last().len() == 0);
    }
    if emitted.len() == 1 {
        assert(emitted.drop_last().len() == 0);
    }
}

proof fn lemma_run_concat(start: Bus, a: Seq<EdgeEvent>, b: Seq<EdgeEvent>)
    ensures
        start.run(a + b) == start.run(a).run(b),
        start.trace(a + b) == start.trace(a) + start.run(a).trace(b),
    decreases b.len(),
{
    if b.len() == 0 {
        assert(a + b == a);
        assert(start.trace(a) + Seq::<Symbol>::empty() == start.trace(a));
    } else {
        assert((a + b).drop_last() == a + b.drop_last());
        lemma_run_concat(start, a, b.drop_last());
        let mid = start.run(a).run(b.drop_last());
        assert(start.trace(a) + (start.run(a).trace(b.drop_last()) + mid.emitted(b.last()))
            == (start.trace(a) + start.run(a).trace(b.drop_last())) + mid.emitted(b.last()));
    }
}

proof fn lemma_bits_bounded(start: Bus, events: Seq<EdgeEvent>)
    requires
        start.bits.len() <= 8,
    ensures
        start.run(events).bits.len() <= 8,
    decreases events.len(),
{
    if events.len() > 0 {
        lemma_bits_bounded(start, events.drop_last());
    }
}

/// Whatever was sampled, the bits spell a number that fits in a byte.
pub proof fn law_byte_value_fits(bits: Seq<bool>)
    ensures
        0 <= byte_value(bits) <= 255,
{
}

/// Every event is the edge of its own line to its own level.
pub proof fn law_event_is_its_transition(event: EdgeEvent)
    ensures
        EdgeEvent::of(event.on(), event.rising()) == event,
{
}

/// The decoder knows each line at the level of the last edge on it.
pub proof fn law_levels_follow_edges(events: Seq<EdgeEvent>)
    ensures
        state_after(events).scl == line_level(events, Line::Scl),
        state_after(events).sda == line_level(events, Line::Sda),
    decreases events.len(),
{
    if events.len() > 0 {
        law_levels_follow_edges(events.drop_last());
    }
}

/// Every rise of the clock reports, before anything else, the level
/// that the last edge on the data line has left it at.
pub proof fn law_rise_samples_data_line(events: Seq<EdgeEvent>, at: int)
    requires
        0 <= at < events.len(),
        events[at] == EdgeEvent::SclRise,
    ensures
        state_after(events.take(at)).emitted(events[at]).first() == Symbol::Bit(
            line_level(events.take(at), Line::Sda),
        ),
{
    law_levels_follow_edges(events.take(at));
}

/// Every data bit is accounted for: the rises of the clock that sample a
/// data bit are eight for each byte decoded, and the loose bits besides.
/// So the bytes are the data rises divided by eight, rounded down,
/// exactly when fewer than eight bits are loose.
pub proof fn law_data_bits_accounted(events: Seq<EdgeEvent>)
    ensures
        data_rises(events) == 8 * byte_count(decoded(events)) + loose_bits(events),
        byte_count(decoded(events)) == data_rises(events) / 8 <==> loose_bits(events) < 8,
    decreases events.len(),
{
    if events.len() > 0 {
        let earlier = events.drop_last();
        let before = state_after(earlier);
        law_data_bits_accounted(earlier);
        lemma_bits_bounded(Bus::idle(), earlier);
        lemma_byte_count_concat(decoded(earlier), before.emitted(events.last()));
        lemma_byte_count_emitted(before, events.last());
    }
}

/// The number of bytes decoded is the number of rises of the clock that
/// sample a data bit, divided by eight and rounded down, in every log
/// that leaves fewer than eight bits loose.
pub proof fn law_bytes_are_data_rises_by_eight(events: Seq<EdgeEvent>)
    requires
        loose_bits(events) < 8,
    ensures
        byte_count(decoded(events)) == data_rises(events) / 8,
{
    law_data_bits_accounted(events);
}

/// The bits that the decoder holds are those that it has reported since
/// the last START or byte.
pub proof fn law_bits_are_cycle_bits(events: Seq<EdgeEvent>)
    ensures
        state_after(events).bits == cycle_bits(decoded(events)),
    decreases events.len(),
{
    if events.len() > 0 {
        let earlier = events.drop_last();
        let before = state_after(earlier);
        let emitted = before.emitted(events.last());
        law_bits_are_cycle_bits(earlier);
        let symbols = decoded(events);
        assert(symbols == decoded(earlier) + emitted);
        if emitted.len() == 0 {
            assert(symbols == decoded(earlier));
        } else if emitted.len() == 1 {
            assert(symbols.drop_last() == decoded(earlier));
        } else {
            assert(symbols.last() is Byte);
        }
    }
}

/// Every byte comes straight after the ninth bit of its cycle. The eight
/// bits before that one spell its value, the first being the most
/// significant, and its acknowledge flag is the negation of the ninth.
pub proof fn law_ack_negates_ninth_bit(events: Seq<EdgeEvent>, at: int)
    requires
        0 <= at < decoded(events).len(),
        decoded(events)[at] is Byte,
    ensures
        at >= 1,
        cycle_bits(decoded(events).take(at - 1)).len() == 8,
        decoded(events)[at - 1] is Bit,
        decoded(events)[at]->ack == !decoded(events)[at - 1]->0,
        decoded(events)[at]->value == byte_value(cycle_bits(decoded(events).take(at - 1))),
    decreases events.len(),
{
    let earlier = events.drop_last();
    let before = state_after(earlier);
    let emitted = before.emitted(events.last());
    let symbols = decoded(events);
    assert(symbols == decoded(earlier) + emitted);
    if at < decoded(earlier).len() {
        law_ack_negates_ninth_bit(earlier, at);
        assert(symbols.take(at - 1) == decoded(earlier).take(at - 1));
    } else {
        assert(symbols[at] == emitted[at - decoded(earlier).len()]);
        assert(at == decoded(earlier).len() + 1);
        assert(symbols.take(at - 1) == decoded(earlier));
        law_bits_are_cycle_bits(earlier);
        lemma_bits_bounded(Bus::idle(), earlier);
        law_byte_value_fits(before.bits);
    }
}

proof fn lemma_short_window_has_no_byte(start: Bus, window: Seq<EdgeEvent>)
    requires
        start.bits.len() + clock_rises(window) <= 8,
    ensures
        byte_count(start.trace(window)) == 0,
        start.run(window).bits.len() <= start.bits.len() + clock_rises(window),
    decreases window.len(),
{
    if window.len() > 0 {
        let earlier = window.drop_last();
        lemma_short_window_has_no_byte(start, earlier);
        lemma_byte_count_concat(start.trace(earlier), start.run(earlier).emitted(window.last()));
        lemma_byte_count_emitted(start.run(earlier), window.last());
    }
}

/// A START resets the cycle in progress: the bits sampled before it are
/// gone, and as long as the clock rises at most eight times after it, no
/// byte is decoded, whatever else happens in between.
pub proof fn law_start_resets(before: Seq<EdgeEvent>, window: Seq<EdgeEvent>)
    requires
        state_after(before).scl,
        clock_rises(window) <= 8,
    ensures
        decoded(before.push(EdgeEvent::SdaFall)) == decoded(before).push(Symbol::Start),
        state_after(before.push(EdgeEvent::SdaFall)).bits.len() == 0,
        decoded(before.push(EdgeEvent::SdaFall) + window) == decoded(before).push(Symbol::Start)
            + state_after(before.push(EdgeEvent::SdaFall)).trace(window),
        byte_count(state_after(before.push(EdgeEvent::SdaFall)).trace(window)) == 0,
        byte_count(decoded(before.push(EdgeEvent::SdaFall) + window)) == byte_count(
            decoded(before),
        ),
{
    let started = before.push(EdgeEvent::SdaFall);
    assert(started.drop_last() == before);
    assert(decoded(started) == decoded(before) + seq![Symbol::Start]);
    assert(decoded(before) + seq![Symbol::Start] == decoded(before).push(Symbol::Start));
    lemma_run_concat(Bus::idle(), started, window);
    lemma_short_window_has_no_byte(state_after(started), window);
    lemma_byte_count_concat(decoded(started), state_after(started).trace(window));
    lemma_byte_count_concat(decoded(before), seq![Symbol::Start]);
    lemma_byte_count_emitted(state_after(before), EdgeEvent::SdaFall);
}

/// Decoding depends on the recorded events alone: logs that hold the
/// same events decode to the same symbols and leave the decoder in the
/// same state.
pub proof fn law_replay_is_identical(first: Seq<EdgeEvent>, second: Seq<EdgeEvent>)
    requires
        first.len() == second.len(),
        forall|i: int| 0 <= i < first.len() ==> first[i] == second[i],
    ensures
        decoded(first) == decoded(second),
        state_after(first) == state_after(second),
{
    assert(first =~= second);
}

/// A log in which only the clock moves decodes to sampled high bits and
/// to bytes, and to nothing else: no START and no STOP, every ninth rise
/// completing a byte `0xFF` that is not acknowledged. With at most eight
/// rises it holds no byte.
pub proof fn law_clock_only(events: Seq<EdgeEvent>)
    requires
        clock_only(events),
    ensures
        state_after(events).sda,
        forall|i: int|
            0 <= i < decoded(events).len() ==> decoded(events)[i] == Symbol::Bit(true)
                || decoded(events)[i] == (Symbol::Byte { value: 0xff, ack: false }),
        byte_count(decoded(events)) == clock_rises(events) / 9,
        state_after(events).bits.len() == clock_rises(events) % 9,
        forall|k: int| 0 <= k < state_after(events).bits.len() ==> state_after(events).bits[k],
    decreases events.len(),
{
    if events.len() > 0 {
        let earlier = events.drop_last();
        let before = state_after(earlier);
        assert(clock_only(earlier)) by {
            assert forall|i: int| 0 <= i < earlier.len() implies earlier[i] == EdgeEvent::SclRise
                || earlier[i] == EdgeEvent::SclFall by {
                assert(earlier[i] == events[i]);
            }
        }
        law_clock_only(earlier);
        assert(events.last() == events[events.len() - 1]);
        lemma_byte_count_concat(decoded(earlier), before.emitted(events.last()));
        lemma_byte_count_emitted(before, events.last());
        lemma_bits_bounded(Bus::idle(), earlier);
    }
}

/// A log takes events until it is full, and not one more: of as many
/// events as it has room for, each is recorded under the next index, and
/// the one after them is turned away, counted, and changes nothing of
/// what was recorded.
pub proof fn law_fill_then_overflow(capacity: nat, events: Seq<EdgeEvent>, extra: EdgeEvent)
    requires
        events.len() == capacity,
    ensures
        forall|n: int|
            0 <= n < capacity ==> {
                let partly = #[trigger] Record::empty(capacity).fill(events.take(n));
                &&& !partly.full()
                &&& partly.events.len() == n
                &&& partly.append(events[n]).events == events.take(n + 1)
            },
        Record::empty(capacity).fill(events).events == events,
        Record::empty(capacity).fill(events).dropped == 0,
        Record::empty(capacity).fill(events).full(),
        Record::empty(capacity).fill(events).append(extra).events == events,
        Record::empty(capacity).fill(events).append(extra).dropped == 1,
{
    assert forall|n: int| 0 <= n <= capacity implies {
        let partly = #[trigger] Record::empty(capacity).fill(events.take(n));
        &&& partly.events == events.take(n)
        &&& partly.dropped == 0
        &&& partly.capacity == capacity
    } by {
        lemma_fill_within_capacity(capacity, events.take(n));
    }
    assert(events.take(capacity as int) == events);
    assert forall|n: int| 0 <= n < capacity implies {
        let partly = #[trigger] Record::empty(capacity).fill(events.take(n));
        &&& !partly.full()
        &&& partly.events.len() == n
        &&& partly.append(events[n]).events == events.take(n + 1)
    } by {
        let partly = Record::empty(capacity).fill(events.take(n));
        assert(partly.events == events.take(n));
        assert(events.take(n).push(events[n]) == events.take(n + 1));
    }
}

proof fn lemma_fill_within_capacity(capacity: nat, events: Seq<EdgeEvent>)
    requires
        events.len() <= capacity,
    ensures
        Record::empty(capacity).fill(events).events == events,
        Record::empty(capacity).fill(events).dropped == 0,
        Record::empty(capacity).fill(events).capacity == capacity,
    decreases events.len(),
{
    if events.len() > 0 {
        lemma_fill_within_capacity(capacity, events.drop_last());
        assert(events.drop_last().push(events.last()) == events);
    }
}

} // verus!
