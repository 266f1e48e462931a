//! The text of a transcript: one line for each event and for each symbol.
//!
//! An event is written by its name. A sampled bit is `0` or `1`, a START
//! is `S`, a STOP is `P`, and a byte is its two upper-case hexadecimal
//! digits followed by its acknowledge flag, as in `A1, ACK true`.

use vstd::prelude::*;
use vstd::string::StringExecFns;
use crate::decoder::{state_after, Bus, DecoderState, Symbol};
use crate::event::EdgeEvent;

verus! {

/// The name of an event.
pub open spec fn event_text(event: EdgeEvent) -> Seq<char> {
    match event {
        EdgeEvent::SclRise => "SclRise"@,
        EdgeEvent::SclFall => "SclFall"@,
        EdgeEvent::SdaRise => "SdaRise"@,
        EdgeEvent::SdaFall => "SdaFall"@,
    }
}

/// The upper-case hexadecimal digit for a number below sixteen.
pub open spec fn hex_digit(n: int) -> char {
    if n == 0 {
        '0'
    } else if n == 1 {
        '1'
    } else if n == 2 {
        '2'
    } else if n == 3 {
        '3'
    } else if n == 4 {
        '4'
    } else if n == 5 {
        '5'
    } else if n == 6 {
        '6'
    } else if n == 7 {
        '7'
    } else if n == 8 {
        '8'
    } else if n == 9 {
        '9'
    } else if n == 10 {
        'A'
    } else if n == 11 {
        'B'
    } else if n == 12 {
        'C'
    } else if n == 13 {
        'D'
    } else if n == 14 {
        'E'
    } else {
        'F'
    }
}

/// A byte as two hexadecimal digits, the high one first.
pub open spec fn hex_text(value: u8) -> Seq<char> {
    seq![hex_digit(value as int / 16), hex_digit(value as int % 16)]
}

/// A truth value as a word.
pub open spec fn flag_text(flag: bool) -> Seq<char> {
    if flag {
        "true"@
    } else {
        "false"@
    }
}

/// The line for one symbol.
pub open spec fn symbol_text(symbol: Symbol) -> Seq<char> {
    match symbol {
        Symbol::Start => "S"@,
        Symbol::Stop => "P"@,
        Symbol::Bit(level) => if level {
            "1"@
        } else {
            "0"@
        },
        Symbol::Byte { value, ack } => hex_text(value) + ", ACK "@ + flag_text(ack),
    }
}

/// The lines for a run of symbols.
pub open spec fn symbol_texts(symbols: Seq<Symbol>) -> Seq<Seq<char>> {
    symbols.map_values(|symbol: Symbol| symbol_text(symbol))
}

/// The lines for one event met in the state `before`: the event's name,
/// then the symbols that it gives rise to.
pub open spec fn event_lines(before: Bus, event: EdgeEvent) -> Seq<Seq<char>> {
    seq![event_text(event)] + symbol_texts(before.emitted(event))
}

/// The transcript of a log: the lines of each event in turn.
pub open spec fn transcript_text(events: Seq<EdgeEvent>) -> Seq<Seq<char>>
    decreases events.len(),
{
    if events.len() == 0 {
        Seq::empty()
    } else {
        transcript_text(events.drop_last()) + event_lines(
            state_after(events.drop_last()),
            events.last(),
        )
    }
}

/// What a list of lines says.
pub open spec fn line_texts(lines: Seq<String>) -> Seq<Seq<char>> {
    lines.map_values(|line: String| line@)
}

/// The name of an event.
pub fn event_name(event: EdgeEvent) -> (name: String)
    ensures
        name@ == event_text(event),
{
    match event {
        EdgeEvent::SclRise => String::from_str("SclRise"),
        EdgeEvent::SclFall => String::from_str("SclFall"),
        EdgeEvent::SdaRise => String::from_str("SdaRise"),
        EdgeEvent::SdaFall => String::from_str("SdaFall"),
    }
}

fn hex_digit_str(n: u8) -> (digit: &'static str)
    requires
        n < 16,
    ensures
        digit@ == seq![hex_digit(n as int)],
{
    proof {
        reveal_strlit("0");
        reveal_strlit("1");
        reveal_strlit("2");
        reveal_strlit("3");
        reveal_strlit("4");
        reveal_strlit("5");
        reveal_strlit("6");
        reveal_strlit("7");
        reveal_strlit("8");
        reveal_strlit("9");
        reveal_strlit("A");
        reveal_strlit("B");
        reveal_strlit("C");
        reveal_strlit("D");
        reveal_strlit("E");
        reveal_strlit("F");
    }
    let digit = match n {
        0 => "0",
        1 => "1",
        2 => "2",
        3 => "3",
        4 => "4",
        5 => "5",
        6 => "6",
        7 => "7",
        8 => "8",
        9 => "9",
        10 => "A",
        11 => "B",
        12 => "C",
        13 => "D",
        14 => "E",
        _ => "F",
    };
    assert(digit@ =~= seq![hex_digit(n as int)]);
    digit
}

/// A byte as two upper-case hexadecimal digits.
pub fn hex_byte(value: u8) -> (text: String)
    ensures
        text@ == hex_text(value),
{
    let mut text = String::from_str(hex_digit_str(value / 16));
    text.append(hex_digit_str(value % 16));
    assert(text@ =~= hex_text(value));
    text
}

/// The line for one symbol.
pub fn symbol_line(symbol: Symbol) -> (line: String)
    ensures
        line@ == symbol_text(symbol),
{
    match symbol {
        Symbol::Start => String::from_str("S"),
        Symbol::Stop => String::from_str("P"),
        Symbol::Bit(level) => if level {
            String::from_str("1")
        } else {
            String::from_str("0")
        },
        Symbol::Byte { value, ack } => {
            let mut line = hex_byte(value);
            line.append(", ACK ");
            line.append(if ack { "true" } else { "false" });
            line
        },
    }
}

/// The lines for a run of symbols, one for each.
pub fn symbol_lines(symbols: &[Symbol]) -> (lines: Vec<String>)
    ensures
        line_texts(lines@) == symbol_texts(symbols@),
{
    let mut lines: Vec<String> = Vec::new();
    for i in 0..symbols.len()
        invariant
            line_texts(lines@) == symbol_texts(symbols@.take(i as int)),
    {
        let line = symbol_line(symbols[i]);
        let ghost before = lines@;
        lines.push(line);
        assert(line_texts(lines@) =~= line_texts(before).push(line@));
        assert(symbol_texts(symbols@.take(i + 1)) =~= symbol_texts(symbols@.take(i as int)).push(
            symbol_text(symbols@[i as int]),
        ));
    }
    assert(symbols@.take(symbols.len() as int) == symbols@);
    lines
}

/// The transcript of a log: for each event its name, then a line for
/// each symbol that the event gives rise to.
pub fn transcript(events: &[EdgeEvent]) -> (lines: Vec<String>)
    ensures
        line_texts(lines@) == transcript_text(events@),
{
    let mut state = DecoderState::new();
    let mut lines: Vec<String> = Vec::new();
    for i in 0..events.len()
        invariant
            state@ == state_after(events@.take(i as int)),
            line_texts(lines@) == transcript_text(events@.take(i as int)),
    {
        assert(events@.take(i + 1).drop_last() == events@.take(i as int));
        let ghost before = lines@;
        let name = event_name(events[i]);
        lines.push(name);
        let symbols = state.step(events[i]);
        let mut emitted = symbol_lines(symbols.as_slice());
        let ghost added = emitted@;
        lines.append(&mut emitted);
        assert(line_texts(lines@) =~= line_texts(before) + (seq![name@] + line_texts(added)));
    }
    assert(events@.take(events.len() as int) == events@);
    lines
}

} // verus!
