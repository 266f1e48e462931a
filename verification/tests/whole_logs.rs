use i2c_sniffer::decoder::{decode_events, DecoderState, Symbol};
use i2c_sniffer::event::EdgeEvent;
use i2c_sniffer::log::EdgeLog;

fn count_bytes(symbols: &[Symbol]) -> usize {
    symbols.iter().filter(|symbol| matches!(symbol, Symbol::Byte { .. })).count()
}

/// The rises of the clock that sample a data bit, and the bits that end
/// up in no byte, counted by replaying the events.
fn count_data_rises_and_loose_bits(events: &[EdgeEvent]) -> (usize, usize) {
    let mut state = DecoderState::new();
    let mut data_rises = 0;
    let mut abandoned = 0;
    for event in events {
        if *event == EdgeEvent::SclRise && state.bits_received() < 8 {
            data_rises += 1;
        }
        if *event == EdgeEvent::SdaFall && state.scl() {
            abandoned += state.bits_received() as usize;
        }
        state.step(*event);
    }
    (data_rises, abandoned + state.bits_received() as usize)
}

/// A fixed pseudo-random walk over the four events.
fn scrambled(length: usize, seed: u32) -> Vec<EdgeEvent> {
    let mut word = seed;
    let mut events = Vec::new();
    for _ in 0..length {
        word = word.wrapping_mul(1664525).wrapping_add(1013904223);
        events.push(match (word >> 24) % 8 {
            0 => EdgeEvent::SdaRise,
            1 => EdgeEvent::SdaFall,
            2 | 3 | 4 => EdgeEvent::SclFall,
            _ => EdgeEvent::SclRise,
        });
    }
    events
}

#[test]
fn start_byte_and_acknowledge() {
    // START, then the clock samples 1,0,1,0,0,0,0,1 and, on its ninth
    // rise, a low data line.
    let events = [
        EdgeEvent::SdaFall,
        EdgeEvent::SclFall,
        EdgeEvent::SdaRise,
        EdgeEvent::SclRise,
        EdgeEvent::SclFall,
        EdgeEvent::SdaFall,
        EdgeEvent::SclRise,
        EdgeEvent::SclFall,
        EdgeEvent::SdaRise,
        EdgeEvent::SclRise,
        EdgeEvent::SclFall,
        EdgeEvent::SdaFall,
        EdgeEvent::SclRise,
        EdgeEvent::SclFall,
        EdgeEvent::SclRise,
        EdgeEvent::SclFall,
        EdgeEvent::SclRise,
        EdgeEvent::SclFall,
        EdgeEvent::SclRise,
        EdgeEvent::SclFall,
        EdgeEvent::SdaRise,
        EdgeEvent::SclRise,
        EdgeEvent::SclFall,
        EdgeEvent::SdaFall,
        EdgeEvent::SclRise,
    ];
    let symbols = decode_events(&events);
    assert_eq!(symbols[0], Symbol::Start);
    assert_eq!(symbols[symbols.len() - 1], Symbol::Byte { value: 0xA1, ack: true });
    assert_eq!(count_bytes(&symbols), 1);
    let conditions: Vec<Symbol> = symbols
        .iter()
        .copied()
        .filter(|symbol| !matches!(symbol, Symbol::Bit(_)))
        .collect();
    assert_eq!(conditions, vec![Symbol::Start, Symbol::Byte { value: 0xA1, ack: true }]);
}

#[test]
fn clock_alone_emits_no_byte_start_or_stop() {
    let mut events = Vec::new();
    for _ in 0..8 {
        events.push(EdgeEvent::SclRise);
        events.push(EdgeEvent::SclFall);
    }
    let symbols = decode_events(&events);
    assert_eq!(symbols, vec![Symbol::Bit(true); 8]);
}

#[test]
fn clock_alone_never_emits_start_or_stop() {
    let mut events = Vec::new();
    for _ in 0..40 {
        events.push(EdgeEvent::SclRise);
        events.push(EdgeEvent::SclFall);
    }
    let symbols = decode_events(&events);
    assert!(!symbols.contains(&Symbol::Start));
    assert!(!symbols.contains(&Symbol::Stop));
    assert_eq!(count_bytes(&symbols), 40 / 9);
    for symbol in &symbols {
        assert!(
            *symbol == Symbol::Bit(true) || *symbol == Symbol::Byte { value: 0xFF, ack: false }
        );
    }
}

#[test]
fn ninth_clock_pulse_alone_completes_a_byte() {
    let mut events = Vec::new();
    for _ in 0..9 {
        events.push(EdgeEvent::SclRise);
        events.push(EdgeEvent::SclFall);
    }
    let symbols = decode_events(&events);
    assert_eq!(count_bytes(&symbols), 1);
    assert_eq!(symbols[9], Symbol::Byte { value: 0xFF, ack: false });
}

#[test]
fn bytes_are_data_rises_by_eight() {
    // Two whole cycles and three bits more: 19 data rises, 2 bytes.
    let mut events = vec![EdgeEvent::SdaFall];
    for _ in 0..21 {
        events.push(EdgeEvent::SclFall);
        events.push(EdgeEvent::SclRise);
    }
    let symbols = decode_events(&events);
    let (data_rises, loose) = count_data_rises_and_loose_bits(&events);
    assert_eq!(data_rises, 19);
    assert_eq!(loose, 3);
    assert_eq!(count_bytes(&symbols), 2);
    assert_eq!(count_bytes(&symbols), data_rises / 8);
}

#[test]
fn data_bits_are_accounted_for_in_scrambled_logs() {
    for seed in 0..200u32 {
        let events = scrambled(120, seed);
        let symbols = decode_events(&events);
        let (data_rises, loose) = count_data_rises_and_loose_bits(&events);
        assert_eq!(data_rises, 8 * count_bytes(&symbols) + loose);
        assert_eq!(count_bytes(&symbols) == data_rises / 8, loose < 8);
    }
}

#[test]
fn eight_bits_without_a_ninth_rise_are_no_byte() {
    let events = vec![EdgeEvent::SclRise; 8];
    let symbols = decode_events(&events);
    let (data_rises, loose) = count_data_rises_and_loose_bits(&events);
    assert_eq!(count_bytes(&symbols), 0);
    assert_eq!(data_rises, 8);
    assert_eq!(loose, 8);
}

#[test]
fn acknowledge_negates_the_ninth_bit() {
    for seed in 0..200u32 {
        let symbols = decode_events(&scrambled(150, seed));
        let mut cycle: Vec<bool> = Vec::new();
        for (at, symbol) in symbols.iter().enumerate() {
            match symbol {
                Symbol::Start => cycle.clear(),
                Symbol::Stop => {}
                Symbol::Bit(level) => cycle.push(*level),
                Symbol::Byte { value, ack } => {
                    assert_eq!(cycle.len(), 9);
                    assert_eq!(symbols[at - 1], Symbol::Bit(!*ack));
                    let mut spelled = 0u8;
                    for level in &cycle[..8] {
                        spelled = (spelled << 1) | (*level as u8);
                    }
                    assert_eq!(*value, spelled);
                    cycle.clear();
                }
            }
        }
    }
}

#[test]
fn start_then_seven_rises_then_stop_emits_no_byte() {
    let mut events = vec![EdgeEvent::SdaFall];
    for _ in 0..7 {
        events.push(EdgeEvent::SclFall);
        events.push(EdgeEvent::SclRise);
    }
    events.push(EdgeEvent::SdaRise);
    let symbols = decode_events(&events);
    assert_eq!(count_bytes(&symbols), 0);
    assert_eq!(symbols[0], Symbol::Start);
    assert_eq!(symbols[symbols.len() - 1], Symbol::Stop);
    assert_eq!(symbols.len(), 9);
}

#[test]
fn start_in_the_middle_of_a_byte_resets_the_cycle() {
    // Six bits, a START, and then seven more rises: thirteen rises in
    // all, and still no byte.
    let mut events = Vec::new();
    for _ in 0..6 {
        events.push(EdgeEvent::SclRise);
        events.push(EdgeEvent::SclFall);
    }
    events.push(EdgeEvent::SclRise);
    events.push(EdgeEvent::SdaFall);
    for _ in 0..7 {
        events.push(EdgeEvent::SclFall);
        events.push(EdgeEvent::SclRise);
    }
    events.push(EdgeEvent::SdaRise);
    let symbols = decode_events(&events);
    assert_eq!(count_bytes(&symbols), 0);
    assert!(symbols.contains(&Symbol::Start));

    let mut state = DecoderState::new();
    for event in &events[..13] {
        state.step(*event);
    }
    assert_eq!(state.bits_received(), 7);
    assert_eq!(state.step(EdgeEvent::SdaFall), vec![Symbol::Start]);
    assert_eq!(state.bits_received(), 0);
    assert_eq!(state.accumulator(), 0);
}

#[test]
fn filling_to_capacity_succeeds_and_one_more_overflows() {
    for capacity in [1usize, 2, 7, 64] {
        let events = scrambled(capacity, capacity as u32);
        let mut log = EdgeLog::with_capacity(capacity);
        for (index, event) in events.iter().enumerate() {
            assert_eq!(log.record(*event), Ok(index));
        }
        assert_eq!(log.as_slice(), events.as_slice());
        let overflow = log.record(EdgeEvent::SclRise);
        assert!(overflow.is_err());
        assert_eq!(overflow.unwrap_err().capacity, capacity);
        assert_eq!(log.length(), capacity);
        assert_eq!(log.as_slice(), events.as_slice());
        assert_eq!(log.dropped(), 1);
    }
}

#[test]
fn replaying_a_log_gives_the_same_output() {
    for seed in 0..50u32 {
        let events = scrambled(200, seed);
        let first = decode_events(&events);
        let second = decode_events(&events);
        assert_eq!(first, second);
        let copy = events.clone();
        assert_eq!(decode_events(&copy), first);
    }
}
