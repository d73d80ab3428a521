use zkjson::state::{State, StateBits, StateCheck, StateEncoding};

#[test]
fn encoding_uses_the_fixed_bit_order() {
    assert_eq!(State::new().encode(), 0);
    assert_eq!(State::start().encode(), 0);
    assert_eq!(State::invalid().encode(), 0x001);

    let mut state = State::new();
    state.on(StateBits::IsKey);
    state.on(StateBits::IsStr);
    state.on(StateBits::WordBuffering);
    // 2^4 + 2^7 + 2^9
    assert_eq!(state.encode(), 16 + 128 + 512);
}

#[test]
fn every_single_flag_round_trips() {
    for id in 0..11u64 {
        let bit = StateBits::from(id);
        let mut state = State::new();
        state.on(bit);
        let encoding = state.encode();
        assert_eq!(encoding, 1 << id);
        assert_eq!(State::decode(encoding), state);
    }
}

#[test]
fn every_encoding_round_trips() {
    // Encoding inverts decoding on the whole 11-bit range, which
    // covers every reachable state.
    for id in 0..2048u64 {
        let state = State::decode(id);
        assert_eq!(state.encode(), id);
        assert_eq!(State::decode(state.encode()), state);
    }
}

#[test]
fn flag_indices_match_the_table() {
    assert_eq!(StateBits::from(0), StateBits::IsInvalid);
    assert_eq!(StateBits::from(1), StateBits::NewDict);
    assert_eq!(StateBits::from(2), StateBits::EndDict);
    assert_eq!(StateBits::from(3), StateBits::Separator);
    assert_eq!(StateBits::from(4), StateBits::IsKey);
    assert_eq!(StateBits::from(5), StateBits::IsValue);
    assert_eq!(StateBits::from(6), StateBits::KeyValueDelimiter);
    assert_eq!(StateBits::from(7), StateBits::IsStr);
    assert_eq!(StateBits::from(8), StateBits::IsStrEscaped);
    assert_eq!(StateBits::from(9), StateBits::WordBuffering);
    assert_eq!(StateBits::from(10), StateBits::WordComplete);
}
