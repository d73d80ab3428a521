use zkjson::classify::SpecialChar;
use zkjson::machine::{StateMachine, StateMachineStrategy};
use zkjson::state::{State, StateBits, StateCheck, StateEncoding};
use zkjson::transition::JsonStateMutation;

#[test]
fn test_state_check() {
    let mut state = State::start();
    assert_eq!(state.check(StateBits::IsValue), false);
    assert_eq!(state.check(StateBits::IsKey), false);
    state.on(StateBits::IsKey);
    assert_eq!(state.check(StateBits::IsKey), true);
    state.off(StateBits::IsKey);
    assert_eq!(state.check(StateBits::IsKey), false);
    state.flip(StateBits::IsKey);
    assert_eq!(state.check(StateBits::IsKey), true);
    state.flip(StateBits::IsKey);
    assert_eq!(state.check(StateBits::IsKey), false);
}

#[test]
fn test_state_check_and() {
    // The start state is empty, so the conjunction needs both flags
    // set by hand.
    let mut state = State::start();
    assert_eq!(state.check_and(vec![StateBits::IsValue, StateBits::IsKey]), false);
    state.on(StateBits::IsKey);
    assert_eq!(state.check_and(vec![StateBits::IsValue, StateBits::IsKey]), false);
    state.on(StateBits::IsValue);
    assert_eq!(state.check_and(vec![StateBits::IsValue, StateBits::IsKey]), true);
}

#[test]
fn test_state_check_or() {
    // The start state is empty, so the disjunction only holds once a
    // flag is switched on.
    let mut state = State::start();
    assert_eq!(state.check_or(vec![StateBits::IsValue, StateBits::IsKey]), false);
    state.off(StateBits::IsValue);
    assert_eq!(state.check_or(vec![StateBits::IsValue, StateBits::IsKey]), false);
    state.on(StateBits::IsKey);
    assert_eq!(state.check_or(vec![StateBits::IsValue, StateBits::IsKey]), true);
}

#[test]
fn test_state_mutation() {
    let input = "{\"a{}  \": 123  , \"b\\\"a\": \"xyz\"}".to_string();
    let mut state = State::start();
    let mut transcript = vec![state.clone()];

    for c in input.chars() {
        let action = SpecialChar::from(c);
        let end_state = state.mutate(action);
        println!(
            "Reading {:?} with starting state {:?} to ending state {:?}",
            c, state, end_state
        );
        end_state.assert_valid();
        assert!(!end_state.check(StateBits::IsInvalid));
        transcript.push(end_state.clone());
        state = end_state;
    }
}

#[test]
fn test_encoding_decoding() {
    let input = "   {\"a{}  \": 123  , \"b\\\"a\": \"xyz\"}".to_string();
    let mut state = State::start();
    let mut transcript = vec![state.clone()];

    for c in input.chars() {
        let action = SpecialChar::from(c);
        let end_state = state.mutate(action);
        let encoding: u64 = end_state.encode();
        let decode_encode: u64 = State::decode(encoding).encode();
        println!(
            "Reading {:?} with ending state \t {:?} \t encoding {:?}",
            c,
            encoding,
            State::decode(encoding)
        );
        end_state.assert_valid();
        assert_eq!(encoding, decode_encode);
        transcript.push(end_state.clone());
        state = end_state;
    }
}

#[test]
fn grammar_accepts_full_document() {
    // Every prefix stays valid, and the final state has no open
    // string and no freshly opened object.
    let input = "{\"a{}  \": 123  , \"b\\\"a\": \"xyz\"}";
    let mut state = State::start();
    for c in input.chars() {
        state = state.mutate(SpecialChar::from(c));
        assert!(!state.check(StateBits::IsInvalid));
    }
    assert!(!state.check(StateBits::IsStr));
    assert!(!state.check(StateBits::NewDict));
    assert!(!state.check(StateBits::IsStrEscaped));
}

#[test]
fn grammar_rejects_double_colon() {
    let input = "{\"a\"::";
    let mut state = State::start();
    for c in input.chars() {
        state = state.mutate(SpecialChar::from(c));
    }
    assert!(state.check(StateBits::IsInvalid));
}

#[test]
fn grammar_rejects_unquoted_key() {
    let input = "{a";
    let mut state = State::start();
    for c in input.chars() {
        state = state.mutate(SpecialChar::from(c));
    }
    assert!(state.check(StateBits::IsInvalid));

    let input_digits = "{1";
    let mut state_digits = State::start();
    for c in input_digits.chars() {
        state_digits = state_digits.mutate(SpecialChar::from(c));
    }
    assert!(state_digits.check(StateBits::IsInvalid));
}

#[test]
fn invalid_state_absorbs_every_class() {
    let invalid = State::invalid();
    let classes = vec![
        SpecialChar::Backslash,
        SpecialChar::DoubleQuote,
        SpecialChar::OpenBrace,
        SpecialChar::CloseBrace,
        SpecialChar::Colon,
        SpecialChar::Comma,
        SpecialChar::WhiteSpace,
        SpecialChar::Numeric,
        SpecialChar::Other,
    ];
    for action in classes {
        assert_eq!(invalid.mutate(action), invalid);
    }
}

#[test]
fn machine_steps_like_the_transition_function() {
    let mut machine = StateMachine::begin();
    assert!(machine.get_state().is_null());

    // A machine in the empty state consumes "{" and settles into key
    // position on the next character.
    machine.step(SpecialChar::OpenBrace);
    assert!(machine.get_state().check(StateBits::NewDict));
    assert_eq!(machine.encode(), 0x002);

    let preview = machine.preview_step(SpecialChar::DoubleQuote);
    assert!(preview.check(StateBits::IsKey));
    assert!(preview.check(StateBits::IsStr));
    // The preview did not move the machine.
    assert!(machine.get_state().check(StateBits::NewDict));

    machine.step(SpecialChar::DoubleQuote);
    assert_eq!(machine.get_state(), preview);

    machine.decode_and_update(0x020);
    assert!(machine.get_state().check(StateBits::IsValue));
    assert_eq!(machine.get_state().encode(), 0x020);

    machine.decode_and_update(0);
    assert_eq!(machine.get_state(), State::start());

    assert_eq!(StateMachineStrategy::Vertical, StateMachineStrategy::Vertical);
}

#[test]
fn classifier_distinguishes_every_class() {
    assert_eq!(SpecialChar::from('\\'), SpecialChar::Backslash);
    assert_eq!(SpecialChar::from('"'), SpecialChar::DoubleQuote);
    assert_eq!(SpecialChar::from('{'), SpecialChar::OpenBrace);
    assert_eq!(SpecialChar::from('}'), SpecialChar::CloseBrace);
    assert_eq!(SpecialChar::from(':'), SpecialChar::Colon);
    assert_eq!(SpecialChar::from(','), SpecialChar::Comma);
    assert_eq!(SpecialChar::from(' '), SpecialChar::WhiteSpace);
    assert_eq!(SpecialChar::from('\t'), SpecialChar::WhiteSpace);
    assert_eq!(SpecialChar::from('\u{a0}'), SpecialChar::WhiteSpace);
    assert_eq!(SpecialChar::from('7'), SpecialChar::Numeric);
    assert_eq!(SpecialChar::from('.'), SpecialChar::Numeric);
    assert_eq!(SpecialChar::from('x'), SpecialChar::Other);
    assert_eq!(SpecialChar::from('['), SpecialChar::Other);
}
