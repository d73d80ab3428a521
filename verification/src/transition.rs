//! The grammar transition function: a pure map from a state and a
//! character class to the next state, with an absorbing invalid sink.

use vstd::prelude::*;
use crate::classify::SpecialChar;
use crate::state::{
    State, decode_spec, empty_state, encode_spec, invalid_state, lemma_encode_decode_roundtrip,
};

verus! {

/// Resolves the transitional markers left by the previous step, before
/// the current input is considered: an opened object or a consumed
/// comma puts the state in key position, a closed object completes the
/// enclosing word, and a consumed colon puts it in value position.
pub open spec fn settle_spec(s: State) -> State {
    State {
        is_key: s.is_key || s.new_dict || s.separator,
        is_value: s.is_value || s.key_value_delimiter,
        word_complete: s.word_complete || s.end_dict,
        new_dict: false,
        end_dict: false,
        separator: false,
        key_value_delimiter: false,
        ..s
    }
}

/// The transition function. In order: the invalid sink absorbs; the
/// transitional markers settle; an unconsumed escape swallows the
/// character; the empty state only opens an object or skips white
/// space; inside a string only `\` and `"` matter; otherwise the
/// structural rules decide, and every violation collapses the state
/// to the invalid sink.
///
/// A bare numeric token is a run of the `Numeric` class, which does
/// not count decimal points: a token with several is accepted. That
/// looseness is kept on purpose, so that the table this function
/// generates stays the stated relation.
pub open spec fn transition_spec(s: State, action: SpecialChar) -> State {
    if s.is_invalid {
        s
    } else {
        let t = settle_spec(s);
        if t.is_str_escaped {
            State { is_str_escaped: false, ..t }
        } else if t == empty_state() {
            match action {
                SpecialChar::OpenBrace => State { new_dict: true, ..t },
                SpecialChar::WhiteSpace => t,
                _ => invalid_state(),
            }
        } else if t.is_str {
            match action {
                SpecialChar::Backslash => State { is_str_escaped: true, ..t },
                SpecialChar::DoubleQuote => State {
                    word_complete: true,
                    word_buffering: false,
                    is_str: false,
                    ..t
                },
                _ => t,
            }
        } else {
            match action {
                SpecialChar::OpenBrace => if t.is_value && !t.word_complete {
                    State { new_dict: true, is_value: false, ..t }
                } else {
                    invalid_state()
                },
                SpecialChar::CloseBrace => if t.is_value {
                    State { end_dict: true, word_complete: false, word_buffering: false, ..t }
                } else {
                    invalid_state()
                },
                SpecialChar::Comma => if t.is_value {
                    State {
                        separator: true,
                        is_value: false,
                        word_complete: false,
                        word_buffering: false,
                        ..t
                    }
                } else {
                    invalid_state()
                },
                SpecialChar::Colon => if t.is_key {
                    State { key_value_delimiter: true, is_key: false, word_complete: false, ..t }
                } else {
                    invalid_state()
                },
                SpecialChar::DoubleQuote => if t.word_complete {
                    invalid_state()
                } else {
                    State { is_str: true, word_buffering: true, ..t }
                },
                SpecialChar::WhiteSpace => if t.is_value && t.word_buffering {
                    State { word_complete: true, word_buffering: false, ..t }
                } else {
                    t
                },
                SpecialChar::Numeric => if t.is_value && !t.word_complete {
                    State { word_buffering: true, ..t }
                } else {
                    invalid_state()
                },
                SpecialChar::Backslash => invalid_state(),
                SpecialChar::Other => invalid_state(),
            }
        }
    }
}

/// One step of the grammar.
pub trait JsonStateMutation: Sized {
    /// The state the next step yields.
    spec fn next_spec(&self, action: SpecialChar) -> Self;

    /// Applies one input class and returns the next state.
    fn mutate(&self, action: SpecialChar) -> (r: Self)
        ensures
            r == self.next_spec(action),
    ;
}

impl JsonStateMutation for State {
    open spec fn next_spec(&self, action: SpecialChar) -> State {
        transition_spec(*self, action)
    }

    fn mutate(&self, action: SpecialChar) -> (r: State) {
        if self.is_invalid {
            return *self;
        }
        let t = State {
            is_key: self.is_key || self.new_dict || self.separator,
            is_value: self.is_value || self.key_value_delimiter,
            word_complete: self.word_complete || self.end_dict,
            new_dict: false,
            end_dict: false,
            separator: false,
            key_value_delimiter: false,
            ..*self
        };
        if t.is_str_escaped {
            State { is_str_escaped: false, ..t }
        } else if !t.is_invalid && !t.is_key && !t.is_value && !t.word_complete && !t.is_str
            && !t.is_str_escaped && !t.word_buffering {
            match action {
                SpecialChar::OpenBrace => State { new_dict: true, ..t },
                SpecialChar::WhiteSpace => t,
                _ => State { is_invalid: true, ..empty() },
            }
        } else if t.is_str {
            match action {
                SpecialChar::Backslash => State { is_str_escaped: true, ..t },
                SpecialChar::DoubleQuote => State {
                    word_complete: true,
                    word_buffering: false,
                    is_str: false,
                    ..t
                },
                _ => t,
            }
        } else {
            match action {
                SpecialChar::OpenBrace => if t.is_value && !t.word_complete {
                    State { new_dict: true, is_value: false, ..t }
                } else {
                    State { is_invalid: true, ..empty() }
                },
                SpecialChar::CloseBrace => if t.is_value {
                    State { end_dict: true, word_complete: false, word_buffering: false, ..t }
                } else {
                    State { is_invalid: true, ..empty() }
                },
                SpecialChar::Comma => if t.is_value {
                    State {
                        separator: true,
                        is_value: false,
                        word_complete: false,
                        word_buffering: false,
                        ..t
                    }
                } else {
                    State { is_invalid: true, ..empty() }
                },
                SpecialChar::Colon => if t.is_key {
                    State { key_value_delimiter: true, is_key: false, word_complete: false, ..t }
                } else {
                    State { is_invalid: true, ..empty() }
                },
                SpecialChar::DoubleQuote => if t.word_complete {
                    State { is_invalid: true, ..empty() }
                } else {
                    State { is_str: true, word_buffering: true, ..t }
                },
                SpecialChar::WhiteSpace => if t.is_value && t.word_buffering {
                    State { word_complete: true, word_buffering: false, ..t }
                } else {
                    t
                },
                SpecialChar::Numeric => if t.is_value && !t.word_complete {
                    State { word_buffering: true, ..t }
                } else {
                    State { is_invalid: true, ..empty() }
                },
                SpecialChar::Backslash => State { is_invalid: true, ..empty() },
                SpecialChar::Other => State { is_invalid: true, ..empty() },
            }
        }
    }
}

/// The all-clear exec state, used to build the invalid sink.
fn empty() -> (s: State)
    ensures
        s == empty_state(),
{
    State {
        is_invalid: false,
        new_dict: false,
        end_dict: false,
        separator: false,
        is_key: false,
        is_value: false,
        key_value_delimiter: false,
        is_str: false,
        is_str_escaped: false,
        word_buffering: false,
        word_complete: false,
    }
}

/// The state a run of the transition function reaches from `s` after
/// consuming the classes of `cs` in order.
pub open spec fn run_spec(s: State, cs: Seq<SpecialChar>) -> State
    decreases cs.len(),
{
    if cs.len() == 0 {
        s
    } else {
        run_spec(transition_spec(s, cs[0]), cs.drop_first())
    }
}

/// Whether some input sequence drives the empty start state to `s`.
pub open spec fn reachable(s: State) -> bool {
    exists|cs: Seq<SpecialChar>| s == run_spec(empty_state(), cs)
}

/// Consuming one more class at the end of a run is one more step.
pub proof fn lemma_run_snoc(s: State, cs: Seq<SpecialChar>, c: SpecialChar)
    ensures
        run_spec(s, cs.push(c)) == transition_spec(run_spec(s, cs), c),
    decreases cs.len(),
{
    if cs.len() == 0 {
        assert(cs.push(c)[0] == c);
        assert(cs.push(c).drop_first() =~= cs);
        assert(run_spec(s, cs.push(c)) == run_spec(transition_spec(s, c), cs));
    } else {
        assert(cs.push(c)[0] == cs[0]);
        assert(cs.push(c).drop_first() =~= cs.drop_first().push(c));
        lemma_run_snoc(transition_spec(s, cs[0]), cs.drop_first(), c);
        assert(run_spec(s, cs.push(c)) == run_spec(
            transition_spec(s, cs[0]),
            cs.drop_first().push(c),
        ));
    }
}

/// The empty start state is reachable.
pub proof fn lemma_reachable_empty()
    ensures
        reachable(empty_state()),
{
    let cs = Seq::<SpecialChar>::empty();
    assert(run_spec(empty_state(), cs) == empty_state());
}

/// One transition out of a reachable state reaches a reachable state.
pub proof fn lemma_reachable_step(s: State, c: SpecialChar)
    requires
        reachable(s),
    ensures
        reachable(transition_spec(s, c)),
{
    let cs = choose|cs: Seq<SpecialChar>| s == run_spec(empty_state(), cs);
    lemma_run_snoc(empty_state(), cs, c);
    assert(transition_spec(s, c) == run_spec(empty_state(), cs.push(c)));
}

/// Round trip: every state reachable from the empty start state
/// decodes back from its encoding (as does every other state: no bit
/// position is reused).
pub proof fn lemma_reachable_round_trip(s: State)
    requires
        reachable(s),
    ensures
        decode_spec(encode_spec(s)) == s,
{
    lemma_encode_decode_roundtrip(s);
}

/// Absorption: once the invalid flag is set, every further transition
/// leaves the state unchanged, whatever class comes in.
pub proof fn lemma_invalid_absorbing(s: State, action: SpecialChar)
    requires
        s.is_invalid,
    ensures
        transition_spec(s, action) == s,
{
}

/// A value-less colon: when a colon is consumed in structural position
/// (not inside a string, not as an escaped literal) and accepted, a
/// second colon straight after it collapses the state to the invalid
/// sink — the delimiter put the state in value position, where a colon
/// is never legal.
pub proof fn lemma_second_colon_invalid(s: State)
    requires
        !s.is_invalid,
        !s.is_str,
        !s.is_str_escaped,
        !transition_spec(s, SpecialChar::Colon).is_invalid,
    ensures
        transition_spec(transition_spec(s, SpecialChar::Colon), SpecialChar::Colon).is_invalid,
{
}

/// A key not wrapped in quotes: in key position (only the key flag of
/// the position flags set, no pending marker, not inside a string) a
/// digit or an ordinary character collapses the state to the invalid
/// sink.
pub proof fn lemma_unquoted_key_invalid(s: State, action: SpecialChar)
    requires
        s.is_key,
        !s.is_value,
        !s.is_invalid,
        !s.is_str,
        !s.is_str_escaped,
        !s.new_dict,
        !s.separator,
        !s.key_value_delimiter,
        action == SpecialChar::Numeric || action == SpecialChar::Other,
    ensures
        transition_spec(s, action).is_invalid,
{
}

} // verus!
