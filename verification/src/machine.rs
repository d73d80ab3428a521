//! A stateful wrapper around the grammar: it holds the current state
//! and advances it with the transition function, or loads a state
//! back from its integer encoding.

use vstd::prelude::*;
use crate::classify::SpecialChar;
use crate::state::{
    State, StateCheck, StateEncoding, decode_spec, empty_state, encode_spec,
    lemma_encode_decode_roundtrip, lemma_no_flags_is_empty, StateBits,
};
use crate::transition::{transition_spec, JsonStateMutation};

verus! {

/// The constraint layout a lookup-argument consumer of the
/// transition table may choose.
#[derive(Debug, Clone, Copy, PartialEq, Eq, Structural)]
pub enum StateMachineStrategy {
    /// Vertical layout: one `q * (a + b * c - d) = 0` gate per row,
    /// chaining each gate's output into the next gate's first cell.
    Vertical,
}

/// A running instance of the grammar state machine.
#[derive(Debug, Clone, Copy, PartialEq, Eq, Structural)]
pub struct StateMachine {
    /// The current state.
    pub state: State,
}

impl StateMachine {
    /// A machine in the empty state, from which the table traversal
    /// also starts.
    pub fn begin() -> (m: StateMachine)
        ensures
            m.state == empty_state(),
    {
        let s = State::new();
        proof {
            assert forall|b: StateBits| !s.has(b) by {
                assert(!s.has_flag(b));
            }
            lemma_no_flags_is_empty(s);
        }
        StateMachine { state: s }
    }

    /// Advances the state by one input class.
    pub fn step(&mut self, action: SpecialChar)
        ensures
            final(self).state == transition_spec(old(self).state, action),
    {
        self.state = self.state.mutate(action);
    }

    /// The state one step would yield, without taking it.
    pub fn preview_step(&mut self, action: SpecialChar) -> (next: State)
        ensures
            next == transition_spec(old(self).state, action),
            *final(self) == *old(self),
    {
        self.state.mutate(action)
    }

    /// The current state.
    pub fn get_state(&self) -> (s: State)
        ensures
            s == self.state,
    {
        self.state
    }

    /// The integer encoding of the current state.
    pub fn encode(&self) -> (id: u64)
        ensures
            id == encode_spec(self.state),
            id < 2048,
    {
        self.state.encode()
    }

    /// Replaces the current state by the one an encoding denotes.
    pub fn decode_and_update(&mut self, id: u64)
        requires
            id < 2048,
        ensures
            final(self).state == decode_spec(id),
    {
        self.state = State::decode(id);
        proof {
            lemma_encode_decode_roundtrip(self.state);
        }
    }
}

} // verus!
