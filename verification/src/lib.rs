//! Arithmetization-oriented JSON structural validation.
//!
//! Two validators over a sequence of character codes: a bit-vector
//! grammar state machine with an exhaustive transition table (for
//! lookup-argument consumers), and a row-by-row structural witness
//! model that tracks brace nesting and string/escape status. The two
//! are deliberately kept independent, composable checks: the
//! structural model does not enforce key/value alternation, and the
//! grammar does not count brace levels.

pub mod classify;
pub mod machine;
pub mod state;
pub mod structural;
pub mod table;
pub mod transition;
