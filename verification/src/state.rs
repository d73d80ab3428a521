//! The bit-vector parser state: a set of named boolean flags together
//! with its integer encoding (sum of `2^bit` over the set flags).

use vstd::prelude::*;

verus! {

/// The named flags a parser state may carry, in bit order.
#[derive(Debug, Clone, Copy, PartialEq, Eq, Hash, Structural)]
pub enum StateBits {
    /// Absorbing sink: once set, every later transition is a no-op.
    IsInvalid,
    /// Transitional: an object just opened, settles on the next step.
    NewDict,
    /// Transitional: an object just closed, settles on the next step.
    EndDict,
    /// Transitional: a comma was consumed, settles on the next step.
    Separator,
    /// Currently expecting or reading an object key.
    IsKey,
    /// Currently expecting or reading an object value.
    IsValue,
    /// Transitional: a colon was consumed, settles on the next step.
    KeyValueDelimiter,
    /// Inside an open, unterminated string literal.
    IsStr,
    /// The previous character was an unconsumed escaping backslash.
    IsStrEscaped,
    /// Accumulating the characters of a bare (non-string) token.
    WordBuffering,
    /// A key or value token was just terminated.
    WordComplete,
}

/// The bit index of a flag in the integer encoding of a state.
pub open spec fn bit_index(bit: StateBits) -> u64 {
    match bit {
        StateBits::IsInvalid => 0,
        StateBits::NewDict => 1,
        StateBits::EndDict => 2,
        StateBits::Separator => 3,
        StateBits::IsKey => 4,
        StateBits::IsValue => 5,
        StateBits::KeyValueDelimiter => 6,
        StateBits::IsStr => 7,
        StateBits::IsStrEscaped => 8,
        StateBits::WordBuffering => 9,
        StateBits::WordComplete => 10,
    }
}

impl StateBits {
    /// The flag whose bit index is `id`; the indices stop at 10.
    pub fn from(id: u64) -> (bit: StateBits)
        requires
            id <= 10,
        ensures
            bit_index(bit) == id,
    {
        match id {
            0 => StateBits::IsInvalid,
            1 => StateBits::NewDict,
            2 => StateBits::EndDict,
            3 => StateBits::Separator,
            4 => StateBits::IsKey,
            5 => StateBits::IsValue,
            6 => StateBits::KeyValueDelimiter,
            7 => StateBits::IsStr,
            8 => StateBits::IsStrEscaped,
            9 => StateBits::WordBuffering,
            10 => StateBits::WordComplete,
            _ => unreached(),
        }
    }
}

/// A parser state: one boolean per flag of `StateBits`.
#[derive(Debug, Clone, Copy, PartialEq, Eq, Hash, Structural)]
pub struct State {
    pub is_invalid: bool,
    pub new_dict: bool,
    pub end_dict: bool,
    pub separator: bool,
    pub is_key: bool,
    pub is_value: bool,
    pub key_value_delimiter: bool,
    pub is_str: bool,
    pub is_str_escaped: bool,
    pub word_buffering: bool,
    pub word_complete: bool,
}

impl State {
    /// Whether the flag `bit` is set in this state.
    pub open spec fn has(self, bit: StateBits) -> bool {
        match bit {
            StateBits::IsInvalid => self.is_invalid,
            StateBits::NewDict => self.new_dict,
            StateBits::EndDict => self.end_dict,
            StateBits::Separator => self.separator,
            StateBits::IsKey => self.is_key,
            StateBits::IsValue => self.is_value,
            StateBits::KeyValueDelimiter => self.key_value_delimiter,
            StateBits::IsStr => self.is_str,
            StateBits::IsStrEscaped => self.is_str_escaped,
            StateBits::WordBuffering => self.word_buffering,
            StateBits::WordComplete => self.word_complete,
        }
    }

}

/// Every flag is one of the eleven named ones.
pub proof fn lemma_bits_exhaustive(b: StateBits)
    ensures
        b == StateBits::IsInvalid || b == StateBits::NewDict || b == StateBits::EndDict
            || b == StateBits::Separator || b == StateBits::IsKey || b == StateBits::IsValue
            || b == StateBits::KeyValueDelimiter || b == StateBits::IsStr
            || b == StateBits::IsStrEscaped || b == StateBits::WordBuffering
            || b == StateBits::WordComplete,
{
    match b {
        StateBits::IsInvalid => {},
        StateBits::NewDict => {},
        StateBits::EndDict => {},
        StateBits::Separator => {},
        StateBits::IsKey => {},
        StateBits::IsValue => {},
        StateBits::KeyValueDelimiter => {},
        StateBits::IsStr => {},
        StateBits::IsStrEscaped => {},
        StateBits::WordBuffering => {},
        StateBits::WordComplete => {},
    }
}

/// A state with no flag set is the empty state.
pub proof fn lemma_no_flags_is_empty(s: State)
    requires
        forall|b: StateBits| !s.has(b),
    ensures
        s == empty_state(),
{
    assert(!s.has(StateBits::IsInvalid));
    assert(!s.has(StateBits::NewDict));
    assert(!s.has(StateBits::EndDict));
    assert(!s.has(StateBits::Separator));
    assert(!s.has(StateBits::IsKey));
    assert(!s.has(StateBits::IsValue));
    assert(!s.has(StateBits::KeyValueDelimiter));
    assert(!s.has(StateBits::IsStr));
    assert(!s.has(StateBits::IsStrEscaped));
    assert(!s.has(StateBits::WordBuffering));
    assert(!s.has(StateBits::WordComplete));
}

/// The state with no flag set: the start state of the grammar.
pub open spec fn empty_state() -> State {
    State {
        is_invalid: false,
        new_dict: false,
        end_dict: false,
        separator: false,
        is_key: false,
        is_value: false,
        key_value_delimiter: false,
        is_str: false,
        is_str_escaped: false,
        word_buffering: false,
        word_complete: false,
    }
}

/// The absorbing failure state: only `IsInvalid` is set.
pub open spec fn invalid_state() -> State {
    State { is_invalid: true, ..empty_state() }
}

/// The integer encoding of a state: the or (equivalently, the sum) of
/// `2^bit_index` over its set flags.
pub open spec fn encode_spec(s: State) -> u64 {
    (if s.is_invalid { 0x001u64 } else { 0u64 })
    | (if s.new_dict { 0x002u64 } else { 0u64 })
    | (if s.end_dict { 0x004u64 } else { 0u64 })
    | (if s.separator { 0x008u64 } else { 0u64 })
    | (if s.is_key { 0x010u64 } else { 0u64 })
    | (if s.is_value { 0x020u64 } else { 0u64 })
    | (if s.key_value_delimiter { 0x040u64 } else { 0u64 })
    | (if s.is_str { 0x080u64 } else { 0u64 })
    | (if s.is_str_escaped { 0x100u64 } else { 0u64 })
    | (if s.word_buffering { 0x200u64 } else { 0u64 })
    | (if s.word_complete { 0x400u64 } else { 0u64 })
}

/// The state read back from an integer encoding below `2^11`:
/// one parity test per bit position.
pub open spec fn decode_spec(id: u64) -> State {
    State {
        is_invalid: id & 0x001 != 0,
        new_dict: id & 0x002 != 0,
        end_dict: id & 0x004 != 0,
        separator: id & 0x008 != 0,
        is_key: id & 0x010 != 0,
        is_value: id & 0x020 != 0,
        key_value_delimiter: id & 0x040 != 0,
        is_str: id & 0x080 != 0,
        is_str_escaped: id & 0x100 != 0,
        word_buffering: id & 0x200 != 0,
        word_complete: id & 0x400 != 0,
    }
}

/// Every encoding stays below `2^11`.
pub proof fn lemma_encode_bound(s: State)
    ensures
        encode_spec(s) < 2048,
{
    let e = encode_spec(s);
    let b0: u64 = if s.is_invalid { 0x001 } else { 0 };
    let b1: u64 = if s.new_dict { 0x002 } else { 0 };
    let b2: u64 = if s.end_dict { 0x004 } else { 0 };
    let b3: u64 = if s.separator { 0x008 } else { 0 };
    let b4: u64 = if s.is_key { 0x010 } else { 0 };
    let b5: u64 = if s.is_value { 0x020 } else { 0 };
    let b6: u64 = if s.key_value_delimiter { 0x040 } else { 0 };
    let b7: u64 = if s.is_str { 0x080 } else { 0 };
    let b8: u64 = if s.is_str_escaped { 0x100 } else { 0 };
    let b9: u64 = if s.word_buffering { 0x200 } else { 0 };
    let b10: u64 = if s.word_complete { 0x400 } else { 0 };
    assert(e == b0 | b1 | b2 | b3 | b4 | b5 | b6 | b7 | b8 | b9 | b10);
    assert((b0 | b1 | b2 | b3 | b4 | b5 | b6 | b7 | b8 | b9 | b10) < 2048) by (bit_vector)
        requires
            b0 == 0 || b0 == 0x001,
            b1 == 0 || b1 == 0x002,
            b2 == 0 || b2 == 0x004,
            b3 == 0 || b3 == 0x008,
            b4 == 0 || b4 == 0x010,
            b5 == 0 || b5 == 0x020,
            b6 == 0 || b6 == 0x040,
            b7 == 0 || b7 == 0x080,
            b8 == 0 || b8 == 0x100,
            b9 == 0 || b9 == 0x200,
            b10 == 0 || b10 == 0x400,
    ;
}

/// Decoding inverts encoding: no bit position is reused, so the
/// round trip restores every flag (and in particular every state
/// reachable from the start state).
pub proof fn lemma_encode_decode_roundtrip(s: State)
    ensures
        decode_spec(encode_spec(s)) == s,
{
    let e = encode_spec(s);
    let b0: u64 = if s.is_invalid { 0x001 } else { 0 };
    let b1: u64 = if s.new_dict { 0x002 } else { 0 };
    let b2: u64 = if s.end_dict { 0x004 } else { 0 };
    let b3: u64 = if s.separator { 0x008 } else { 0 };
    let b4: u64 = if s.is_key { 0x010 } else { 0 };
    let b5: u64 = if s.is_value { 0x020 } else { 0 };
    let b6: u64 = if s.key_value_delimiter { 0x040 } else { 0 };
    let b7: u64 = if s.is_str { 0x080 } else { 0 };
    let b8: u64 = if s.is_str_escaped { 0x100 } else { 0 };
    let b9: u64 = if s.word_buffering { 0x200 } else { 0 };
    let b10: u64 = if s.word_complete { 0x400 } else { 0 };
    assert(e == b0 | b1 | b2 | b3 | b4 | b5 | b6 | b7 | b8 | b9 | b10);
    assert({
        let m = b0 | b1 | b2 | b3 | b4 | b5 | b6 | b7 | b8 | b9 | b10;
        &&& (m & 0x001 != 0) == (b0 == 0x001)
        &&& (m & 0x002 != 0) == (b1 == 0x002)
        &&& (m & 0x004 != 0) == (b2 == 0x004)
        &&& (m & 0x008 != 0) == (b3 == 0x008)
        &&& (m & 0x010 != 0) == (b4 == 0x010)
        &&& (m & 0x020 != 0) == (b5 == 0x020)
        &&& (m & 0x040 != 0) == (b6 == 0x040)
        &&& (m & 0x080 != 0) == (b7 == 0x080)
        &&& (m & 0x100 != 0) == (b8 == 0x100)
        &&& (m & 0x200 != 0) == (b9 == 0x200)
        &&& (m & 0x400 != 0) == (b10 == 0x400)
    }) by (bit_vector)
        requires
            b0 == 0 || b0 == 0x001,
            b1 == 0 || b1 == 0x002,
            b2 == 0 || b2 == 0x004,
            b3 == 0 || b3 == 0x008,
            b4 == 0 || b4 == 0x010,
            b5 == 0 || b5 == 0x020,
            b6 == 0 || b6 == 0x040,
            b7 == 0 || b7 == 0x080,
            b8 == 0 || b8 == 0x100,
            b9 == 0 || b9 == 0x200,
            b10 == 0 || b10 == 0x400,
    ;
}

/// Encoding inverts decoding on its range: every integer below `2^11`
/// is the encoding of the state it decodes to.
pub proof fn lemma_decode_encode_roundtrip(id: u64)
    requires
        id < 2048,
    ensures
        encode_spec(decode_spec(id)) == id,
{
    let s = decode_spec(id);
    let b0: u64 = if s.is_invalid { 0x001 } else { 0 };
    let b1: u64 = if s.new_dict { 0x002 } else { 0 };
    let b2: u64 = if s.end_dict { 0x004 } else { 0 };
    let b3: u64 = if s.separator { 0x008 } else { 0 };
    let b4: u64 = if s.is_key { 0x010 } else { 0 };
    let b5: u64 = if s.is_value { 0x020 } else { 0 };
    let b6: u64 = if s.key_value_delimiter { 0x040 } else { 0 };
    let b7: u64 = if s.is_str { 0x080 } else { 0 };
    let b8: u64 = if s.is_str_escaped { 0x100 } else { 0 };
    let b9: u64 = if s.word_buffering { 0x200 } else { 0 };
    let b10: u64 = if s.word_complete { 0x400 } else { 0 };
    assert(encode_spec(s) == b0 | b1 | b2 | b3 | b4 | b5 | b6 | b7 | b8 | b9 | b10);
    assert((b0 | b1 | b2 | b3 | b4 | b5 | b6 | b7 | b8 | b9 | b10) == id) by (bit_vector)
        requires
            id < 2048,
            b0 == (if id & 0x001 != 0 { 0x001u64 } else { 0u64 }),
            b1 == (if id & 0x002 != 0 { 0x002u64 } else { 0u64 }),
            b2 == (if id & 0x004 != 0 { 0x004u64 } else { 0u64 }),
            b3 == (if id & 0x008 != 0 { 0x008u64 } else { 0u64 }),
            b4 == (if id & 0x010 != 0 { 0x010u64 } else { 0u64 }),
            b5 == (if id & 0x020 != 0 { 0x020u64 } else { 0u64 }),
            b6 == (if id & 0x040 != 0 { 0x040u64 } else { 0u64 }),
            b7 == (if id & 0x080 != 0 { 0x080u64 } else { 0u64 }),
            b8 == (if id & 0x100 != 0 { 0x100u64 } else { 0u64 }),
            b9 == (if id & 0x200 != 0 { 0x200u64 } else { 0u64 }),
            b10 == (if id & 0x400 != 0 { 0x400u64 } else { 0u64 }),
    ;
}

/// Set-like access to a state's flags.
pub trait StateCheck: Sized {
    /// Whether the flag `bit` is set.
    spec fn has_flag(&self, bit: StateBits) -> bool;

    /// The state with no flag set.
    fn new() -> (s: Self)
        ensures
            forall|b: StateBits| !s.has_flag(b),
    ;

    /// The start state of the grammar: no flag set.
    fn start() -> (s: Self)
        ensures
            forall|b: StateBits| !s.has_flag(b),
    ;

    /// The absorbing failure state.
    fn invalid() -> (s: Self)
        ensures
            forall|b: StateBits| s.has_flag(b) <==> b == StateBits::IsInvalid,
    ;

    /// Sets the flag `bit`.
    fn on(&mut self, bit: StateBits)
        ensures
            forall|b: StateBits|
                final(self).has_flag(b) <==> (old(self).has_flag(b) || b == bit),
    ;

    /// Clears the flag `bit`.
    fn off(&mut self, bit: StateBits)
        ensures
            forall|b: StateBits|
                final(self).has_flag(b) <==> (old(self).has_flag(b) && b != bit),
    ;

    /// Inverts the flag `bit`.
    fn flip(&mut self, bit: StateBits)
        ensures
            forall|b: StateBits|
                final(self).has_flag(b) <==> (if b == bit {
                    !old(self).has_flag(b)
                } else {
                    old(self).has_flag(b)
                }),
    ;

    /// Whether the flag `bit` is set.
    fn check(&self, bit: StateBits) -> (r: bool)
        ensures
            r == self.has_flag(bit),
    ;

    /// Whether no flag at all is set.
    fn is_null(&self) -> (r: bool)
        ensures
            r <==> forall|b: StateBits| !self.has_flag(b),
    ;

    /// Whether every flag in `bits` is set.
    fn check_and(&self, bits: Vec<StateBits>) -> (r: bool)
        ensures
            r <==> forall|i: int| 0 <= i < bits@.len() ==> self.has_flag(bits@[i]),
    ;

    /// Whether at least one flag in `bits` is set.
    fn check_or(&self, bits: Vec<StateBits>) -> (r: bool)
        ensures
            r <==> exists|i: int| 0 <= i < bits@.len() && self.has_flag(bits@[i]),
    ;

    /// May only be called on a state whose invalid flag is clear.
    fn assert_valid(&self)
        requires
            !self.has_flag(StateBits::IsInvalid),
    ;
}

impl StateCheck for State {
    open spec fn has_flag(&self, bit: StateBits) -> bool {
        self.has(bit)
    }

    fn new() -> (s: Self) {
        State {
            is_invalid: false,
            new_dict: false,
            end_dict: false,
            separator: false,
            is_key: false,
            is_value: false,
            key_value_delimiter: false,
            is_str: false,
            is_str_escaped: false,
            word_buffering: false,
            word_complete: false,
        }
    }

    fn start() -> (s: Self) {
        State {
            is_invalid: false,
            new_dict: false,
            end_dict: false,
            separator: false,
            is_key: false,
            is_value: false,
            key_value_delimiter: false,
            is_str: false,
            is_str_escaped: false,
            word_buffering: false,
            word_complete: false,
        }
    }

    fn invalid() -> (s: Self) {
        let s = State {
            is_invalid: true,
            new_dict: false,
            end_dict: false,
            separator: false,
            is_key: false,
            is_value: false,
            key_value_delimiter: false,
            is_str: false,
            is_str_escaped: false,
            word_buffering: false,
            word_complete: false,
        };
        proof {
            assert forall|b: StateBits| s.has(b) <==> b == StateBits::IsInvalid by {
                lemma_bits_exhaustive(b);
            }
        }
        s
    }

    fn on(&mut self, bit: StateBits) {
        match bit {
            StateBits::IsInvalid => self.is_invalid = true,
            StateBits::NewDict => self.new_dict = true,
            StateBits::EndDict => self.end_dict = true,
            StateBits::Separator => self.separator = true,
            StateBits::IsKey => self.is_key = true,
            StateBits::IsValue => self.is_value = true,
            StateBits::KeyValueDelimiter => self.key_value_delimiter = true,
            StateBits::IsStr => self.is_str = true,
            StateBits::IsStrEscaped => self.is_str_escaped = true,
            StateBits::WordBuffering => self.word_buffering = true,
            StateBits::WordComplete => self.word_complete = true,
        }
    }

    fn off(&mut self, bit: StateBits) {
        match bit {
            StateBits::IsInvalid => self.is_invalid = false,
            StateBits::NewDict => self.new_dict = false,
            StateBits::EndDict => self.end_dict = false,
            StateBits::Separator => self.separator = false,
            StateBits::IsKey => self.is_key = false,
            StateBits::IsValue => self.is_value = false,
            StateBits::KeyValueDelimiter => self.key_value_delimiter = false,
            StateBits::IsStr => self.is_str = false,
            StateBits::IsStrEscaped => self.is_str_escaped = false,
            StateBits::WordBuffering => self.word_buffering = false,
            StateBits::WordComplete => self.word_complete = false,
        }
    }

    fn flip(&mut self, bit: StateBits) {
        match bit {
            StateBits::IsInvalid => self.is_invalid = !self.is_invalid,
            StateBits::NewDict => self.new_dict = !self.new_dict,
            StateBits::EndDict => self.end_dict = !self.end_dict,
            StateBits::Separator => self.separator = !self.separator,
            StateBits::IsKey => self.is_key = !self.is_key,
            StateBits::IsValue => self.is_value = !self.is_value,
            StateBits::KeyValueDelimiter => {
                self.key_value_delimiter = !self.key_value_delimiter;
            },
            StateBits::IsStr => self.is_str = !self.is_str,
            StateBits::IsStrEscaped => self.is_str_escaped = !self.is_str_escaped,
            StateBits::WordBuffering => self.word_buffering = !self.word_buffering,
            StateBits::WordComplete => self.word_complete = !self.word_complete,
        }
    }

    fn check(&self, bit: StateBits) -> (r: bool) {
        match bit {
            StateBits::IsInvalid => self.is_invalid,
            StateBits::NewDict => self.new_dict,
            StateBits::EndDict => self.end_dict,
            StateBits::Separator => self.separator,
            StateBits::IsKey => self.is_key,
            StateBits::IsValue => self.is_value,
            StateBits::KeyValueDelimiter => self.key_value_delimiter,
            StateBits::IsStr => self.is_str,
            StateBits::IsStrEscaped => self.is_str_escaped,
            StateBits::WordBuffering => self.word_buffering,
            StateBits::WordComplete => self.word_complete,
        }
    }

    fn is_null(&self) -> (r: bool) {
        let r = !self.is_invalid && !self.new_dict && !self.end_dict && !self.separator
            && !self.is_key && !self.is_value && !self.key_value_delimiter && !self.is_str
            && !self.is_str_escaped && !self.word_buffering && !self.word_complete;
        proof {
            if r {
                assert forall|b: StateBits| !self.has_flag(b) by {
                    lemma_bits_exhaustive(b);
                }
            } else {
                if self.is_invalid {
                    assert(self.has_flag(StateBits::IsInvalid));
                } else if self.new_dict {
                    assert(self.has_flag(StateBits::NewDict));
                } else if self.end_dict {
                    assert(self.has_flag(StateBits::EndDict));
                } else if self.separator {
                    assert(self.has_flag(StateBits::Separator));
                } else if self.is_key {
                    assert(self.has_flag(StateBits::IsKey));
                } else if self.is_value {
                    assert(self.has_flag(StateBits::IsValue));
                } else if self.key_value_delimiter {
                    assert(self.has_flag(StateBits::KeyValueDelimiter));
                } else if self.is_str {
                    assert(self.has_flag(StateBits::IsStr));
                } else if self.is_str_escaped {
                    assert(self.has_flag(StateBits::IsStrEscaped));
                } else if self.word_buffering {
                    assert(self.has_flag(StateBits::WordBuffering));
                } else {
                    assert(self.has_flag(StateBits::WordComplete));
                }
            }
        }
        r
    }

    fn check_and(&self, bits: Vec<StateBits>) -> (r: bool) {
        let mut i: usize = 0;
        while i < bits.len()
            invariant
                0 <= i <= bits@.len(),
                forall|j: int| 0 <= j < i ==> self.has_flag(bits@[j]),
            decreases bits@.len() - i,
        {
            if !self.check(bits[i]) {
                return false;
            }
            i = i + 1;
        }
        true
    }

    fn check_or(&self, bits: Vec<StateBits>) -> (r: bool) {
        let mut i: usize = 0;
        while i < bits.len()
            invariant
                0 <= i <= bits@.len(),
                forall|j: int| 0 <= j < i ==> !self.has_flag(bits@[j]),
            decreases bits@.len() - i,
        {
            if self.check(bits[i]) {
                return true;
            }
            i = i + 1;
        }
        false
    }

    fn assert_valid(&self) {
    }
}

/// Bit-packing of a state into an integer and back.
pub trait StateEncoding: Sized {
    /// The integer this state encodes to.
    spec fn encoding(&self) -> u64;

    /// Packs the state: the or of `2^bit_index` over its set flags.
    fn encode(&self) -> (id: u64)
        ensures
            id == self.encoding(),
            id < 2048,
    ;

    /// Unpacks an encoding below `2^11` into the state it denotes.
    fn decode(id: u64) -> (s: Self)
        requires
            id < 2048,
        ensures
            s.encoding() == id,
    ;
}

impl StateEncoding for State {
    open spec fn encoding(&self) -> u64 {
        encode_spec(*self)
    }

    fn encode(&self) -> (id: u64) {
        let id = (if self.is_invalid { 0x001u64 } else { 0u64 })
            | (if self.new_dict { 0x002u64 } else { 0u64 })
            | (if self.end_dict { 0x004u64 } else { 0u64 })
            | (if self.separator { 0x008u64 } else { 0u64 })
            | (if self.is_key { 0x010u64 } else { 0u64 })
            | (if self.is_value { 0x020u64 } else { 0u64 })
            | (if self.key_value_delimiter { 0x040u64 } else { 0u64 })
            | (if self.is_str { 0x080u64 } else { 0u64 })
            | (if self.is_str_escaped { 0x100u64 } else { 0u64 })
            | (if self.word_buffering { 0x200u64 } else { 0u64 })
            | (if self.word_complete { 0x400u64 } else { 0u64 });
        proof {
            lemma_encode_bound(*self);
        }
        id
    }

    fn decode(id: u64) -> (s: Self) {
        let s = State {
            is_invalid: id & 0x001 != 0,
            new_dict: id & 0x002 != 0,
            end_dict: id & 0x004 != 0,
            separator: id & 0x008 != 0,
            is_key: id & 0x010 != 0,
            is_value: id & 0x020 != 0,
            key_value_delimiter: id & 0x040 != 0,
            is_str: id & 0x080 != 0,
            is_str_escaped: id & 0x100 != 0,
            word_buffering: id & 0x200 != 0,
            word_complete: id & 0x400 != 0,
        };
        proof {
            lemma_decode_encode_roundtrip(id);
        }
        s
    }
}

} // verus!
