//! The state a simulated pin carries: a logic value per bit (up to 16 bits)
//! and, per bit, whether that bit is disconnected (tri-stated). It is held
//! as one word, the bit values in the low half and the disconnected flags
//! in the high half.
use vstd::prelude::*;
use crate::pin_values::LogicState;

verus! {

/// A pin's state as one word: bit `i` of the low half is the value of bit
/// `i`, bit `i` of the high half says that bit `i` is disconnected.
#[derive(Debug, Clone, Copy, PartialEq, Eq, Structural, Default)]
pub struct PinState {
    pub raw: u32,
}

/// The bit values.
pub open spec fn bits_of(s: PinState) -> u32 {
    s.raw & 0xFFFF
}

/// The disconnected flags.
pub open spec fn flags_of(s: PinState) -> u32 {
    s.raw >> 16
}

/// The state with bit values `bits` and disconnected flags `flags` (each
/// cut to 16 bits).
pub open spec fn parts(bits: u32, flags: u32) -> PinState {
    PinState { raw: (bits & 0xFFFF) | (flags << 16) }
}

/// Its first bit reads high.
pub open spec fn high_first_bit(s: PinState) -> bool {
    s.raw & 1 == 1
}

/// A single connected bit, high or low.
pub open spec fn of_bool(b: bool) -> PinState {
    PinState { raw: if b { 1 } else { 0 } }
}

/// `len`-wide field (its mask `mask`, `2^len - 1`) starting at bit `start`,
/// of values and flags alike.
pub open spec fn field_of(s: PinState, start: u32, mask: u32) -> PinState {
    parts((bits_of(s) >> start) & mask, (flags_of(s) >> start) & mask)
}

/// Bit `i`'s value as a logic level: disconnected when its flag is set,
/// else high or low.
pub open spec fn bit_level(s: PinState, i: u32) -> LogicState {
    if (flags_of(s) >> i) & 1 == 1 {
        LogicState::Disconnected
    } else if (bits_of(s) >> i) & 1 == 1 {
        LogicState::High
    } else {
        LogicState::Low
    }
}

impl PinState {
    /// All bits low and connected.
    pub fn low() -> (s: Self)
        ensures
            s == of_bool(false),
    {
        PinState { raw: 0 }
    }

    /// The first bit high, every other bit low, all connected.
    pub fn high() -> (s: Self)
        ensures
            s == of_bool(true),
    {
        PinState { raw: 1 }
    }

    /// The first bit disconnected (its value low).
    pub fn off() -> (s: Self)
        ensures
            s == parts(0, 1),
    {
        assert((0u32 & 0xFFFF) | (1u32 << 16) == 0x10000u32) by (bit_vector);
        PinState { raw: 0x10000 }
    }

    /// Every bit disconnected (values low).
    pub fn disconnected() -> (s: Self)
        ensures
            s == parts(0, 0xFFFF),
    {
        assert((0u32 & 0xFFFF) | (0xFFFFu32 << 16) == 0xFFFF0000u32) by (bit_vector);
        PinState { raw: 0xFFFF0000 }
    }

    /// A single connected bit with value `b`.
    pub fn from_bool(b: bool) -> (s: Self)
        ensures
            s == of_bool(b),
    {
        PinState { raw: if b { 1 } else { 0 } }
    }

    /// The state whose word is `raw`.
    pub fn from_raw(raw: u32) -> (s: Self)
        ensures
            s.raw == raw,
    {
        PinState { raw }
    }

    /// The state with bit values `bits` and disconnected flags `flags`.
    pub fn from_parts(bits: u32, flags: u32) -> (s: Self)
        ensures
            s == parts(bits, flags),
    {
        PinState { raw: (bits & 0xFFFF) | (flags << 16) }
    }

    /// The bit values.
    pub fn bit_states(self) -> (b: u32)
        ensures
            b == bits_of(self),
    {
        self.raw & 0xFFFF
    }

    /// The disconnected flags.
    pub fn tristate_flags(self) -> (f: u32)
        ensures
            f == flags_of(self),
    {
        self.raw >> 16
    }

    /// Whether the first bit reads high.
    pub fn first_bit_high(self) -> (b: bool)
        ensures
            b == high_first_bit(self),
    {
        self.raw & 1 == 1
    }

    /// The field of width `mask`'s bit count starting at bit `start`, values
    /// and flags alike, moved down to bit 0.
    pub fn extract(self, start: u32, mask: u32) -> (s: Self)
        requires
            start < 16,
        ensures
            s == field_of(self, start, mask),
    {
        Self::from_parts((self.bit_states() >> start) & mask, (self.tristate_flags() >> start) & mask)
    }

    /// Bitwise OR of the two states, values and flags alike: a bit reads
    /// high where either does, and is flagged where either is.
    pub fn or(self, other: Self) -> (s: Self)
        ensures
            s.raw == self.raw | other.raw,
    {
        PinState { raw: self.raw | other.raw }
    }

    /// Bitwise AND of the two states, values and flags alike: a bit reads
    /// high where both do, and is flagged where both are.
    pub fn and(self, other: Self) -> (s: Self)
        ensures
            s.raw == self.raw & other.raw,
    {
        PinState { raw: self.raw & other.raw }
    }

    /// Bit `i`'s logic level.
    pub fn bit_logic_state(self, i: u32) -> (l: LogicState)
        requires
            i < 16,
        ensures
            l == bit_level(self, i),
    {
        if (self.tristate_flags() >> i) & 1 == 1 {
            LogicState::Disconnected
        } else if (self.bit_states() >> i) & 1 == 1 {
            LogicState::High
        } else {
            LogicState::Low
        }
    }
}

} // verus!
