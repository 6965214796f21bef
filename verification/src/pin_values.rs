//! Live pin values as the editor shows them: the lookup the drawing code
//! queries for a pin's logic level, and the read-out under a multi-bit
//! boundary pin in its display mode.
use vstd::prelude::*;
use crate::description::PinBitCount;
use crate::text::{decimal, hexadecimal, push_decimal, push_hexadecimal, push_signed_decimal, signed_decimal};

verus! {

/// Logic level of one bit of a pin.
#[derive(Debug, Clone, Copy, PartialEq, Eq, Structural)]
pub enum LogicState {
    Low,
    High,
    Disconnected,
}

/// How a multi-bit boundary pin shows its live value.
#[derive(Debug, Clone, Copy, PartialEq, Eq, Structural)]
pub enum ValueDisplayMode {
    /// No read-out.
    Off,
    /// Unsigned decimal.
    Decimal,
    /// Two's-complement decimal across the pin's width.
    SignedDecimal,
    /// Upper-case hexadecimal.
    Hex,
}

/// The logic level a first bit reads as when all that is known of it is
/// whether it is high: `High` or `Low`; `None` when the pin is not
/// simulated.
pub open spec fn level_of(high: Option<bool>) -> Option<LogicState> {
    match high {
        Some(h) => Some(if h { LogicState::High } else { LogicState::Low }),
        None => None,
    }
}

/// The logic level a first bit reads as, from whether it is high.
pub fn logic_state_from_high(high: Option<bool>) -> (r: Option<LogicState>)
    ensures
        r == level_of(high),
{
    match high {
        Some(h) => Some(if h { LogicState::High } else { LogicState::Low }),
        None => None,
    }
}

/// Where the drawing code learns a pin's logic level. Implemented by hosts
/// against a running simulation; `None` means the pin is not simulated.
pub trait PinStateLookup {
    /// Whether the first bit of pin `pin_id` of `pin_owner_id` is high.
    fn is_high(&self, pin_owner_id: i32, pin_id: i32) -> Option<bool>;

    /// Logic level of the pin's first bit; by default derived from
    /// `is_high` (so never `Disconnected`).
    fn logic_state(&self, pin_owner_id: i32, pin_id: i32) -> (r: Option<LogicState>)
        default_ensures
            exists|high: Option<bool>| call_ensures(Self::is_high, (self, pin_owner_id, pin_id), high) && r == level_of(high),
    {
        logic_state_from_high(self.is_high(pin_owner_id, pin_id))
    }

    /// Logic level of bit `bit_index` of the pin; by default the first
    /// bit's, for lookups that cannot tell bits apart.
    fn bit_logic_state(&self, pin_owner_id: i32, pin_id: i32, bit_index: u32) -> (r: Option<LogicState>)
        default_ensures
            call_ensures(Self::logic_state, (self, pin_owner_id, pin_id), r),
    {
        self.logic_state(pin_owner_id, pin_id)
    }

    /// Raw internal state of the simulated sub-chip `owner_id` (the pixel or
    /// segment buffer behind a display); by default unknown, which draws the
    /// display blank.
    fn internal_state(&self, owner_id: i32) -> (r: Option<&[u32]>)
        default_ensures
            r is None,
    {
        None
    }
}

/// A lookup that reports every pin as low: for static previews.
pub struct AllLow;

impl PinStateLookup for AllLow {
    fn is_high(&self, pin_owner_id: i32, pin_id: i32) -> (r: Option<bool>)
        ensures
            r == Some(false),
    {
        Some(false)
    }
}

/// Number of distinct values of a pin of this width.
pub open spec fn value_space(b: PinBitCount) -> nat {
    match b {
        PinBitCount::Bit1 => 2,
        PinBitCount::Bit4 => 16,
        PinBitCount::Bit8 => 256,
    }
}

/// The read-out of a boundary pin of width `b` carrying `raw`, in display
/// mode `mode`: empty for 1-bit pins and when off; otherwise decimal,
/// two's-complement decimal, or upper-case hexadecimal.
pub open spec fn value_text(raw: nat, b: PinBitCount, mode: ValueDisplayMode) -> Seq<char> {
    if b == PinBitCount::Bit1 {
        seq![]
    } else {
        match mode {
            ValueDisplayMode::Off => seq![],
            ValueDisplayMode::Decimal => decimal(raw),
            ValueDisplayMode::SignedDecimal => if raw >= value_space(b) / 2 {
                signed_decimal(raw - value_space(b))
            } else {
                decimal(raw)
            },
            ValueDisplayMode::Hex => hexadecimal(raw),
        }
    }
}

/// The read-out of a boundary pin of width `bit_count` whose bits read as
/// the number `raw`.
pub fn pin_value_text(raw: u32, bit_count: PinBitCount, mode: ValueDisplayMode) -> (s: String)
    ensures
        s@ == value_text(raw as nat, bit_count, mode),
{
    let mut s = String::new();
    let space: u32 = match bit_count {
        PinBitCount::Bit1 => {
            return s;
        },
        PinBitCount::Bit4 => 16,
        PinBitCount::Bit8 => 256,
    };
    match mode {
        ValueDisplayMode::Off => {},
        ValueDisplayMode::Decimal => {
            push_decimal(&mut s, raw as u64);
        },
        ValueDisplayMode::SignedDecimal => {
            if raw >= space / 2 {
                push_signed_decimal(&mut s, raw as i64 - space as i64);
            } else {
                push_decimal(&mut s, raw as u64);
            }
        },
        ValueDisplayMode::Hex => {
            push_hexadecimal(&mut s, raw as u64);
        },
    }
    assert(s@ =~= value_text(raw as nat, bit_count, mode));
    s
}

/// How many bits of a boundary pin of width `b` the read-out reads: none
/// for a 1-bit pin, else all of them.
pub open spec fn read_width(b: PinBitCount) -> nat {
    match b {
        PinBitCount::Bit1 => 0,
        PinBitCount::Bit4 => 4,
        PinBitCount::Bit8 => 8,
    }
}

/// The number whose bit `i` is set exactly when `reads[i]` is `High`
/// (low, disconnected and unknown bits count as 0).
pub open spec fn high_bits_value(reads: Seq<Option<LogicState>>) -> nat
    decreases reads.len(),
{
    if reads.len() == 0 {
        0
    } else {
        high_bits_value(reads.drop_last()) + if reads.last() == Some(LogicState::High) {
            vstd::arithmetic::power2::pow2((reads.len() - 1) as nat)
        } else {
            0
        }
    }
}

proof fn lemma_high_bits_value_bound(reads: Seq<Option<LogicState>>)
    ensures
        high_bits_value(reads) < vstd::arithmetic::power2::pow2(reads.len()),
    decreases reads.len(),
{
    if reads.len() > 0 {
        lemma_high_bits_value_bound(reads.drop_last());
        vstd::arithmetic::power2::lemma_pow2_unfold(reads.len());
    } else {
        vstd::arithmetic::power2::lemma2_to64();
    }
}

/// The live value read-out of the boundary pin `pin_id`, in display mode
/// `mode`: the lookup is asked for bit `i` of pin 0 of owner `pin_id`, for
/// each bit of the pin's width, and bit `i` counts `2^i` when reported high
/// (disconnected and unknown bits read as 0). Empty for 1-bit pins (which
/// read nothing) and when off.
pub fn dev_pin_value_text<L: PinStateLookup>(pin_state: &L, pin_id: i32, bit_count: PinBitCount, mode: ValueDisplayMode) -> (s: String)
    ensures
        bit_count == PinBitCount::Bit1 || mode == ValueDisplayMode::Off ==> s@.len() == 0,
        exists|reads: Seq<Option<LogicState>>| {
            &&& reads.len() == read_width(bit_count)
            &&& forall|i: int| 0 <= i < reads.len()
                ==> call_ensures(L::bit_logic_state, (pin_state, pin_id, 0i32, i as u32), #[trigger] reads[i])
            &&& s@ == value_text(high_bits_value(reads), bit_count, mode)
        },
{
    let bit_width: u32 = match bit_count {
        PinBitCount::Bit1 => {
            let s = String::new();
            assert(s@ == value_text(high_bits_value(Seq::empty()), bit_count, mode));
            return s;
        },
        PinBitCount::Bit4 => 4,
        PinBitCount::Bit8 => 8,
    };
    let mut raw: u32 = 0;
    let mut weight: u32 = 1;
    let mut bit_index: u32 = 0;
    let ghost mut reads: Seq<Option<LogicState>> = Seq::empty();
    proof {
        vstd::arithmetic::power2::lemma2_to64();
    }
    while bit_index < bit_width
        invariant
            bit_width == read_width(bit_count),
            bit_width == 4 || bit_width == 8,
            bit_index <= bit_width,
            weight == vstd::arithmetic::power2::pow2(bit_index as nat),
            reads.len() == bit_index,
            raw == high_bits_value(reads),
            forall|i: int| 0 <= i < reads.len()
                ==> call_ensures(L::bit_logic_state, (pin_state, pin_id, 0i32, i as u32), #[trigger] reads[i]),
        decreases bit_width - bit_index,
    {
        proof {
            vstd::arithmetic::power2::lemma_pow2_unfold((bit_index + 1) as nat);
            vstd::arithmetic::power2::lemma_pow2_strictly_increases(bit_index as nat, bit_width as nat);
            vstd::arithmetic::power2::lemma2_to64();
            lemma_high_bits_value_bound(reads);
        }
        let read = pin_state.bit_logic_state(pin_id, 0, bit_index);
        proof {
            let next = reads.push(read);
            assert(next.drop_last() =~= reads);
            assert(next.last() == read);
            reads = next;
        }
        match read {
            Some(LogicState::High) => {
                raw = raw + weight;
            },
            _ => {},
        }
        weight = weight * 2;
        bit_index = bit_index + 1;
    }
    proof {
        vstd::arithmetic::power2::lemma2_to64();
        lemma_high_bits_value_bound(reads);
    }
    let s = pin_value_text(raw, bit_count, mode);
    s
}

} // verus!
