use logic_sim::description::PinBitCount;
use logic_sim::pin_values::{dev_pin_value_text, logic_state_from_high, pin_value_text, AllLow, LogicState, PinStateLookup, ValueDisplayMode};

/// Reports each bit of pin 0 from a raw bitmask -- enough to exercise
/// the value formatting below.
struct Bits(u32);
impl PinStateLookup for Bits {
    fn is_high(&self, _owner: i32, _pin: i32) -> Option<bool> {
        Some(self.0 & 1 == 1)
    }
    fn bit_logic_state(&self, _owner: i32, _pin: i32, bit_index: u32) -> Option<LogicState> {
        Some(if (self.0 >> bit_index) & 1 == 1 { LogicState::High } else { LogicState::Low })
    }
}

#[test]
fn dev_pin_value_formats_each_display_mode() {
    assert_eq!(dev_pin_value_text(&Bits(0b1010), 0, PinBitCount::Bit4, ValueDisplayMode::Decimal), "10");
    assert_eq!(dev_pin_value_text(&Bits(0b1010), 0, PinBitCount::Bit4, ValueDisplayMode::SignedDecimal), "-6");
    assert_eq!(dev_pin_value_text(&Bits(0b1111), 0, PinBitCount::Bit4, ValueDisplayMode::SignedDecimal), "-1");
    assert_eq!(dev_pin_value_text(&Bits(0b0011), 0, PinBitCount::Bit4, ValueDisplayMode::SignedDecimal), "3");
    assert_eq!(dev_pin_value_text(&Bits(0xFF), 0, PinBitCount::Bit8, ValueDisplayMode::Hex), "FF");
    assert_eq!(dev_pin_value_text(&Bits(1), 0, PinBitCount::Bit1, ValueDisplayMode::Decimal), "", "1-bit pins never show a value");
    assert_eq!(dev_pin_value_text(&Bits(7), 0, PinBitCount::Bit8, ValueDisplayMode::Off), "");
}

#[test]
fn signed_values_wrap_at_the_pins_own_width() {
    assert_eq!(pin_value_text(128, PinBitCount::Bit8, ValueDisplayMode::SignedDecimal), "-128");
    assert_eq!(pin_value_text(127, PinBitCount::Bit8, ValueDisplayMode::SignedDecimal), "127");
    assert_eq!(pin_value_text(8, PinBitCount::Bit4, ValueDisplayMode::SignedDecimal), "-8");
    assert_eq!(pin_value_text(200, PinBitCount::Bit8, ValueDisplayMode::Decimal), "200");
    assert_eq!(pin_value_text(10, PinBitCount::Bit4, ValueDisplayMode::Hex), "A");
}

/// Bits above the pin's width are never read, and disconnected bits read as 0.
struct HighAndFloating;
impl PinStateLookup for HighAndFloating {
    fn is_high(&self, _owner: i32, _pin: i32) -> Option<bool> {
        None
    }
    fn bit_logic_state(&self, _owner: i32, _pin: i32, bit_index: u32) -> Option<LogicState> {
        match bit_index {
            0 => Some(LogicState::High),
            1 => Some(LogicState::Disconnected),
            2 => None,
            _ => Some(LogicState::High),
        }
    }
}

#[test]
fn disconnected_and_unknown_bits_read_as_zero() {
    assert_eq!(dev_pin_value_text(&HighAndFloating, 3, PinBitCount::Bit4, ValueDisplayMode::Decimal), "9");
    assert_eq!(dev_pin_value_text(&AllLow, 3, PinBitCount::Bit8, ValueDisplayMode::Hex), "0");
}

#[test]
fn the_default_lookups_derive_from_is_high() {
    assert_eq!(AllLow.logic_state(1, 2), Some(LogicState::Low));
    assert_eq!(AllLow.bit_logic_state(1, 2, 5), Some(LogicState::Low));
    assert_eq!(AllLow.internal_state(1), None);
}

#[test]
fn a_first_bit_reads_high_low_or_not_simulated() {
    assert_eq!(logic_state_from_high(Some(true)), Some(LogicState::High));
    assert_eq!(logic_state_from_high(Some(false)), Some(LogicState::Low));
    assert_eq!(logic_state_from_high(None), None);
}
