use logic_sim::description::{ChipDescription, ChipLibrary, ChipType, Color, PinBitCount, PinDescription, SubChipDescription};
use logic_sim::pin_resolve::{output_pin_colour, resolve_pin_bit_count, resolve_pin_colour};

fn pin(id: i32, bits: PinBitCount, colour: i32) -> PinDescription {
    PinDescription { name: format!("P{id}"), id, bit_count: bits, colour: Color { index: colour } }
}

fn sub(name: &str, id: i32, overrides: Vec<(i32, Color)>) -> SubChipDescription {
    SubChipDescription { name: name.to_string(), id, internal_data: None, label: None, pin_colour_info: overrides }
}

fn library() -> ChipLibrary {
    let mut reg = ChipDescription::new("REG", ChipType::Custom);
    reg.input_pins = vec![pin(0, PinBitCount::Bit4, 3)];
    reg.output_pins = vec![pin(1, PinBitCount::Bit8, 5)];
    let mut lib = ChipLibrary::new();
    lib.add(reg);
    lib
}

fn host() -> ChipDescription {
    let mut chip = ChipDescription::new("HOST", ChipType::Custom);
    chip.input_pins = vec![pin(10, PinBitCount::Bit4, 2)];
    chip.output_pins = vec![pin(20, PinBitCount::Bit8, 6)];
    chip.sub_chips = vec![sub("REG", 7, vec![(1, Color { index: 9 })]), sub("MISSING", 8, Vec::new()), sub("reg", 9, Vec::new())];
    chip
}

#[test]
fn a_sub_chip_output_pin_uses_the_instance_colour_override() {
    let lib = library();
    assert_eq!(resolve_pin_colour(&host(), &lib, 7, 1), Color { index: 9 });
    // Without an override the chip's own pin colour shows.
    assert_eq!(resolve_pin_colour(&host(), &lib, 9, 1), Color { index: 5 });
    assert_eq!(resolve_pin_bit_count(&host(), &lib, 7, 1), PinBitCount::Bit8);
}

#[test]
fn a_sub_chip_input_pin_and_unknown_pins() {
    let lib = library();
    assert_eq!(resolve_pin_colour(&host(), &lib, 7, 0), Color { index: 3 });
    assert_eq!(resolve_pin_bit_count(&host(), &lib, 7, 0), PinBitCount::Bit4);
    assert_eq!(resolve_pin_colour(&host(), &lib, 7, 42), Color { index: 0 });
    assert_eq!(resolve_pin_bit_count(&host(), &lib, 7, 42), PinBitCount::Bit1);
}

#[test]
fn the_chips_own_pins_are_addressed_by_their_id_as_owner() {
    let lib = library();
    assert_eq!(resolve_pin_colour(&host(), &lib, 10, 0), Color { index: 2 });
    assert_eq!(resolve_pin_colour(&host(), &lib, 20, 0), Color { index: 6 });
    assert_eq!(resolve_pin_bit_count(&host(), &lib, 20, 0), PinBitCount::Bit8);
    // A sub-chip whose chip the library lacks is not placed: nothing matches.
    assert_eq!(resolve_pin_colour(&host(), &lib, 8, 0), Color { index: 0 });
    assert_eq!(resolve_pin_bit_count(&host(), &lib, 8, 0), PinBitCount::Bit1);
}

#[test]
fn the_last_sub_chip_with_an_id_is_the_placed_one() {
    let lib = library();
    let mut chip = host();
    chip.sub_chips.push(sub("REG", 7, Vec::new()));
    assert_eq!(resolve_pin_colour(&chip, &lib, 7, 1), Color { index: 5 });
}

#[test]
fn output_pin_colour_prefers_the_first_override() {
    let info = vec![(1, Color { index: 4 }), (1, Color { index: 8 })];
    assert_eq!(output_pin_colour(&info, 1, Color { index: 2 }), Color { index: 4 });
    assert_eq!(output_pin_colour(&info, 3, Color { index: 2 }), Color { index: 2 });
}
