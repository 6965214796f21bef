use logic_sim::description::{ChipDescription, ChipLibrary, ChipType, Color, DisplayDescription, PinBitCount, PinDescription, SubChipDescription};
use logic_sim::displays::{can_be_embedded_display, display_entries, is_display_type, resolve_sub_chip, resolve_sub_chip_id, total_input_bits};

fn pin(name: &str, id: i32, bit_count: PinBitCount) -> PinDescription {
    PinDescription { name: name.to_string(), id, bit_count, colour: Color::from_int(0) }
}

fn seg_desc() -> ChipDescription {
    let mut d = ChipDescription::new("7Seg", ChipType::SevenSegmentDisplay);
    for (i, name) in ["A", "B", "C", "D", "E", "F", "G", "COL"].iter().enumerate() {
        d.input_pins.push(pin(name, i as i32, PinBitCount::Bit1));
    }
    d
}

fn sub_chip(name: &str, id: i32, label: Option<&str>) -> SubChipDescription {
    SubChipDescription { name: name.to_string(), id, internal_data: None, label: label.map(|l| l.to_string()), pin_colour_info: vec![] }
}

/// Sub-chips: 7Seg (id 4) at (0, 1), NAND (id 5) at (1, 0); one display placed.
fn sample_draft() -> ChipDescription {
    let mut d = ChipDescription::new("Panel", ChipType::Custom);
    d.sub_chips.push(sub_chip("7Seg", 4, Some("out")));
    d.sub_chips.push(sub_chip("NAND", 5, None));
    d.displays.push(DisplayDescription { sub_chip_id: 4 });
    d
}

/// Positions of the sub-chips in reading order (by x, then y), as the host
/// works it out from their positions.
fn reading_order(draft: &ChipDescription) -> Vec<usize> {
    (0..draft.sub_chips.len()).collect()
}

fn lib_with_seg() -> ChipLibrary {
    let mut lib = ChipLibrary::new();
    lib.add(seg_desc());
    lib
}

#[test]
fn display_entries_lists_only_display_type_subchips_with_labels_and_placed_flags() {
    let mut draft = sample_draft();
    draft.displays.clear(); // start unplaced (sample_draft ships one)
    let library = lib_with_seg();

    let entries = display_entries(&draft, &library, &reading_order(&draft));
    assert_eq!(entries.len(), 1, "the NAND must not appear");
    assert_eq!(entries[0].sub_chip_id, 4);
    assert_eq!(entries[0].label, "out", "instance label wins over chip name");
    assert!(!entries[0].placed);

    let mut placed = draft.clone();
    placed.displays.push(DisplayDescription { sub_chip_id: 4 });
    assert!(display_entries(&placed, &library, &reading_order(&placed))[0].placed);
}

/// A placed *custom* chip that carries displays of its own joins the
/// DISPLAYS list too (the cascade source); a custom chip without any
/// doesn't.
#[test]
fn display_entries_lists_custom_chips_that_carry_displays() {
    let mut draft = sample_draft(); // subchips: 7Seg (id 4), NAND (id 5)
    draft.displays.clear();

    let mut carrying = ChipDescription::new("CARRYING", ChipType::Custom);
    carrying.displays.push(DisplayDescription { sub_chip_id: 99 });
    let plain = ChipDescription::new("PLAIN", ChipType::Custom);

    let mut library = lib_with_seg();
    library.add(carrying);
    library.add(plain);
    draft.sub_chips.push(sub_chip("CARRYING", 6, None));
    draft.sub_chips.push(sub_chip("PLAIN", 7, None));

    let entries = display_entries(&draft, &library, &reading_order(&draft));
    let listed: Vec<_> = entries.iter().map(|e| e.sub_chip_id).collect();
    assert!(listed.contains(&4), "builtin display still listed");
    assert!(listed.contains(&6), "custom-with-displays listed as a cascade source");
    assert!(!listed.contains(&7), "display-less custom not listed");
    assert_eq!(entries.iter().find(|e| e.sub_chip_id == 6).unwrap().chip_type, ChipType::Custom);
}

#[test]
fn entries_follow_the_given_order_and_fall_back_to_the_chip_name() {
    let mut draft = ChipDescription::new("Panel", ChipType::Custom);
    draft.sub_chips.push(sub_chip("7seg", 1, Some("   ")));
    draft.sub_chips.push(sub_chip("7Seg", 2, Some("left")));
    let library = lib_with_seg();
    let entries = display_entries(&draft, &library, &[1, 0, 7]);
    assert_eq!(entries.len(), 2);
    assert_eq!(entries[0].sub_chip_id, 2);
    assert_eq!(entries[1].sub_chip_id, 1);
    assert_eq!(entries[1].label, "7Seg", "a blank label falls back to the chip's name");
}

#[test]
fn only_the_four_builtin_displays_are_display_types() {
    assert!(is_display_type(ChipType::DisplayDot));
    assert!(is_display_type(ChipType::SevenSegmentDisplay));
    assert!(is_display_type(ChipType::DisplayRgb));
    assert!(is_display_type(ChipType::DisplayLed));
    assert!(!is_display_type(ChipType::Clock));
    assert!(!is_display_type(ChipType::Nand));
    assert!(can_be_embedded_display(&seg_desc()));
    assert!(!can_be_embedded_display(&ChipDescription::new("PLAIN", ChipType::Custom)));
}

#[test]
fn display_sub_chips_resolve_through_the_owner_and_library() {
    let draft = sample_draft();
    let library = lib_with_seg();
    assert_eq!(resolve_sub_chip(&draft, 4, &library).map(|c| c.name.as_str()), Some("7Seg"));
    assert!(resolve_sub_chip(&draft, 5, &library).is_none(), "NAND is not in this library");
    assert!(resolve_sub_chip(&draft, 99, &library).is_none());
    assert_eq!(resolve_sub_chip_id(&draft.sub_chips, 4, &library).map(|c| c.chip_type), Some(ChipType::SevenSegmentDisplay));
}

#[test]
fn input_bits_add_up_pin_widths() {
    let mut d = ChipDescription::new("X", ChipType::Custom);
    assert_eq!(total_input_bits(&d), 0);
    d.input_pins.push(pin("A", 0, PinBitCount::Bit1));
    d.input_pins.push(pin("B", 1, PinBitCount::Bit8));
    d.input_pins.push(pin("C", 2, PinBitCount::Bit4));
    assert_eq!(total_input_bits(&d), 13);
}
