use logic_sim::description::{ChipDescription, ChipType, Color, PinBitCount, PinDescription, SubChipDescription};
use logic_sim::upgrade::{apply_version_changes, get_new_pin_colour, stamp_current_version, update_chip_pre_2_1_5};

fn chip_with_input_colour(index: i32) -> ChipDescription {
    let mut chip = ChipDescription::new("OLD", ChipType::Custom);
    chip.input_pins.push(PinDescription { name: "IN".to_string(), id: 1, bit_count: PinBitCount::Bit1, colour: Color::from_int(index) });
    chip.dls_version = Some("2.1.3".to_string());
    chip
}

fn sub_chip(name: &str, id: i32, internal_data: Option<Vec<u32>>, pin_colour_info: Vec<(i32, Color)>) -> SubChipDescription {
    SubChipDescription { name: name.to_string(), id, internal_data, label: None, pin_colour_info }
}

#[test]
fn orange_shift_moves_every_index_above_zero_up_by_one() {
    for (old, expected) in [(0, 0), (1, 2), (6, 7), (7, 7)] {
        let mut chip = chip_with_input_colour(old.min(6));
        update_chip_pre_2_1_5(&mut chip);
        assert_eq!(chip.input_pins[0].colour.to_int(), if old == 7 { 7 } else { expected }, "old index {old}");
    }
}

#[test]
fn led_without_internal_data_gets_the_default_colour_slot() {
    let mut chip = chip_with_input_colour(0);
    // name match is case-insensitive
    chip.sub_chips.push(sub_chip("led", 1, None, Vec::new()));
    chip.sub_chips.push(sub_chip("LED", 2, Some(Vec::new()), Vec::new()));
    chip.sub_chips.push(sub_chip("NAND", 3, None, Vec::new()));

    update_chip_pre_2_1_5(&mut chip);

    assert_eq!(chip.sub_chips[0].internal_data, Some(vec![0]), "absent data defaults");
    assert_eq!(chip.sub_chips[1].internal_data, Some(vec![0]), "empty data defaults");
    assert_eq!(chip.sub_chips[2].internal_data, None, "non-LED chips are untouched");
}

#[test]
fn output_pin_colour_info_shifts_with_the_palette() {
    let mut chip = chip_with_input_colour(0);
    chip.sub_chips.push(sub_chip("NAND", 1, None, vec![(0, Color::from_int(0)), (1, Color::from_int(3))]));

    update_chip_pre_2_1_5(&mut chip);

    assert_eq!(chip.sub_chips[0].pin_colour_info[0].1.to_int(), 0, "index 0 stays put");
    assert_eq!(chip.sub_chips[0].pin_colour_info[1].1.to_int(), 4, "index 3 shifts past ORANGE");
}

#[test]
fn only_pre_2_1_5_chips_migrate_and_are_restamped() {
    let mut chips = vec![
        chip_with_input_colour(1),
        {
            let mut c = chip_with_input_colour(1);
            c.dls_version = Some("2.1.5".to_string());
            c
        },
        {
            let mut c = chip_with_input_colour(1);
            c.dls_version = Some("garbage".to_string());
            c
        },
        {
            let mut c = chip_with_input_colour(1);
            c.dls_version = None;
            c
        },
    ];

    apply_version_changes(&mut chips);

    assert_eq!(chips[0].input_pins[0].colour.to_int(), 2, "2.1.3 migrates");
    assert_eq!(chips[0].dls_version.as_deref(), Some("2.1.4"));
    assert_eq!(chips[1].input_pins[0].colour.to_int(), 1, "2.1.5+ is already current");
    assert_eq!(chips[1].dls_version.as_deref(), Some("2.1.5"));
    assert_eq!(chips[2].input_pins[0].colour.to_int(), 2, "unparseable falls back to 2.0.0");
    assert_eq!(chips[3].input_pins[0].colour.to_int(), 2, "absent falls back to 2.0.0");
}

/// Reads the parts of a saved chip file that the upgrade looks at.
fn chip_from_json(text: &str) -> Result<ChipDescription, serde_json::Error> {
    let v: serde_json::Value = serde_json::from_str(text)?;
    let mut chip = ChipDescription::new(v["Name"].as_str().unwrap_or(""), ChipType::Custom);
    chip.dls_version = v["DLSVersion"].as_str().map(|s| s.to_string());
    if let Some(pins) = v["InputPins"].as_array() {
        for p in pins {
            chip.input_pins.push(PinDescription {
                name: p["Name"].as_str().unwrap_or("").to_string(),
                id: p["ID"].as_i64().unwrap_or(0) as i32,
                bit_count: match p["BitCount"].as_i64() {
                    Some(4) => PinBitCount::Bit4,
                    Some(8) => PinBitCount::Bit8,
                    _ => PinBitCount::Bit1,
                },
                colour: Color::from_int(p["Colour"].as_i64().unwrap_or(0) as i32),
            });
        }
    }
    Ok(chip)
}

/// Writes a chip file the way a save does: stamped with the running version.
fn chip_to_json(chip: &ChipDescription) -> Result<String, serde_json::Error> {
    let mut stamped = chip.clone();
    stamp_current_version(&mut stamped);
    let mut pins = Vec::new();
    for p in &stamped.input_pins {
        let mut m = serde_json::Map::new();
        m.insert("Name".to_string(), serde_json::Value::from(p.name.clone()));
        m.insert("ID".to_string(), serde_json::Value::from(p.id));
        m.insert("BitCount".to_string(), serde_json::Value::from(p.bit_count.to_int()));
        m.insert("Colour".to_string(), serde_json::Value::from(p.colour.to_int()));
        pins.push(serde_json::Value::Object(m));
    }
    let mut m = serde_json::Map::new();
    m.insert("DLSVersion".to_string(), serde_json::Value::from(stamped.dls_version.clone()));
    m.insert("Name".to_string(), serde_json::Value::from(stamped.name.clone()));
    m.insert("ChipType".to_string(), serde_json::Value::from(0));
    m.insert("InputPins".to_string(), serde_json::Value::Array(pins));
    serde_json::to_string(&serde_json::Value::Object(m))
}

#[test]
fn loaded_old_chips_upgrade_exactly_once_across_a_round_trip() {
    let json = r#"{
        "DLSVersion": "2.1.4",
        "Name": "OLD",
        "NameLocation": 0,
        "ChipType": 0,
        "InputPins": [ { "Name": "IN", "ID": 1, "Position": {"x":0,"y":0}, "BitCount": 1, "Colour": 2 } ]
    }"#;
    let chip = chip_from_json(json).expect("parses");
    let mut chips = vec![chip];
    apply_version_changes(&mut chips);
    let chip = chips.pop().unwrap();

    assert_eq!(chip.input_pins[0].colour.to_int(), 3, "old Yellow(2) -> Green(3)");

    let resaved = chip_to_json(&chip).expect("serializes");
    let reloaded = chip_from_json(&resaved).expect("reloads");
    assert_ne!(reloaded.dls_version.as_deref(), Some("2.1.4"), "resave stamps the current version");
    let mut again = vec![reloaded];
    apply_version_changes(&mut again);
    assert_eq!(again[0].input_pins[0].colour.to_int(), 3, "second pass is a no-op");
}

#[test]
fn new_pin_colour_shifts_only_positive_indices() {
    assert_eq!(get_new_pin_colour(Color::from_int(0)).to_int(), 0);
    assert_eq!(get_new_pin_colour(Color::from_int(-3)).to_int(), -3);
    assert_eq!(get_new_pin_colour(Color::from_int(5)).to_int(), 6);
}

#[test]
fn stamping_writes_the_running_version() {
    let mut chip = chip_with_input_colour(1);
    stamp_current_version(&mut chip);
    assert_eq!(chip.dls_version.as_deref(), Some("2.1.6"));
    let mut chips = vec![chip];
    apply_version_changes(&mut chips);
    assert_eq!(chips[0].input_pins[0].colour.to_int(), 1, "a current chip is not shifted");
}
