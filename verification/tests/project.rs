use logic_sim::description::{library_with_builtins, ChipDescription, ChipLibrary, ChipType, Color, PinBitCount, PinDescription};
use logic_sim::project::{can_open_project, sort_newest_first, Project, ProjectDescription};

fn saved_at(name: &str, stamp: &str) -> ProjectDescription {
    let mut d = ProjectDescription::default();
    d.project_name = name.to_string();
    d.last_save_time = stamp.to_string();
    d
}

#[test]
fn project_list_is_newest_first() {
    let list = vec![
        saved_at("A", "2024-01-01T00:00:00.000Z"),
        saved_at("B", "2025-06-01T00:00:00.000Z"),
        saved_at("C", "2024-06-01T00:00:00.000Z"),
    ];
    let names: Vec<String> = sort_newest_first(list).into_iter().map(|d| d.project_name).collect();
    assert_eq!(names, ["B", "C", "A"]);
}

#[test]
fn mixed_offsets_sort_by_the_instant_and_garbage_sorts_last() {
    let list = vec![
        saved_at("Garbage", "yesterday"),
        saved_at("Local", "2024-01-01T14:30:00.000+02:00"),
        saved_at("Utc", "2024-01-01T12:00:00.000Z"),
    ];
    let names: Vec<String> = sort_newest_first(list).into_iter().map(|d| d.project_name).collect();
    assert_eq!(names, ["Local", "Utc", "Garbage"]);
}

#[test]
fn compatibility_follows_the_earliest_compatible_version() {
    let mut d = ProjectDescription::default();
    d.dls_version_earliest_compatible = "2.1.6".to_string();
    assert_eq!(can_open_project(&d), Ok(()));
    d.dls_version_earliest_compatible = "2.1.7".to_string();
    assert_eq!(can_open_project(&d), Err("This project requires version 2.1.7 or later.".to_string()));
    d.dls_version_earliest_compatible = "".to_string();
    assert_eq!(can_open_project(&d), Err("Unrecognized project format".to_string()));
}

#[test]
fn adding_a_custom_chip_updates_the_name_list() {
    let mut library = ChipLibrary::new();
    library.add(ChipDescription::new("NAND", ChipType::Nand));
    let mut p = Project::new(ProjectDescription::default(), library);
    p.add_or_update_custom_chip(ChipDescription::new("AND", ChipType::Custom));
    p.add_or_update_custom_chip(ChipDescription::new("and", ChipType::Custom));
    p.add_or_update_custom_chip(ChipDescription::new("OR", ChipType::Custom));
    assert_eq!(p.chip_library.chips.len(), 3);
    assert_eq!(p.description.all_custom_chip_names, ["and", "OR"]);
}

#[test]
fn projects_saved_at_the_same_instant_keep_their_order() {
    let list = vec![
        saved_at("First", "2024-01-01T12:00:00.000Z"),
        saved_at("Newest", "2024-03-01T12:00:00.000Z"),
        saved_at("Second", "2024-01-01T14:00:00.000+02:00"),
        saved_at("Third", "2024-01-01T12:00:00Z"),
    ];
    let names: Vec<String> = sort_newest_first(list).into_iter().map(|d| d.project_name).collect();
    assert_eq!(names, ["Newest", "First", "Second", "Third"]);
}

#[test]
fn a_chip_added_to_the_library_is_what_its_name_finds() {
    let mut library = ChipLibrary::new();
    library.add(ChipDescription::new("NAND", ChipType::Nand));
    library.add(ChipDescription::new("Adder", ChipType::Custom));
    let mut replacement = ChipDescription::new("ADDER", ChipType::Custom);
    replacement.dls_version = Some("2.1.6".to_string());
    library.add(replacement.clone());
    assert_eq!(library.try_get("adder"), Some(&replacement));
    assert_eq!(library.try_get("nand").map(|c| c.chip_type), Some(ChipType::Nand), "other names are unaffected");
    assert_eq!(library.chips.len(), 2);
    assert!(library.try_get("OR").is_none());
}

#[test]
fn custom_chips_shadow_builtins_ignoring_case() {
    let customs = vec![ChipDescription::new("nand", ChipType::Custom), ChipDescription::new("Adder", ChipType::Custom)];
    let builtins = vec![ChipDescription::new("NAND", ChipType::Nand), ChipDescription::new("CLOCK", ChipType::Clock)];
    let library = library_with_builtins(customs, builtins);
    assert_eq!(library.try_get("NAND").unwrap().chip_type, ChipType::Custom);
    assert_eq!(library.try_get("nand").unwrap().name, "nand");
    assert_eq!(library.try_get("clock").unwrap().chip_type, ChipType::Clock);
    assert_eq!(library.try_get("ADDER").unwrap().name, "Adder");
    assert!(library.try_get("Register").is_none());
    let names: Vec<&str> = library.chips.iter().map(|c| c.name.as_str()).collect();
    assert_eq!(names, vec!["nand", "Adder", "CLOCK"]);
}

#[test]
fn a_later_custom_chip_of_the_same_name_wins() {
    let mut second = ChipDescription::new("ADDER", ChipType::Custom);
    second.dls_version = Some("2.1.6".to_string());
    let library = library_with_builtins(vec![ChipDescription::new("Adder", ChipType::Custom), second], Vec::new());
    assert_eq!(library.chips.len(), 1);
    assert_eq!(library.try_get("adder").unwrap().dls_version.as_deref(), Some("2.1.6"));
}

fn builtin_nand() -> ChipDescription {
    let mut nand = ChipDescription::new("NAND", ChipType::Nand);
    nand.input_pins.push(PinDescription { name: "A".to_string(), id: 0, bit_count: PinBitCount::Bit1, colour: Color { index: 0 } });
    nand.input_pins.push(PinDescription { name: "B".to_string(), id: 1, bit_count: PinBitCount::Bit1, colour: Color { index: 0 } });
    nand
}

#[test]
fn load_project_includes_builtins_and_custom_chips() {
    let mut custom = ChipDescription::new("MY GATE", ChipType::Custom);
    custom.input_pins.push(PinDescription { name: "A".to_string(), id: 0, bit_count: PinBitCount::Bit1, colour: Color { index: 0 } });
    let library = library_with_builtins(vec![custom], vec![builtin_nand()]);
    assert!(library.try_get("my gate").is_some());
    assert!(library.try_get("nand").is_some(), "builtins should still be present");
}

#[test]
fn custom_chip_shadows_builtin_of_the_same_name() {
    let mut custom = ChipDescription::new("NAND", ChipType::Custom);
    custom.input_pins.push(PinDescription { name: "MyInput".to_string(), id: 0, bit_count: PinBitCount::Bit1, colour: Color { index: 0 } });
    let library = library_with_builtins(vec![custom], vec![builtin_nand()]);
    let nand = library.try_get("NAND").unwrap();
    assert_eq!(nand.chip_type, ChipType::Custom);
    assert_eq!(nand.input_pins[0].name, "MyInput");
}
