use logic_sim::editor_ui::{
    build_chip_library_panel, build_detail_panel, build_key_select_popup, build_simple_naming_popup, build_preferences_panel, build_rom_editor_popup, build_save_chip_popup,
    build_search_popup, build_starred_bottom_bar, build_starred_collection_popup, ChipLibraryState, EditorAction, LibrarySelection, OverlayContent,
    SaveChipMode, ROM_WORD_COUNT,
};
use logic_sim::project::{ChipCollection, ProjectDescription, StarredItem};
use logic_sim::editor_ui::{build_customize_menu, CustomizeInteraction, NameLocation, PALETTE_SIZE};
use logic_sim::displays::DisplayListEntry;
use logic_sim::description::ChipType;

fn sample_desc() -> ProjectDescription {
    ProjectDescription {
        prefs_main_pin_names_display_mode: 1,
        prefs_chip_pin_names_display_mode: 0,
        prefs_grid_display_mode: 1,
        prefs_snapping: 2,
        prefs_straight_wires: 0,
        prefs_sim_paused: true,
        ..Default::default()
    }
}

/// Every text an overlay draws: its captions and its buttons' captions.
fn all_texts(c: &OverlayContent) -> Vec<String> {
    c.captions.iter().cloned().chain(c.buttons.iter().map(|b| b.label.clone())).collect()
}

fn collection(name: &str, open: bool, chips: &[&str]) -> ChipCollection {
    ChipCollection { name: name.to_string(), chips: chips.iter().map(|c| c.to_string()).collect(), is_toggled_open: open }
}

fn sample_library_state<'a>(collections: &'a [ChipCollection], starred: &'a [StarredItem], selection: LibrarySelection) -> ChipLibraryState<'a> {
    ChipLibraryState {
        collections,
        starred_list: starred,
        selection,
        selected_chip_is_custom: true,
        creating_collection: false,
        renaming_collection: false,
        name_field_text: "",
        confirming_chip_delete: false,
        confirming_collection_delete: false,
        delete_confirm_message: "",
    }
}

#[test]
fn preferences_panel_has_one_cycle_button_per_row_plus_apply_and_close() {
    let panel = build_preferences_panel(&sample_desc());
    let cycle_count = panel.buttons.iter().filter(|b| matches!(b.action, EditorAction::CyclePref(_))).count();
    assert_eq!(cycle_count, 6);
    assert!(panel.buttons.iter().any(|b| b.action == EditorAction::ApplyPreferences));
    assert!(panel.buttons.iter().any(|b| b.action == EditorAction::ClosePopup));
}

#[test]
fn preferences_panel_shows_currently_selected_option_text() {
    let panel = build_preferences_panel(&sample_desc());
    // Row 0 is "Show I/O pin names" with mode 1 => "On Hover".
    assert!(all_texts(&panel).iter().any(|t| t == "On Hover"));
    // Row 5 is "Sim status" with prefs_sim_paused = true => "Paused".
    assert!(all_texts(&panel).iter().any(|t| t == "Paused"));
}

#[test]
fn preferences_panel_lists_every_row_in_order_and_marks_unknown_options() {
    let mut d = sample_desc();
    d.prefs_straight_wires = 7;
    d.prefs_snapping = -1;
    let panel = build_preferences_panel(&d);
    let labels: Vec<&str> = panel.buttons.iter().map(|b| b.label.as_str()).collect();
    assert_eq!(labels, vec!["On Hover", "Always", "On", "?", "?", "Paused", "Apply", "Close"]);
    assert_eq!(panel.captions[0], "Preferences");
    assert_eq!(panel.captions.len(), 7);
    assert!(!panel.text_field);
}

#[test]
fn chip_library_panel_only_lists_chips_for_open_collections() {
    let collections = vec![collection("OPEN", true, &["AND", "OR"]), collection("CLOSED", false, &["XOR"])];
    let state = sample_library_state(&collections, &[], LibrarySelection::NoSelection);
    let panel = build_chip_library_panel(&state);

    let select_actions: Vec<_> = panel
        .collections
        .iter()
        .filter_map(|r| if let EditorAction::SelectChipRow { collection, chip } = &r.action { Some((*collection, *chip)) } else { None })
        .collect();
    assert_eq!(select_actions, vec![(0, 0), (0, 1)]);

    let toggle_count = panel.collections.iter().filter(|r| matches!(r.action, EditorAction::SelectCollection(_))).count();
    assert_eq!(toggle_count, 2);
}

#[test]
fn collection_rows_show_open_state_and_selection() {
    let collections = vec![collection("OPEN", true, &["AND", "OR"]), collection("CLOSED", false, &["XOR"])];
    let state = sample_library_state(&collections, &[], LibrarySelection::Chip(0, 1));
    let panel = build_chip_library_panel(&state);
    let labels: Vec<&str> = panel.collections.iter().map(|r| r.label.as_str()).collect();
    assert_eq!(labels, vec!["v OPEN", "AND", "OR", "> CLOSED"]);
    let selected: Vec<bool> = panel.collections.iter().map(|r| r.selected).collect();
    assert_eq!(selected, vec![false, false, true, false]);
}

#[test]
fn starred_rows_bracket_collections_and_mark_the_selection() {
    let starred = vec![StarredItem::new("IN/OUT", true), StarredItem::new("NAND", false)];
    let state = sample_library_state(&[], &starred, LibrarySelection::Starred(1));
    let panel = build_chip_library_panel(&state);
    let labels: Vec<&str> = panel.starred.iter().map(|r| r.label.as_str()).collect();
    assert_eq!(labels, vec!["[IN/OUT]", "NAND"]);
    assert_eq!(panel.starred[1].action, EditorAction::SelectStarredRow(1));
    assert!(!panel.starred[0].selected && panel.starred[1].selected);
}

#[test]
fn chip_library_panel_shows_open_and_delete_for_the_selected_chip() {
    let collections = vec![collection("OPEN", true, &["AND"])];
    let state = sample_library_state(&collections, &[], LibrarySelection::Chip(0, 0));
    let panel = build_chip_library_panel(&state);
    let open_btn = panel.detail.buttons.iter().find(|b| b.action == EditorAction::OpenSelectedChip("AND".to_string())).unwrap();
    assert!(open_btn.enabled);
    let delete_btn = panel.detail.buttons.iter().find(|b| b.action == EditorAction::RequestDeleteChip("AND".to_string())).unwrap();
    assert!(delete_btn.enabled);
}

#[test]
fn chip_library_star_button_reads_add_or_remove_depending_on_starred_state() {
    let collections = vec![collection("OPEN", true, &["AND"])];
    let starred = vec![StarredItem::new("AND", false)];
    let state = sample_library_state(&collections, &starred, LibrarySelection::Chip(0, 0));
    let panel = build_chip_library_panel(&state);
    assert!(panel.detail.buttons.iter().any(|b| b.action == EditorAction::ToggleStarred { name: "AND".to_string(), is_collection: false }));
    assert!(all_texts(&panel.detail).iter().any(|t| t == "REMOVE FROM STARRED"));

    let unstarred = sample_library_state(&collections, &[], LibrarySelection::Chip(0, 0));
    assert_eq!(build_detail_panel(&unstarred).buttons[0].label, "ADD TO STARRED");
}

#[test]
fn chip_library_move_buttons_disabled_at_the_ends_of_a_collection() {
    let collections = vec![collection("OPEN", true, &["AND", "OR"])];
    let state = sample_library_state(&collections, &[], LibrarySelection::Chip(0, 0));
    let panel = build_chip_library_panel(&state);
    let up = panel.detail.buttons.iter().find(|b| b.action == EditorAction::MoveSelectedStep(false)).unwrap();
    assert!(!up.enabled, "first chip in the only collection can't move up or jump");
    let down = panel.detail.buttons.iter().find(|b| b.action == EditorAction::MoveSelectedStep(true)).unwrap();
    assert!(down.enabled, "second chip in the collection is still below it");
}

#[test]
fn chip_detail_jump_buttons_follow_the_neighbouring_collections() {
    let collections = vec![collection("A", true, &["AND"]), collection("B", true, &["OR"]), collection("C", true, &[])];
    let state = sample_library_state(&collections, &[], LibrarySelection::Chip(1, 0));
    let detail = build_detail_panel(&state);
    let labels: Vec<&str> = detail.buttons.iter().map(|b| b.label.as_str()).collect();
    assert_eq!(
        labels,
        vec!["ADD TO STARRED", "MOVE UP", "MOVE DOWN", "JUMP UP", "JUMP DOWN", "OPEN", "DELETE", "NEW COLLECTION", "EXIT LIBRARY"]
    );
    assert!(detail.buttons.iter().all(|b| b.enabled));
    assert_eq!(detail.captions, vec!["B".to_string(), "OR".to_string()]);
}

#[test]
fn builtin_chips_cannot_be_opened_or_deleted() {
    let collections = vec![collection("A", true, &["AND"])];
    let mut state = sample_library_state(&collections, &[], LibrarySelection::Chip(0, 0));
    state.selected_chip_is_custom = false;
    let detail = build_detail_panel(&state);
    assert!(!detail.buttons.iter().find(|b| b.label == "OPEN").unwrap().enabled);
    assert!(!detail.buttons.iter().find(|b| b.label == "DELETE").unwrap().enabled);
}

#[test]
fn the_other_collection_cannot_be_renamed_or_deleted() {
    let collections = vec![collection("Basic", false, &[]), collection("other", false, &[])];
    let state = sample_library_state(&collections, &[], LibrarySelection::Collection(1));
    let detail = build_detail_panel(&state);
    let labels: Vec<&str> = detail.buttons.iter().map(|b| b.label.as_str()).collect();
    assert_eq!(labels, vec!["ADD TO STARRED", "MOVE UP", "MOVE DOWN", "RENAME", "DELETE", "NEW COLLECTION", "EXIT LIBRARY"]);
    let enabled: Vec<bool> = detail.buttons.iter().map(|b| b.enabled).collect();
    assert_eq!(enabled, vec![true, true, false, false, false, true, true]);

    let basic = sample_library_state(&collections, &[], LibrarySelection::Collection(0));
    let enabled: Vec<bool> = build_detail_panel(&basic).buttons.iter().map(|b| b.enabled).collect();
    assert_eq!(enabled, vec![true, false, true, true, true, true, true]);
}

#[test]
fn starred_collection_rows_offer_no_open_or_delete() {
    let starred = vec![StarredItem::new("IN/OUT", true), StarredItem::new("NAND", false)];
    let state = sample_library_state(&[], &starred, LibrarySelection::Starred(0));
    let labels: Vec<String> = build_detail_panel(&state).buttons.iter().map(|b| b.label.clone()).collect();
    assert_eq!(labels, vec!["REMOVE FROM STARRED", "MOVE UP", "MOVE DOWN", "NEW COLLECTION", "EXIT LIBRARY"]);

    let chip = sample_library_state(&[], &starred, LibrarySelection::Starred(1));
    let detail = build_detail_panel(&chip);
    assert_eq!(detail.buttons[0].action, EditorAction::ToggleStarred { name: "NAND".to_string(), is_collection: false });
    assert!(detail.buttons.iter().any(|b| b.action == EditorAction::OpenSelectedChip("NAND".to_string())));
    assert!(!detail.buttons.iter().find(|b| b.label == "MOVE DOWN").unwrap().enabled);
}

#[test]
fn a_selection_past_the_lists_shows_nothing() {
    let collections = vec![collection("A", true, &["AND"])];
    let state = sample_library_state(&collections, &[], LibrarySelection::Chip(0, 3));
    let detail = build_detail_panel(&state);
    assert!(detail.buttons.is_empty() && detail.captions.is_empty() && !detail.text_field);
}

#[test]
fn chip_library_new_collection_footer_shows_a_text_field_when_creating() {
    let state =
        ChipLibraryState { creating_collection: true, name_field_text: "My Collection", ..sample_library_state(&[], &[], LibrarySelection::NoSelection) };
    let panel = build_chip_library_panel(&state);
    assert!(panel.detail.text_field);
    let confirm = panel.detail.buttons.iter().find(|b| b.action == EditorAction::ConfirmCollectionName).unwrap();
    assert!(confirm.enabled);
    assert_eq!(confirm.label, "CREATE");
}

#[test]
fn renaming_a_collection_needs_a_name_that_is_not_blank() {
    let state = ChipLibraryState { renaming_collection: true, name_field_text: " \t ", ..sample_library_state(&[], &[], LibrarySelection::NoSelection) };
    let detail = build_detail_panel(&state);
    let confirm = detail.buttons.iter().find(|b| b.action == EditorAction::ConfirmCollectionName).unwrap();
    assert_eq!(confirm.label, "RENAME");
    assert!(!confirm.enabled);
}

#[test]
fn chip_library_delete_confirmation_hides_the_normal_detail_buttons() {
    let collections = vec![collection("OPEN", true, &["AND"])];
    let state = ChipLibraryState {
        confirming_chip_delete: true,
        delete_confirm_message: "Are you sure?",
        ..sample_library_state(&collections, &[], LibrarySelection::Chip(0, 0))
    };
    let panel = build_chip_library_panel(&state);
    assert!(panel.detail.buttons.iter().any(|b| b.action == EditorAction::ConfirmDelete));
    assert!(panel.detail.buttons.iter().any(|b| b.action == EditorAction::CancelLibraryPopup));
    assert!(!panel.detail.buttons.iter().any(|b| matches!(b.action, EditorAction::OpenSelectedChip(_))));
    assert_eq!(panel.detail.captions, vec!["Are you sure?".to_string()]);
}

fn names(list: &[&str]) -> Vec<String> {
    list.iter().map(|s| s.to_string()).collect()
}

#[test]
fn search_popup_filters_case_insensitively() {
    let popup = build_search_popup(&names(&["AND", "OR", "NAND"]), "an");
    let shown: Vec<_> = popup.buttons.iter().filter_map(|b| if let EditorAction::UseChip(n) = &b.action { Some(n.clone()) } else { None }).collect();
    assert_eq!(shown, vec!["AND".to_string(), "NAND".to_string()]);
}

#[test]
fn search_popup_with_empty_query_lists_everything() {
    let popup = build_search_popup(&names(&["AND", "OR"]), "");
    assert_eq!(popup.buttons.len(), 2);
    assert!(popup.text_field);
}

#[test]
fn search_popup_shows_a_message_when_nothing_matches() {
    let popup = build_search_popup(&names(&["AND"]), "zzz");
    assert!(popup.buttons.iter().all(|b| !matches!(b.action, EditorAction::UseChip(_))));
    assert!(all_texts(&popup).iter().any(|t| t.contains("No matching")));
}

#[test]
fn simple_naming_popup_exposes_a_text_field_and_respects_confirm_enabled() {
    let popup = build_simple_naming_popup("Rename", false);
    assert!(popup.text_field);
    let confirm = popup.buttons.iter().find(|b| b.action == EditorAction::ConfirmName).unwrap();
    assert!(!confirm.enabled);

    let popup_ok = build_simple_naming_popup("Rename", true);
    let confirm_ok = popup_ok.buttons.iter().find(|b| b.action == EditorAction::ConfirmName).unwrap();
    assert!(confirm_ok.enabled);
    assert_eq!(popup_ok.captions, vec!["Rename".to_string()]);
    assert!(build_simple_naming_popup("", true).captions.is_empty());
}

#[test]
fn key_select_popup_disables_confirm_until_a_key_is_chosen() {
    let popup_none = build_key_select_popup(None);
    let confirm_none = popup_none.buttons.iter().find(|b| b.action == EditorAction::ConfirmKey).unwrap();
    assert!(!confirm_none.enabled);
    assert!(!popup_none.text_field);

    let popup_some = build_key_select_popup(Some('Q'));
    let confirm_some = popup_some.buttons.iter().find(|b| b.action == EditorAction::ConfirmKey).unwrap();
    assert!(confirm_some.enabled);
    assert!(all_texts(&popup_some).iter().any(|t| t == "Q"));
}

#[test]
fn rom_editor_has_one_selectable_cell_per_word() {
    let data = vec![0u32; ROM_WORD_COUNT];
    let popup = build_rom_editor_popup(&data, 0);
    let cell_count = popup.buttons.iter().filter(|b| matches!(b.action, EditorAction::RomSelectCell(_))).count();
    assert_eq!(cell_count, ROM_WORD_COUNT);
    assert!(popup.buttons.iter().any(|b| b.action == EditorAction::RomApply));
    assert!(popup.buttons.iter().any(|b| b.action == EditorAction::ClosePopup));
    assert!(popup.text_field);
}

#[test]
fn rom_editor_shows_selected_cells_value_in_its_text_field() {
    let mut data = vec![0u32; ROM_WORD_COUNT];
    data[5] = 1234;
    let popup = build_rom_editor_popup(&data, 5);
    assert!(all_texts(&popup).iter().any(|t| t.contains("1234")));
    assert!(all_texts(&popup).iter().any(|t| t.contains("Address 5")));
}

#[test]
fn rom_editor_address_is_decimal_then_two_digit_hex() {
    let popup = build_rom_editor_popup(&[7, 8], 5);
    assert_eq!(popup.captions[1], "Address 5 (0x05)");
    assert_eq!(build_rom_editor_popup(&[], 171).captions[1], "Address 171 (0xAB)");
    assert_eq!(build_rom_editor_popup(&[], 9999).captions[1], "Address 255 (0xFF)");
    // Words past the end of the data read as 0; the first button is Set.
    assert_eq!(popup.buttons[0].action, EditorAction::RomConfirmCell);
    assert_eq!(popup.buttons[1].label, "7");
    assert_eq!(popup.buttons[2].label, "8");
    assert_eq!(popup.buttons[3].label, "0");
    assert_eq!(popup.buttons.len(), ROM_WORD_COUNT + 3);
}

#[test]
fn save_chip_mode_save_shows_single_confirm_button() {
    let popup = build_save_chip_popup("Full Adder", "Full Adder", SaveChipMode::Save);
    assert!(popup.buttons.iter().any(|b| b.action == EditorAction::SaveChipConfirm));
    assert!(!popup.buttons.iter().any(|b| matches!(b.action, EditorAction::SaveChipSaveAs | EditorAction::SaveChipRename)));
    assert_eq!(popup.captions, vec!["Save chip (currently: Full Adder)".to_string()]);
}

#[test]
fn save_chip_mode_save_as_or_rename_shows_both_options() {
    let popup = build_save_chip_popup("Full Adder", "Full Adder 2", SaveChipMode::SaveAsOrRename);
    assert!(popup.buttons.iter().any(|b| b.action == EditorAction::SaveChipSaveAs));
    assert!(popup.buttons.iter().any(|b| b.action == EditorAction::SaveChipRename));
    assert!(popup.buttons.iter().any(|b| b.action == EditorAction::ClosePopup));
    assert_eq!(popup.captions[1], "Name changed -- keep both, or rename?");
}

#[test]
fn save_chip_replace_mode_confirms_over_the_other_chip() {
    let popup = build_save_chip_popup("Full Adder", "AND", SaveChipMode::Replace);
    let labels: Vec<&str> = popup.buttons.iter().map(|b| b.label.as_str()).collect();
    assert_eq!(labels, vec!["Replace", "Cancel"]);
    assert_eq!(popup.buttons[0].action, EditorAction::SaveChipConfirm);
    assert_eq!(popup.captions[1], "A different chip already has this name.");
}

#[test]
fn save_chip_confirm_disabled_for_empty_name() {
    let popup = build_save_chip_popup("Full Adder", "", SaveChipMode::Save);
    let confirm = popup.buttons.iter().find(|b| b.action == EditorAction::SaveChipConfirm).unwrap();
    assert!(!confirm.enabled);
    let blank = build_save_chip_popup("Full Adder", "   ", SaveChipMode::SaveAsOrRename);
    assert!(!blank.buttons[0].enabled && !blank.buttons[1].enabled && blank.buttons[2].enabled);
}

#[test]
fn starred_bottom_bar_has_one_button_per_starred_item() {
    let starred = vec![StarredItem::new("AND", false), StarredItem::new("Basics", true)];
    let bar = build_starred_bottom_bar(&starred, None, true);
    assert!(bar.iter().any(|b| b.action == EditorAction::OpenSelectedChip("AND".to_string())));
    assert!(bar.iter().any(|b| b.action == EditorAction::ToggleStarredCollectionPopup("Basics".to_string())));
}

#[test]
fn starred_bottom_bar_marks_the_open_collection() {
    let starred = vec![StarredItem::new("AND", false), StarredItem::new("Basics", true), StarredItem::new("More", true)];
    let bar = build_starred_bottom_bar(&starred, Some("Basics"), true);
    let labels: Vec<&str> = bar.iter().map(|b| b.label.as_str()).collect();
    assert_eq!(labels, vec!["AND", "Basics v", "More v"]);
    let open: Vec<bool> = bar.iter().map(|b| b.open).collect();
    assert_eq!(open, vec![false, true, false]);
    // A chip with the open collection's name is not marked.
    let same_name = build_starred_bottom_bar(&[StarredItem::new("Basics", false)], Some("Basics"), true);
    assert!(!same_name[0].open);
}

#[test]
fn starred_bottom_bar_buttons_disabled_when_not_editable() {
    let starred = vec![StarredItem::new("AND", false)];
    let bar = build_starred_bottom_bar(&starred, None, false);
    assert!(bar.iter().all(|b| !b.enabled));
}

#[test]
fn starred_collection_popup_has_one_button_per_chip() {
    let collection = collection("Basics", false, &["AND", "OR", "NOT"]);
    // The rows that fit between the top of an 800-pixel window and the bar.
    let visible_rows = ((800.0f32 - 44.0 - 4.0 - 4.0) / 30.0).floor() as usize;
    let buttons = build_starred_collection_popup(&collection, visible_rows, true);
    let names: Vec<_> = buttons.iter().filter_map(|b| if let EditorAction::OpenSelectedChip(n) = &b.action { Some(n.clone()) } else { None }).collect();
    assert_eq!(names, vec!["AND".to_string(), "OR".to_string(), "NOT".to_string()]);
}

#[test]
fn starred_collection_popup_stops_at_the_rows_that_fit() {
    let collection = collection("Basics", false, &["AND", "OR", "NOT"]);
    let buttons = build_starred_collection_popup(&collection, 2, false);
    let labels: Vec<&str> = buttons.iter().map(|b| b.label.as_str()).collect();
    assert_eq!(labels, vec!["AND", "OR"]);
    assert!(buttons.iter().all(|b| !b.enabled));
}

fn entry(id: i32, label: &str, placed: bool) -> DisplayListEntry {
    DisplayListEntry { sub_chip_id: id, label: label.to_string(), chip_type: ChipType::DisplayLed, placed }
}

#[test]
fn customize_menu_lists_hint_buttons_swatches_and_rows() {
    let entries = vec![entry(3, "LED", false), entry(5, "Screen", true)];
    let menu = build_customize_menu(CustomizeInteraction::Idle, NameLocation::Top, &entries);
    assert_eq!(
        menu.captions,
        vec![
            "Customize chip".to_string(),
            "Drag a corner bracket to resize.".to_string(),
            "Pick a display below -- click a placed one to remove it.".to_string(),
            "DISPLAYS (2)".to_string()
        ]
    );
    let labels: Vec<&str> = menu.buttons.iter().map(|b| b.label.as_str()).collect();
    assert_eq!(&labels[..4], &["Cancel", "Confirm", "Name: Top", "Force chip caching"]);
    assert_eq!(menu.buttons.len(), 4 + PALETTE_SIZE + 2);
    assert_eq!(menu.buttons[4 + 7].action, EditorAction::CustomizePickColour(7));
    assert_eq!(labels[4 + PALETTE_SIZE], "LED");
    assert_eq!(labels[5 + PALETTE_SIZE], "Screen  (placed)");
    assert_eq!(menu.buttons[5 + PALETTE_SIZE].action, EditorAction::CustomizePlaceEntry(1));
    assert!(menu.buttons.iter().all(|b| b.enabled));
    assert!(menu.text_field);
}

#[test]
fn customize_rows_wait_while_something_is_grabbed() {
    let entries = vec![entry(3, "LED", false)];
    let menu = build_customize_menu(CustomizeInteraction::MovingDisplay, NameLocation::Middle, &entries);
    assert_eq!(menu.captions[1], "Click to drop \u{b7} Delete removes");
    assert!(!menu.buttons.last().unwrap().enabled);
    assert!(menu.buttons[0].enabled);
    let empty = build_customize_menu(CustomizeInteraction::Resizing, NameLocation::Hidden, &[]);
    assert_eq!(empty.captions.last().unwrap(), "Place a display component first");
    assert_eq!(empty.captions[3], "DISPLAYS (0)");
    assert_eq!(empty.buttons[2].label, "Name: Hidden");
}
