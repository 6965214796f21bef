use logic_sim::project::StarredItem;
use logic_sim::ui::{
    contains_text, is_starred, matching_chip_names, ContextMenuAction, ContextMenuItem, Dispatch, InputResult, LayerHit, LayerId,
    StackLayer, UiStack, KEY_SELECT_ALLOWED_CHARS,
};

#[test]
fn key_select_allowed_chars_are_alphanumeric_uppercase() {
    assert!(KEY_SELECT_ALLOWED_CHARS.chars().all(|c| c.is_ascii_alphanumeric() && (c.is_ascii_digit() || c.is_ascii_uppercase())));
}

#[test]
fn overlay_panels_and_menus_take_the_keyboard_but_pointer_surfaces_do_not() {
    for l in [LayerId::Library, LayerId::Search, LayerId::Preferences, LayerId::Naming, LayerId::KeySelect, LayerId::RomEditor, LayerId::SaveChip] {
        assert!(l.is_overlay_panel());
        assert!(l.captures_keyboard());
    }
    for l in [LayerId::MenuScreen, LayerId::MenuPopup, LayerId::ContextMenu] {
        assert!(!l.is_overlay_panel());
        assert!(l.captures_keyboard());
    }
    for l in [LayerId::Canvas, LayerId::BottomBar, LayerId::BottomBarFlyout, LayerId::StatusToast] {
        assert!(!l.is_overlay_panel());
        assert!(!l.captures_keyboard());
    }
    assert_ne!(InputResult::Handled, InputResult::Stop);
}

#[test]
fn context_menu_items_are_enabled_unless_said_otherwise() {
    let open = ContextMenuItem::new("Open", ContextMenuAction::Open);
    assert_eq!(open.label, "Open");
    assert_eq!(open.id, ContextMenuAction::Open);
    assert!(open.enabled);
    let grey = ContextMenuItem::new_enabled("Open", ContextMenuAction::Open, false);
    assert!(!grey.enabled);
}

#[test]
fn starred_lookup_ignores_case_but_not_kind() {
    let starred = vec![StarredItem::new("IN/OUT", true), StarredItem::new("NAND", false)];
    assert!(is_starred(&starred, "nand", false));
    assert!(!is_starred(&starred, "nand", true));
    assert!(is_starred(&starred, "in/out", true));
    assert!(!is_starred(&starred, "AND", false));
}

fn names(list: &[&str]) -> Vec<String> {
    list.iter().map(|s| s.to_string()).collect()
}

#[test]
fn search_keeps_the_library_order_and_lowers_both_sides() {
    let shown = matching_chip_names(&names(&["Nand", "xor", "AND", "Register"]), "AnD");
    assert_eq!(shown, names(&["Nand", "AND"]));
    assert_eq!(matching_chip_names(&names(&["ÄND", "and"]), "Ä"), names(&["ÄND"]));
}

#[test]
fn contains_text_finds_runs_of_characters() {
    assert!(contains_text("register", "gist"));
    assert!(contains_text("abc", ""));
    assert!(contains_text("abc", "abc"));
    assert!(!contains_text("abc", "abcd"));
    assert!(!contains_text("abc", "ac"));
    assert!(contains_text("aab", "ab"));
    assert!(!contains_text("", "a"));
}

fn layer(id: LayerId, has_text_field: bool) -> StackLayer {
    StackLayer { id, has_text_field }
}

fn miss() -> LayerHit {
    LayerHit { button: None, captured: false, in_scroll_region: false }
}

fn editor_stack() -> UiStack {
    let mut stack = UiStack::new();
    stack.push(layer(LayerId::Canvas, false));
    stack.push(layer(LayerId::BottomBar, false));
    stack.push(layer(LayerId::Library, true));
    stack.push(layer(LayerId::StatusToast, false));
    stack
}

#[test]
fn clicks_go_to_the_topmost_layer_that_wants_them() {
    let stack = editor_stack();
    // The library captures the whole screen and the bottom bar has a button under the pointer:
    // the library, being higher, takes the click.
    let hits = [miss(), LayerHit { button: Some(2), ..miss() }, LayerHit { captured: true, ..miss() }, miss()];
    assert_eq!(
        stack.dispatch_click(&hits),
        Dispatch { result: InputResult::Handled, layer: Some(LayerId::Library), button: None, scrolls: false }
    );
    let hits = [miss(), LayerHit { button: Some(2), ..miss() }, miss(), miss()];
    assert_eq!(
        stack.dispatch_click(&hits),
        Dispatch { result: InputResult::Handled, layer: Some(LayerId::BottomBar), button: Some(2), scrolls: false }
    );
    assert_eq!(stack.topmost_button(&hits), Some((LayerId::BottomBar, 2)));
    let nothing = [miss(), miss(), miss(), miss()];
    assert_eq!(stack.dispatch_click(&nothing).result, InputResult::Propagate);
    assert_eq!(stack.dispatch_click(&nothing).layer, None);
    assert_eq!(stack.topmost_button(&nothing), None);
}

#[test]
fn the_wheel_goes_to_scroll_regions_and_capturing_layers() {
    let stack = editor_stack();
    let hits = [miss(), miss(), LayerHit { in_scroll_region: true, captured: true, ..miss() }, miss()];
    let d = stack.dispatch_wheel(&hits);
    assert_eq!(d.layer, Some(LayerId::Library));
    assert!(d.scrolls);
    // A button under the pointer does not take the wheel.
    let hits = [miss(), LayerHit { button: Some(0), ..miss() }, miss(), miss()];
    assert_eq!(stack.dispatch_wheel(&hits).result, InputResult::Propagate);
}

#[test]
fn the_keyboard_goes_to_the_topmost_panel_and_text_fields_stop_it() {
    let stack = editor_stack();
    assert_eq!(stack.keyboard_target(), Some(LayerId::Library));
    assert!(stack.keyboard_stop());
    let mut canvas_only = UiStack::new();
    canvas_only.push(layer(LayerId::Canvas, false));
    canvas_only.push(layer(LayerId::BottomBarFlyout, false));
    assert_eq!(canvas_only.keyboard_target(), None);
    assert!(!canvas_only.keyboard_stop());
    canvas_only.push(layer(LayerId::KeySelect, false));
    assert!(canvas_only.keyboard_stop());
    canvas_only.push(layer(LayerId::ContextMenu, false));
    assert_eq!(canvas_only.keyboard_target(), Some(LayerId::ContextMenu));
    assert!(!canvas_only.keyboard_stop());
}

#[test]
fn popping_stops_at_the_first_layer_the_predicate_refuses() {
    let mut stack = editor_stack();
    assert!(!stack.pop_if_top(|id| id == LayerId::Library));
    assert_eq!(stack.top_id(), Some(LayerId::StatusToast));
    assert!(stack.pop_if_top(|id| id == LayerId::StatusToast));
    assert_eq!(stack.top_id(), Some(LayerId::Library));
    stack.pop_while_top(|id| id != LayerId::Canvas);
    assert_eq!(stack.layers.len(), 1);
    assert_eq!(stack.top_id(), Some(LayerId::Canvas));
    stack.pop_while_top(|_| true);
    assert_eq!(stack.top_id(), None);
    assert!(!stack.pop_if_top(|_| true));
}

#[test]
fn a_layer_with_a_text_field_takes_the_keyboard() {
    let mut stack = UiStack::new();
    stack.push(layer(LayerId::Canvas, false));
    stack.push(layer(LayerId::BottomBarFlyout, true));
    assert_eq!(stack.keyboard_target(), Some(LayerId::BottomBarFlyout));
    assert!(stack.keyboard_stop());
    stack.push(layer(LayerId::StatusToast, false));
    assert_eq!(stack.keyboard_target(), Some(LayerId::BottomBarFlyout));
}
