use logic_sim::menu::{MainMenu, MenuOutcome, MenuRequest, MenuScreen, PopupKind};
use logic_sim::paths::SavePaths;
use logic_sim::project::ProjectDescription;
use logic_sim::settings::{AppSettings, FullScreenMode};

fn menu() -> MainMenu {
    MainMenu::new(SavePaths::new("/tmp/logic-sim-menu"))
}

fn project(name: &str, earliest: &str) -> ProjectDescription {
    let mut d = ProjectDescription::default();
    d.project_name = name.to_string();
    d.dls_version_earliest_compatible = earliest.to_string();
    d
}

#[test]
fn on_menu_opened_resets_to_main_screen_with_no_popup_or_selection() {
    let mut menu = menu();
    menu.screen = MenuScreen::Settings;
    menu.popup = PopupKind::DeleteConfirmation;
    menu.selected_project_index = Some(0);

    menu.on_menu_opened();

    assert_eq!(menu.screen(), MenuScreen::Main);
    assert_eq!(menu.popup(), PopupKind::NoPopup);
    assert_eq!(menu.selected_project_index(), None);
}

#[test]
fn back_to_main_clears_screen_and_popup() {
    let mut menu = menu();
    menu.choose_open_project(Vec::new());
    menu.request_delete_selected(); // no-op (nothing selected), just to exercise popup field
    menu.popup = PopupKind::RenameProject;

    menu.back_to_main();

    assert_eq!(menu.screen(), MenuScreen::Main);
    assert_eq!(menu.popup(), PopupKind::NoPopup);
}

#[test]
fn cancel_popup_clears_popup_without_touching_screen() {
    let mut menu = menu();
    menu.screen = MenuScreen::LoadProject;
    menu.popup = PopupKind::DeleteConfirmation;

    menu.cancel_popup();

    assert_eq!(menu.popup(), PopupKind::NoPopup);
    assert_eq!(menu.screen(), MenuScreen::LoadProject);
}

#[test]
fn new_project_names_must_be_valid_short_and_unused() {
    let mut menu = menu();
    menu.choose_new_project(vec![project("Adder", "2.0.0")]);
    assert_eq!(menu.popup(), PopupKind::NewProject);
    assert!(menu.is_valid_new_project_name("Counter"));
    assert!(!menu.is_valid_new_project_name("adder"), "names clash ignoring case");
    assert!(!menu.is_valid_new_project_name("   "));
    assert!(!menu.is_valid_new_project_name("a.b"));
    assert!(!menu.is_valid_new_project_name("NUL"));
    assert!(menu.is_valid_new_project_name("12345678901234567890"));
    assert!(!menu.is_valid_new_project_name("123456789012345678901"), "at most 20 characters");

    assert_eq!(menu.confirm_name_popup("adder"), None);
    assert_eq!(menu.popup(), PopupKind::NewProject, "an invalid name keeps the popup open");
    assert_eq!(menu.confirm_name_popup("Counter"), Some(MenuRequest::CreateOrLoadProject { name: "Counter".to_string() }));
    assert_eq!(menu.popup(), PopupKind::NoPopup);
}

#[test]
fn only_compatible_projects_open_rename_or_duplicate() {
    let mut menu = menu();
    menu.choose_open_project(vec![project("New", "2.0.0"), project("Future", "9.0.0"), project("Odd", "x")]);
    assert_eq!(menu.screen(), MenuScreen::LoadProject);
    assert_eq!(menu.open_selected(), None, "nothing selected yet");

    menu.select_project(0);
    assert_eq!(menu.selected_project_compatibility(), Some(Ok(())));
    assert_eq!(menu.open_selected(), Some(MenuOutcome::OpenProject { name: "New".to_string() }));
    menu.request_rename_selected();
    assert_eq!(menu.popup(), PopupKind::RenameProject);
    assert_eq!(
        menu.confirm_name_popup("Newer"),
        Some(MenuRequest::RenameProject { old_name: "New".to_string(), new_name: "Newer".to_string() })
    );
    menu.projects_changed(vec![project("Newer", "2.0.0"), project("Future", "9.0.0")]);
    assert_eq!(menu.selected_project_index(), Some(0));

    menu.select_project(1);
    assert_eq!(menu.selected_project_compatibility(), Some(Err("This project requires version 9.0.0 or later.".to_string())));
    assert_eq!(menu.open_selected(), None);
    menu.request_duplicate_selected();
    assert_eq!(menu.popup(), PopupKind::NoPopup, "incompatible projects cannot be duplicated");

    menu.select_project(7);
    assert_eq!(menu.selected_project_index(), Some(1), "out-of-range selections are ignored");
}

#[test]
fn an_unreadable_version_is_reported_as_an_unknown_format() {
    let mut menu = menu();
    menu.choose_open_project(vec![project("Odd", "x")]);
    menu.select_project(0);
    assert_eq!(menu.selected_project_compatibility(), Some(Err("Unrecognized project format".to_string())));
}

#[test]
fn deleting_asks_first_then_clears_the_selection() {
    let mut menu = menu();
    menu.choose_open_project(vec![project("A", "2.0.0"), project("B", "2.0.0")]);
    menu.select_project(1);
    menu.request_delete_selected();
    assert_eq!(menu.popup(), PopupKind::DeleteConfirmation);
    assert_eq!(menu.confirm_delete(), Some(MenuRequest::DeleteProject { name: "B".to_string() }));
    menu.project_deleted(vec![project("A", "2.0.0")]);
    assert_eq!(menu.selected_project_index(), None);
    assert_eq!(menu.popup(), PopupKind::NoPopup);
    assert_eq!(menu.projects().len(), 1);
}

#[test]
fn settings_are_edited_then_applied() {
    let mut menu = menu();
    assert_eq!(menu.edited_settings(), AppSettings::default_settings());
    let saved = AppSettings { resolution_x: 800, resolution_y: 600, fullscreen_mode: FullScreenMode::Windowed, vsync_enabled: false };
    menu.choose_settings(saved);
    assert_eq!(menu.screen(), MenuScreen::Settings);
    let mut edited = menu.edited_settings();
    edited.vsync_enabled = true;
    menu.set_edited_settings(edited);
    assert_eq!(menu.apply_settings(), MenuRequest::SaveSettings(edited));
    assert_eq!(menu.choose_quit(), MenuOutcome::Quit);
    menu.choose_about();
    assert_eq!(menu.screen(), MenuScreen::About);
}

#[test]
fn creating_a_project_refreshes_the_list_and_opens_it() {
    let mut menu = menu();
    menu.choose_new_project(Vec::new());
    assert!(matches!(menu.confirm_name_popup("Adder"), Some(MenuRequest::CreateOrLoadProject { ref name }) if name == "Adder"));
    let outcome = menu.project_created(vec![project("Adder", "2.1.6")], "Adder");
    assert_eq!(outcome, MenuOutcome::OpenProject { name: "Adder".to_string() });
    assert_eq!(menu.projects().len(), 1);
    assert_eq!(menu.popup(), PopupKind::NoPopup);
}
