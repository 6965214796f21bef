use logic_sim::menu::{MainMenu, MenuScreen, PopupKind};
use logic_sim::menu_ui::{build_popup_frame, build_screen, UiAction};
use logic_sim::paths::SavePaths;
use logic_sim::project::ProjectDescription;
use logic_sim::settings::FullScreenMode;

fn menu() -> MainMenu {
    MainMenu::new(SavePaths::new("/tmp/logic-sim-menu-ui"))
}

fn project(name: &str, earliest: &str, saved: &str) -> ProjectDescription {
    let mut d = ProjectDescription::default();
    d.project_name = name.to_string();
    d.dls_version_earliest_compatible = earliest.to_string();
    d.last_save_time = saved.to_string();
    d
}

/// 2024-01-01T12:00:00Z in unix seconds.
const NOON_NEW_YEAR_2024: i64 = 1_704_110_400;

#[test]
fn main_screen_offers_the_five_entries() {
    let content = build_screen(&menu(), 0);
    assert_eq!(content.captions, vec!["Digital Logic Sim".to_string()]);
    let labels: Vec<&str> = content.buttons.iter().map(|b| b.label.as_str()).collect();
    assert_eq!(labels, vec!["New Project", "Open Project", "Settings", "About", "Quit"]);
    let actions: Vec<UiAction> = content.buttons.iter().map(|b| b.action).collect();
    assert_eq!(
        actions,
        vec![UiAction::NewProject, UiAction::OpenProjectScreen, UiAction::SettingsScreen, UiAction::AboutScreen, UiAction::Quit]
    );
    assert!(content.rows.is_empty() && content.buttons.iter().all(|b| b.enabled));
}

#[test]
fn empty_project_list_says_so_and_disables_the_toolbar() {
    let mut m = menu();
    m.choose_open_project(Vec::new());
    let content = build_screen(&m, NOON_NEW_YEAR_2024);
    assert_eq!(content.captions, vec!["Load Project".to_string(), "No projects yet -- create one from the main menu.".to_string()]);
    let enabled: Vec<(String, bool)> = content.buttons.iter().map(|b| (b.label.clone(), b.enabled)).collect();
    assert_eq!(
        enabled,
        vec![
            ("Open".to_string(), false),
            ("Rename".to_string(), false),
            ("Duplicate".to_string(), false),
            ("Delete".to_string(), false),
            ("Back".to_string(), true)
        ]
    );
}

#[test]
fn project_rows_say_when_each_project_was_saved_or_that_it_is_incompatible() {
    let mut m = menu();
    m.choose_open_project(vec![
        project("Adder", "2.0.0", "2024-01-01T11:00:00.000Z"),
        project("Future", "9.0.0", "2024-01-01T11:00:00.000Z"),
        project("Odd", "2.1.0", "not a time"),
    ]);
    m.select_project(1);
    let content = build_screen(&m, NOON_NEW_YEAR_2024);
    let labels: Vec<&str> = content.rows.iter().map(|r| r.label.as_str()).collect();
    assert_eq!(
        labels,
        vec!["Adder   (saved 1 hour ago)", "Future   (incompatible project version)", "Odd   (saved not a time)"]
    );
    let flags: Vec<(bool, bool)> = content.rows.iter().map(|r| (r.compatible, r.selected)).collect();
    assert_eq!(flags, vec![(true, false), (false, true), (true, false)]);
    assert_eq!(content.rows[2].action, UiAction::SelectProject(2));
    // The selected project cannot be opened here: only Delete and Back work.
    let enabled: Vec<bool> = content.buttons.iter().map(|b| b.enabled).collect();
    assert_eq!(enabled, vec![false, false, false, true, true]);

    m.select_project(0);
    let enabled: Vec<bool> = build_screen(&m, NOON_NEW_YEAR_2024).buttons.iter().map(|b| b.enabled).collect();
    assert_eq!(enabled, vec![true, true, true, true, true]);
}

#[test]
fn settings_screen_shows_the_edited_values() {
    let mut m = menu();
    m.screen = MenuScreen::Settings;
    m.edited_settings.vsync_enabled = false;
    m.edited_settings.fullscreen_mode = FullScreenMode::MaximizedWindow;
    let labels: Vec<String> = build_screen(&m, 0).buttons.iter().map(|b| b.label.clone()).collect();
    assert_eq!(labels, vec!["VSync: Off", "Fullscreen: MaximizedWindow", "Apply", "Back"]);
    m.edited_settings.vsync_enabled = true;
    assert_eq!(build_screen(&m, 0).buttons[0].label, "VSync: On");
}

#[test]
fn about_screen_only_goes_back() {
    let mut m = menu();
    m.screen = MenuScreen::About;
    let content = build_screen(&m, 0);
    assert_eq!(content.captions, vec!["About".to_string()]);
    assert_eq!(content.buttons.len(), 1);
    assert_eq!(content.buttons[0].action, UiAction::BackToMain);
}

#[test]
fn no_popup_shows_nothing() {
    let popup = build_popup_frame(&menu(), "x");
    assert!(popup.captions.is_empty() && popup.buttons.is_empty() && !popup.text_field);
}

#[test]
fn new_project_popup_checks_the_typed_name() {
    let mut m = menu();
    m.choose_new_project(vec![project("Adder", "2.0.0", "")]);
    assert_eq!(m.popup(), PopupKind::NewProject);

    let fresh = build_popup_frame(&m, "Counter");
    assert_eq!(fresh.captions, vec!["New Project".to_string()]);
    assert!(fresh.text_field && fresh.buttons[0].enabled && fresh.buttons[1].enabled);

    let taken = build_popup_frame(&m, "adder");
    assert_eq!(taken.captions, vec!["New Project".to_string(), "Invalid or already-used name".to_string()]);
    assert!(!taken.buttons[0].enabled);

    // Nothing typed yet: no warning, but nothing to confirm either.
    let empty = build_popup_frame(&m, "");
    assert_eq!(empty.captions.len(), 1);
    assert!(!empty.buttons[0].enabled);
}

#[test]
fn rename_popup_only_needs_a_name_that_is_not_blank() {
    let mut m = menu();
    m.choose_open_project(vec![project("Adder", "2.0.0", "")]);
    m.select_project(0);
    m.request_rename_selected();
    assert_eq!(m.popup(), PopupKind::RenameProject);
    assert!(build_popup_frame(&m, "Adder").buttons[0].enabled);
    assert!(!build_popup_frame(&m, "   ").buttons[0].enabled);
    assert_eq!(build_popup_frame(&m, "   ").captions, vec!["Rename Project".to_string()]);
}

#[test]
fn delete_popup_names_the_project() {
    let mut m = menu();
    m.choose_open_project(vec![project("Adder", "2.0.0", "")]);
    m.select_project(0);
    m.request_delete_selected();
    let popup = build_popup_frame(&m, "");
    assert_eq!(popup.captions, vec!["Delete Project?".to_string(), "Delete 'Adder'? A backup copy will be kept.".to_string()]);
    assert!(!popup.text_field);
    assert!(popup.buttons[0].enabled);
    assert_eq!(popup.buttons[0].action, UiAction::PopupConfirm);
    assert_eq!(popup.buttons[1].action, UiAction::PopupCancel);
}
