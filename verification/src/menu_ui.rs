//! What the startup screen shows and offers: for each screen of the main
//! menu its captions, the rows of the project list and its buttons
//! (caption, action, whether it can be clicked), and the same for the
//! popup over it. Where they go on screen, and in which colours, is the
//! host's part.
use vstd::prelude::*;
use crate::menu::{new_project_name_ok, selected_is_openable, selected_of, MainMenu, MenuScreen, PopupKind};
use crate::project::{can_open_project, open_verdict, texts, ProjectDescription};
use crate::settings::FullScreenMode;
use crate::text::{is_blank, trimmed};
use crate::timestamp::{relative_time_since, relative_time_text};

verus! {

/// Something a click on the startup screen asks the host to do.
#[derive(Debug, Clone, Copy, PartialEq, Eq, Structural)]
pub enum UiAction {
    NewProject,
    OpenProjectScreen,
    SettingsScreen,
    AboutScreen,
    Quit,
    BackToMain,
    /// Select row `.0` of the project list.
    SelectProject(usize),
    OpenSelected,
    RenameSelected,
    DuplicateSelected,
    DeleteSelected,
    RefreshProjects,
    PopupConfirm,
    PopupCancel,
    ToggleVsync,
    CycleFullscreenMode,
    ApplySettings,
}

/// A button as the host draws it: caption, action, whether it can be
/// clicked.
pub type MenuButtonView = (Seq<char>, UiAction, bool);

/// One button of the startup screen.
#[derive(Debug, Clone, PartialEq, Eq)]
pub struct MenuButton {
    pub label: String,
    pub action: UiAction,
    pub enabled: bool,
}

impl View for MenuButton {
    type V = MenuButtonView;

    open spec fn view(&self) -> MenuButtonView {
        (self.label@, self.action, self.enabled)
    }
}

/// A row of the project list as the host draws it: caption, action,
/// whether this build can open the project, whether it is selected.
pub type ProjectRowView = (Seq<char>, UiAction, bool, bool);

/// One row of the project list.
#[derive(Debug, Clone, PartialEq, Eq)]
pub struct ProjectRow {
    pub label: String,
    pub action: UiAction,
    /// This build can open the project (otherwise the row is drawn as a
    /// warning).
    pub compatible: bool,
    pub selected: bool,
}

impl View for ProjectRow {
    type V = ProjectRowView;

    open spec fn view(&self) -> ProjectRowView {
        (self.label@, self.action, self.compatible, self.selected)
    }
}

/// The captions, project rows and buttons of one screen.
#[derive(Debug, Clone, PartialEq, Eq)]
pub struct MenuContent {
    /// The title first, then any other texts, in drawing order.
    pub captions: Vec<String>,
    pub rows: Vec<ProjectRow>,
    pub buttons: Vec<MenuButton>,
}

/// `buttons` as the host draws them.
pub open spec fn menu_button_views(buttons: Seq<MenuButton>) -> Seq<MenuButtonView> {
    buttons.map_values(|b: MenuButton| b@)
}

/// `rows` as the host draws them.
pub open spec fn project_row_views(rows: Seq<ProjectRow>) -> Seq<ProjectRowView> {
    rows.map_values(|r: ProjectRow| r@)
}

impl View for MenuContent {
    type V = (Seq<Seq<char>>, Seq<ProjectRowView>, Seq<MenuButtonView>);

    open spec fn view(&self) -> (Seq<Seq<char>>, Seq<ProjectRowView>, Seq<MenuButtonView>) {
        (texts(self.captions@), project_row_views(self.rows@), menu_button_views(self.buttons@))
    }
}

proof fn lemma_texts_push(v: Seq<String>, s: String)
    ensures
        texts(v.push(s)) == texts(v).push(s@),
{
    assert(texts(v.push(s)) =~= texts(v).push(s@));
}

fn push_caption(captions: &mut Vec<String>, text: &str)
    ensures
        texts(final(captions)@) == texts(old(captions)@).push(text@),
{
    let s = text.to_string();
    proof {
        lemma_texts_push(captions@, s);
    }
    captions.push(s);
}

fn push_owned_caption(captions: &mut Vec<String>, text: String)
    ensures
        texts(final(captions)@) == texts(old(captions)@).push(text@),
{
    proof {
        lemma_texts_push(captions@, text);
    }
    captions.push(text);
}

fn push_button(buttons: &mut Vec<MenuButton>, label: &str, action: UiAction, enabled: bool)
    ensures
        menu_button_views(final(buttons)@) == menu_button_views(old(buttons)@).push((label@, action, enabled)),
{
    let b = MenuButton { label: label.to_string(), action, enabled };
    proof {
        assert(menu_button_views(buttons@.push(b)) =~= menu_button_views(buttons@).push(b@));
    }
    buttons.push(b);
}

/// The name `{:?}` prints for a full-screen mode.
pub open spec fn mode_name(m: FullScreenMode) -> Seq<char> {
    match m {
        FullScreenMode::ExclusiveFullScreen => "ExclusiveFullScreen"@,
        FullScreenMode::FullScreenWindow => "FullScreenWindow"@,
        FullScreenMode::MaximizedWindow => "MaximizedWindow"@,
        FullScreenMode::Windowed => "Windowed"@,
    }
}

fn mode_label(m: FullScreenMode) -> (s: &'static str)
    ensures
        s@ == mode_name(m),
{
    match m {
        FullScreenMode::ExclusiveFullScreen => "ExclusiveFullScreen",
        FullScreenMode::FullScreenWindow => "FullScreenWindow",
        FullScreenMode::MaximizedWindow => "MaximizedWindow",
        FullScreenMode::Windowed => "Windowed",
    }
}

/// Row `i` of the project list, `now_secs` being the current unix time:
/// the project's name, then how long ago it was saved, or that its version
/// is incompatible when this build cannot open it.
pub open spec fn project_row(p: ProjectDescription, i: int, selected: Option<usize>, now_secs: int) -> ProjectRowView {
    let compatible = open_verdict(p.dls_version_earliest_compatible@) is Ok;
    (
        if compatible {
            p.project_name@ + "   (saved "@ + relative_time_text(p.last_save_time@, now_secs) + ")"@
        } else {
            p.project_name@ + "   (incompatible project version)"@
        },
        UiAction::SelectProject(i as usize),
        compatible,
        selected == Some(i as usize),
    )
}

/// The screen shown by `m` at unix time `now_secs`: the main screen's five
/// entries; the project list with Open, Rename and Duplicate (enabled for
/// a selected project this build can open), Delete (enabled while a row is
/// selected) and Back; the settings with their current values, Apply and
/// Back; or About with Back.
pub open spec fn menu_screen_view(m: MainMenu, now_secs: int) -> (Seq<Seq<char>>, Seq<ProjectRowView>, Seq<MenuButtonView>) {
    match m.screen {
        MenuScreen::Main => (
            seq!["Digital Logic Sim"@],
            seq![],
            seq![
                ("New Project"@, UiAction::NewProject, true),
                ("Open Project"@, UiAction::OpenProjectScreen, true),
                ("Settings"@, UiAction::SettingsScreen, true),
                ("About"@, UiAction::AboutScreen, true),
                ("Quit"@, UiAction::Quit, true),
            ],
        ),
        MenuScreen::LoadProject => {
            let ok = selected_is_openable(m.projects@, m.selected_project_index);
            (
                if m.projects@.len() == 0 {
                    seq!["Load Project"@, "No projects yet -- create one from the main menu."@]
                } else {
                    seq!["Load Project"@]
                },
                Seq::new(m.projects@.len(), |i: int| project_row(m.projects@[i], i, m.selected_project_index, now_secs)),
                seq![
                    ("Open"@, UiAction::OpenSelected, ok),
                    ("Rename"@, UiAction::RenameSelected, ok),
                    ("Duplicate"@, UiAction::DuplicateSelected, ok),
                    ("Delete"@, UiAction::DeleteSelected, m.selected_project_index is Some),
                    ("Back"@, UiAction::BackToMain, true),
                ],
            )
        },
        MenuScreen::Settings => (
            seq!["Settings"@],
            seq![],
            seq![
                ("VSync: "@ + (if m.edited_settings.vsync_enabled { "On"@ } else { "Off"@ }), UiAction::ToggleVsync, true),
                ("Fullscreen: "@ + mode_name(m.edited_settings.fullscreen_mode), UiAction::CycleFullscreenMode, true),
                ("Apply"@, UiAction::ApplySettings, true),
                ("Back"@, UiAction::BackToMain, true),
            ],
        ),
        MenuScreen::About => (seq!["About"@], seq![], seq![("Back"@, UiAction::BackToMain, true)]),
    }
}

fn project_rows(menu: &MainMenu, now_secs: i64) -> (rows: Vec<ProjectRow>)
    ensures
        project_row_views(rows@) == Seq::new(
            menu.projects@.len(),
            |i: int| project_row(menu.projects@[i], i, menu.selected_project_index, now_secs as int),
        ),
{
    let mut rows: Vec<ProjectRow> = Vec::new();
    let mut i: usize = 0;
    while i < menu.projects.len()
        invariant
            i <= menu.projects@.len(),
            project_row_views(rows@) == Seq::new(
                i as nat,
                |k: int| project_row(menu.projects@[k], k, menu.selected_project_index, now_secs as int),
            ),
        decreases menu.projects.len() - i,
    {
        let p = &menu.projects[i];
        let compatible = can_open_project(p).is_ok();
        let mut label = p.project_name.clone();
        if compatible {
            label.append("   (saved ");
            let ago = relative_time_since(p.last_save_time.as_str(), now_secs);
            label.append(ago.as_str());
            label.append(")");
        } else {
            label.append("   (incompatible project version)");
        }
        let selected = match menu.selected_project_index {
            Some(s) => s == i,
            None => false,
        };
        let row = ProjectRow { label, action: UiAction::SelectProject(i), compatible, selected };
        assert(row@ == project_row(menu.projects@[i as int], i as int, menu.selected_project_index, now_secs as int));
        proof {
            assert(project_row_views(rows@.push(row)) =~= project_row_views(rows@).push(row@));
        }
        rows.push(row);
        assert(project_row_views(rows@) =~= Seq::new(
            (i + 1) as nat,
            |k: int| project_row(menu.projects@[k], k, menu.selected_project_index, now_secs as int),
        ));
        i = i + 1;
    }
    rows
}

/// What the current screen of `menu` shows and offers, `now_secs` being
/// the current unix time (the project list says how long ago each project
/// was saved).
pub fn build_screen(menu: &MainMenu, now_secs: i64) -> (r: MenuContent)
    ensures
        r@ == menu_screen_view(*menu, now_secs as int),
{
    let mut captions: Vec<String> = Vec::new();
    let mut buttons: Vec<MenuButton> = Vec::new();
    match menu.screen {
        MenuScreen::Main => {
            push_caption(&mut captions, "Digital Logic Sim");
            push_button(&mut buttons, "New Project", UiAction::NewProject, true);
            push_button(&mut buttons, "Open Project", UiAction::OpenProjectScreen, true);
            push_button(&mut buttons, "Settings", UiAction::SettingsScreen, true);
            push_button(&mut buttons, "About", UiAction::AboutScreen, true);
            push_button(&mut buttons, "Quit", UiAction::Quit, true);
            proof {
                assert(project_row_views(Seq::<ProjectRow>::empty()) =~= Seq::<ProjectRowView>::empty());
            }
            MenuContent { captions, rows: Vec::new(), buttons }
        },
        MenuScreen::LoadProject => {
            push_caption(&mut captions, "Load Project");
            if menu.projects.len() == 0 {
                push_caption(&mut captions, "No projects yet -- create one from the main menu.");
            }
            let rows = project_rows(menu, now_secs);
            let ok = menu.can_act_on_selected_compatible_project();
            push_button(&mut buttons, "Open", UiAction::OpenSelected, ok);
            push_button(&mut buttons, "Rename", UiAction::RenameSelected, ok);
            push_button(&mut buttons, "Duplicate", UiAction::DuplicateSelected, ok);
            push_button(&mut buttons, "Delete", UiAction::DeleteSelected, menu.selected_project_index.is_some());
            push_button(&mut buttons, "Back", UiAction::BackToMain, true);
            MenuContent { captions, rows, buttons }
        },
        MenuScreen::Settings => {
            push_caption(&mut captions, "Settings");
            let mut vsync = "VSync: ".to_string();
            vsync.append(if menu.edited_settings.vsync_enabled { "On" } else { "Off" });
            let b = MenuButton { label: vsync, action: UiAction::ToggleVsync, enabled: true };
            proof {
                assert(menu_button_views(buttons@.push(b)) =~= menu_button_views(buttons@).push(b@));
            }
            buttons.push(b);
            let mut fs = "Fullscreen: ".to_string();
            fs.append(mode_label(menu.edited_settings.fullscreen_mode));
            let b = MenuButton { label: fs, action: UiAction::CycleFullscreenMode, enabled: true };
            proof {
                assert(menu_button_views(buttons@.push(b)) =~= menu_button_views(buttons@).push(b@));
            }
            buttons.push(b);
            push_button(&mut buttons, "Apply", UiAction::ApplySettings, true);
            push_button(&mut buttons, "Back", UiAction::BackToMain, true);
            proof {
                assert(project_row_views(Seq::<ProjectRow>::empty()) =~= Seq::<ProjectRowView>::empty());
            }
            MenuContent { captions, rows: Vec::new(), buttons }
        },
        MenuScreen::About => {
            push_caption(&mut captions, "About");
            push_button(&mut buttons, "Back", UiAction::BackToMain, true);
            proof {
                assert(project_row_views(Seq::<ProjectRow>::empty()) =~= Seq::<ProjectRowView>::empty());
            }
            MenuContent { captions, rows: Vec::new(), buttons }
        },
    }
}

/// The title of each popup.
pub open spec fn popup_title(k: PopupKind) -> Seq<char> {
    match k {
        PopupKind::NewProject => "New Project"@,
        PopupKind::RenameProject => "Rename Project"@,
        PopupKind::DuplicateProject => "Duplicate Project"@,
        PopupKind::DeleteConfirmation => "Delete Project?"@,
        PopupKind::NoPopup => seq![],
    }
}

/// The popups that ask for a name.
pub open spec fn asks_for_name(k: PopupKind) -> bool {
    k == PopupKind::NewProject || k == PopupKind::RenameProject || k == PopupKind::DuplicateProject
}

/// The typed name passes the popup's own check: a new project's name must
/// be acceptable; the other popups check nothing here.
pub open spec fn popup_name_ok(m: MainMenu, text: Seq<char>) -> bool {
    m.popup != PopupKind::NewProject || new_project_name_ok(m.projects@, text)
}

/// The popup over the startup screen, with `text` typed into its field:
/// nothing when no popup is open; otherwise its title, then for a name
/// popup a warning once a typed name fails the check, or for the delete
/// confirmation the name of the project to delete; Confirm (enabled for a
/// name popup only when the name passes and is not blank) and Cancel. The
/// last component says whether it has a text field.
pub open spec fn menu_popup_view(m: MainMenu, text: Seq<char>) -> (Seq<Seq<char>>, Seq<MenuButtonView>, bool) {
    if m.popup == PopupKind::NoPopup {
        (seq![], seq![], false)
    } else {
        let named = asks_for_name(m.popup);
        let detail: Seq<Seq<char>> = if named {
            if !popup_name_ok(m, text) && text.len() > 0 { seq!["Invalid or already-used name"@] } else { seq![] }
        } else {
            match selected_of(m.projects@, m.selected_project_index) {
                Some(p) => seq!["Delete '"@ + p.project_name@ + "'? A backup copy will be kept."@],
                None => seq![],
            }
        };
        let confirm = !named || (popup_name_ok(m, text) && trimmed(text).len() > 0);
        (
            seq![popup_title(m.popup)] + detail,
            seq![("Confirm"@, UiAction::PopupConfirm, confirm), ("Cancel"@, UiAction::PopupCancel, true)],
            named,
        )
    }
}

/// The captions, buttons and text field of the popup over the startup
/// screen.
#[derive(Debug, Clone, PartialEq, Eq)]
pub struct MenuPopup {
    pub captions: Vec<String>,
    pub buttons: Vec<MenuButton>,
    pub text_field: bool,
}

impl View for MenuPopup {
    type V = (Seq<Seq<char>>, Seq<MenuButtonView>, bool);

    open spec fn view(&self) -> (Seq<Seq<char>>, Seq<MenuButtonView>, bool) {
        (texts(self.captions@), menu_button_views(self.buttons@), self.text_field)
    }
}

/// What the popup over the startup screen shows and offers, with
/// `text_input` typed into its field.
pub fn build_popup_frame(menu: &MainMenu, text_input: &str) -> (r: MenuPopup)
    ensures
        r@ == menu_popup_view(*menu, text_input@),
{
    let mut captions: Vec<String> = Vec::new();
    let mut buttons: Vec<MenuButton> = Vec::new();
    let (title, named) = match menu.popup {
        PopupKind::NoPopup => {
            proof {
                assert(texts(captions@) =~= Seq::<Seq<char>>::empty());
                assert(menu_button_views(buttons@) =~= Seq::<MenuButtonView>::empty());
            }
            return MenuPopup { captions, buttons, text_field: false };
        },
        PopupKind::NewProject => ("New Project", true),
        PopupKind::RenameProject => ("Rename Project", true),
        PopupKind::DuplicateProject => ("Duplicate Project", true),
        PopupKind::DeleteConfirmation => ("Delete Project?", false),
    };
    push_caption(&mut captions, title);
    let ghost head = texts(captions@);
    let name_ok = match menu.popup {
        PopupKind::NewProject => menu.is_valid_new_project_name(text_input),
        _ => true,
    };
    if named {
        if !name_ok && !text_input.is_empty() {
            push_caption(&mut captions, "Invalid or already-used name");
        }
    } else {
        match menu.selected_project() {
            Some(p) => {
                let mut msg = "Delete '".to_string();
                msg.append(p.project_name.as_str());
                msg.append("'? A backup copy will be kept.");
                push_owned_caption(&mut captions, msg);
            },
            None => {},
        }
    }
    let confirm = !named || (name_ok && !is_blank(text_input));
    push_button(&mut buttons, "Confirm", UiAction::PopupConfirm, confirm);
    push_button(&mut buttons, "Cancel", UiAction::PopupCancel, true);
    let r = MenuPopup { captions, buttons, text_field: named };
    assert(r@.0 =~= menu_popup_view(*menu, text_input@).0);
    r
}

} // verus!
