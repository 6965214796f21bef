//! The startup screen: which screen and popup are shown, which project is
//! selected, the validation rules for project names, and the requests the
//! host performs on disk (create, open, rename, duplicate, delete, save
//! settings) as the player confirms them.
use vstd::prelude::*;
use crate::file_names::is_valid_file_name;
use crate::paths::SavePaths;
use crate::project::{can_open_project, open_verdict, ProjectDescription};
use crate::settings::AppSettings;
use crate::text::{eq_ignore_ascii_case, trimmed};

verus! {

/// Top-level screen of the startup flow.
#[derive(Debug, Clone, Copy, PartialEq, Eq, Structural)]
pub enum MenuScreen {
    Main,
    LoadProject,
    Settings,
    About,
}

/// Modal popup over the current screen.
#[derive(Debug, Clone, Copy, PartialEq, Eq, Structural)]
pub enum PopupKind {
    NoPopup,
    DeleteConfirmation,
    RenameProject,
    DuplicateProject,
    NewProject,
}

/// What the host application should act on after a menu interaction.
#[derive(Debug, Clone, PartialEq)]
pub enum MenuOutcome {
    /// Nothing to do: stay on the menu.
    Stay,
    /// Open the project called `name` (already confirmed compatible).
    OpenProject { name: String },
    /// New app settings were applied from the settings screen.
    SettingsApplied(AppSettings),
    /// The player chose Quit.
    Quit,
}

/// Disk work the host performs for a confirmed menu action.
#[derive(Debug, Clone, PartialEq)]
pub enum MenuRequest {
    /// Delete the project (keeping a backup copy), then hand the refreshed
    /// project list to `project_deleted`.
    DeleteProject { name: String },
    /// Load the project, creating it first if it does not exist, then hand
    /// the refreshed project list and the project's name to
    /// `project_created`, which says to open it.
    CreateOrLoadProject { name: String },
    /// Rename the project, then hand the refreshed list to `projects_changed`.
    RenameProject { old_name: String, new_name: String },
    /// Copy the project, then hand the refreshed list to `projects_changed`.
    DuplicateProject { original: String, duplicate: String },
    /// Save the settings, then apply them.
    SaveSettings(AppSettings),
}

/// Longest accepted project name, in characters.
pub const MAX_PROJECT_NAME_LENGTH: usize = 20;

/// State of the startup screen.
pub struct MainMenu {
    pub paths: SavePaths,
    pub screen: MenuScreen,
    pub popup: PopupKind,
    pub edited_settings: AppSettings,
    pub projects: Vec<ProjectDescription>,
    pub selected_project_index: Option<usize>,
}

/// The selected project, if the selection points into the list.
pub open spec fn selected_of(projects: Seq<ProjectDescription>, selected: Option<usize>) -> Option<ProjectDescription> {
    match selected {
        Some(i) => if i < projects.len() { Some(projects[i as int]) } else { None },
        None => None,
    }
}

/// A project is selected and this build can open it.
pub open spec fn selected_is_openable(projects: Seq<ProjectDescription>, selected: Option<usize>) -> bool {
    match selected_of(projects, selected) {
        Some(p) => open_verdict(p.dls_version_earliest_compatible@) is Ok,
        None => false,
    }
}

/// `name` is acceptable for a new project: not blank, at most
/// `MAX_PROJECT_NAME_LENGTH` characters, a valid file name, and no
/// existing project has it (ignoring ASCII case).
pub open spec fn new_project_name_ok(projects: Seq<ProjectDescription>, name: Seq<char>) -> bool {
    &&& trimmed(name).len() > 0
    &&& name.len() <= 20
    &&& is_valid_file_name(name)
    &&& forall|i: int| 0 <= i < projects.len() ==> !eq_ignore_ascii_case(#[trigger] projects[i].project_name@, name)
}

impl MainMenu {
    /// The main screen, no popup, default settings, no projects listed.
    pub fn new(paths: SavePaths) -> (m: Self)
        ensures
            m.paths == paths,
            m.screen == MenuScreen::Main,
            m.popup == PopupKind::NoPopup,
            m.edited_settings == crate::settings::default_app_settings(),
            m.projects@.len() == 0,
            m.selected_project_index is None,
    {
        Self {
            paths,
            screen: MenuScreen::Main,
            popup: PopupKind::NoPopup,
            edited_settings: AppSettings::default_settings(),
            projects: Vec::new(),
            selected_project_index: None,
        }
    }

    pub fn screen(&self) -> (s: MenuScreen)
        ensures
            s == self.screen,
    {
        self.screen
    }

    pub fn popup(&self) -> (p: PopupKind)
        ensures
            p == self.popup,
    {
        self.popup
    }

    pub fn projects(&self) -> (p: &[ProjectDescription])
        ensures
            p@ == self.projects@,
    {
        self.projects.as_slice()
    }

    pub fn selected_project_index(&self) -> (i: Option<usize>)
        ensures
            i == self.selected_project_index,
    {
        self.selected_project_index
    }

    pub fn selected_project(&self) -> (p: Option<&ProjectDescription>)
        ensures
            match (p, selected_of(self.projects@, self.selected_project_index)) {
                (Some(a), Some(b)) => *a == b,
                (None, None) => true,
                _ => false,
            },
    {
        match self.selected_project_index {
            Some(i) => if i < self.projects.len() {
                Some(&self.projects[i])
            } else {
                None
            },
            None => None,
        }
    }

    /// Whether this build can open the selected project (`Err` with the
    /// reason otherwise); `None` when nothing is selected.
    pub fn selected_project_compatibility(&self) -> (r: Option<Result<(), String>>)
        ensures
            match (r, selected_of(self.projects@, self.selected_project_index)) {
                (Some(v), Some(p)) => match (v, open_verdict(p.dls_version_earliest_compatible@)) {
                    (Ok(()), Ok(())) => true,
                    (Err(msg), Err(reason)) => msg@ == reason,
                    _ => false,
                },
                (None, None) => true,
                _ => false,
            },
    {
        match self.selected_project() {
            Some(p) => Some(can_open_project(p)),
            None => None,
        }
    }

    pub fn edited_settings(&self) -> (s: AppSettings)
        ensures
            s == self.edited_settings,
    {
        self.edited_settings
    }

    /// Back to the main screen with no popup and no selection.
    pub fn on_menu_opened(&mut self)
        ensures
            final(self).screen == MenuScreen::Main,
            final(self).popup == PopupKind::NoPopup,
            final(self).selected_project_index is None,
            final(self).paths == old(self).paths,
            final(self).edited_settings == old(self).edited_settings,
            final(self).projects == old(self).projects,
    {
        self.screen = MenuScreen::Main;
        self.popup = PopupKind::NoPopup;
        self.selected_project_index = None;
    }

    /// Replaces the project list with `projects`, freshly read from disk
    /// (newest first).
    pub fn refresh_projects(&mut self, projects: Vec<ProjectDescription>)
        ensures
            *final(self) == (MainMenu { projects, ..*old(self) }),
    {
        self.projects = projects;
    }

    /// "New Project": the freshly read list, and the naming popup.
    pub fn choose_new_project(&mut self, projects: Vec<ProjectDescription>)
        ensures
            *final(self) == (MainMenu { projects, popup: PopupKind::NewProject, ..*old(self) }),
    {
        self.refresh_projects(projects);
        self.popup = PopupKind::NewProject;
    }

    /// "Open Project": the freshly read list, nothing selected, on the
    /// load-project screen.
    pub fn choose_open_project(&mut self, projects: Vec<ProjectDescription>)
        ensures
            *final(self) == (MainMenu {
                projects,
                selected_project_index: None,
                screen: MenuScreen::LoadProject,
                ..*old(self)
            }),
    {
        self.refresh_projects(projects);
        self.selected_project_index = None;
        self.screen = MenuScreen::LoadProject;
    }

    /// "Settings": edit the settings as last saved (`saved`).
    pub fn choose_settings(&mut self, saved: AppSettings)
        ensures
            *final(self) == (MainMenu { edited_settings: saved, screen: MenuScreen::Settings, ..*old(self) }),
    {
        self.edited_settings = saved;
        self.screen = MenuScreen::Settings;
    }

    /// "About".
    pub fn choose_about(&mut self)
        ensures
            *final(self) == (MainMenu { screen: MenuScreen::About, ..*old(self) }),
    {
        self.screen = MenuScreen::About;
    }

    /// "Quit".
    pub fn choose_quit(&self) -> (o: MenuOutcome)
        ensures
            o == MenuOutcome::Quit,
    {
        MenuOutcome::Quit
    }

    /// Selects the project at `index` when there is one there.
    pub fn select_project(&mut self, index: usize)
        ensures
            index < old(self).projects@.len() ==> *final(self) == (MainMenu { selected_project_index: Some(index), ..*old(self) }),
            index >= old(self).projects@.len() ==> *final(self) == *old(self),
    {
        if index < self.projects.len() {
            self.selected_project_index = Some(index);
        }
    }

    /// Asks to confirm deleting the selection, when something is selected.
    pub fn request_delete_selected(&mut self)
        ensures
            old(self).selected_project_index is Some ==> *final(self) == (MainMenu { popup: PopupKind::DeleteConfirmation, ..*old(self) }),
            old(self).selected_project_index is None ==> *final(self) == *old(self),
    {
        if self.selected_project_index.is_some() {
            self.popup = PopupKind::DeleteConfirmation;
        }
    }

    /// Opens the duplicate popup, when the selection can be opened.
    pub fn request_duplicate_selected(&mut self)
        ensures
            selected_is_openable(old(self).projects@, old(self).selected_project_index) ==> *final(self) == (MainMenu { popup: PopupKind::DuplicateProject, ..*old(self) }),
            !selected_is_openable(old(self).projects@, old(self).selected_project_index) ==> *final(self) == *old(self),
    {
        if self.can_act_on_selected_compatible_project() {
            self.popup = PopupKind::DuplicateProject;
        }
    }

    /// Opens the rename popup, when the selection can be opened.
    pub fn request_rename_selected(&mut self)
        ensures
            selected_is_openable(old(self).projects@, old(self).selected_project_index) ==> *final(self) == (MainMenu { popup: PopupKind::RenameProject, ..*old(self) }),
            !selected_is_openable(old(self).projects@, old(self).selected_project_index) ==> *final(self) == *old(self),
    {
        if self.can_act_on_selected_compatible_project() {
            self.popup = PopupKind::RenameProject;
        }
    }

    /// A project is selected and this build can open it.
    pub fn can_act_on_selected_compatible_project(&self) -> (b: bool)
        ensures
            b == selected_is_openable(self.projects@, self.selected_project_index),
    {
        match self.selected_project_compatibility() {
            Some(Ok(())) => true,
            _ => false,
        }
    }

    /// "Open" on the load-project screen: opens the selection when this
    /// build can; `None` otherwise.
    pub fn open_selected(&self) -> (o: Option<MenuOutcome>)
        ensures
            selected_is_openable(self.projects@, self.selected_project_index) ==> (o matches Some(MenuOutcome::OpenProject { name })
                && name@ == selected_of(self.projects@, self.selected_project_index).unwrap().project_name@),
            !selected_is_openable(self.projects@, self.selected_project_index) ==> o is None,
    {
        match self.selected_project() {
            Some(project) => {
                if can_open_project(project).is_ok() {
                    let name = project.project_name.clone();
                    Some(MenuOutcome::OpenProject { name })
                } else {
                    None
                }
            },
            None => None,
        }
    }

    /// "Back": the main screen, no popup.
    pub fn back_to_main(&mut self)
        ensures
            *final(self) == (MainMenu { screen: MenuScreen::Main, popup: PopupKind::NoPopup, ..*old(self) }),
    {
        self.screen = MenuScreen::Main;
        self.popup = PopupKind::NoPopup;
    }

    /// Closes the popup; the screen stays.
    pub fn cancel_popup(&mut self)
        ensures
            *final(self) == (MainMenu { popup: PopupKind::NoPopup, ..*old(self) }),
    {
        self.popup = PopupKind::NoPopup;
    }

    /// "Delete" in the confirmation popup: the selected project to delete,
    /// if any (the host deletes it, then calls `project_deleted`).
    pub fn confirm_delete(&self) -> (r: Option<MenuRequest>)
        ensures
            match selected_of(self.projects@, self.selected_project_index) {
                Some(p) => r matches Some(MenuRequest::DeleteProject { name }) && name@ == p.project_name@,
                None => r is None,
            },
    {
        match self.selected_project() {
            Some(project) => Some(MenuRequest::DeleteProject { name: project.project_name.clone() }),
            None => None,
        }
    }

    /// After a confirmed deletion: no selection, no popup, and the
    /// refreshed list.
    pub fn project_deleted(&mut self, projects: Vec<ProjectDescription>)
        ensures
            *final(self) == (MainMenu { selected_project_index: None, popup: PopupKind::NoPopup, projects, ..*old(self) }),
    {
        self.selected_project_index = None;
        self.popup = PopupKind::NoPopup;
        self.refresh_projects(projects);
    }

    /// Whether `name` would be accepted for a new project.
    pub fn is_valid_new_project_name(&self, name: &str) -> (b: bool)
        ensures
            b == new_project_name_ok(self.projects@, name@),
    {
        let t = crate::text::chars_of(name);
        let (lo, hi) = crate::text::trim_bounds(&t, 0, t.len());
        assert(t@.subrange(0, t.len() as int) =~= name@);
        if lo == hi || t.len() > MAX_PROJECT_NAME_LENGTH {
            return false;
        }
        if !crate::file_names::valid_file_name(name) {
            return false;
        }
        let mut i: usize = 0;
        while i < self.projects.len()
            invariant
                i <= self.projects@.len(),
                forall|k: int| 0 <= k < i ==> !eq_ignore_ascii_case(#[trigger] self.projects@[k].project_name@, name@),
            decreases self.projects.len() - i,
        {
            if crate::description::eq_ignore_case(self.projects[i].project_name.as_str(), name) {
                return false;
            }
            i = i + 1;
        }
        true
    }

    /// Confirms the open name popup with `name`: for a valid name, closes
    /// the popup and returns the disk work to do (create-or-load, rename or
    /// duplicate), after which the host hands the refreshed project list
    /// back (`project_created` or `projects_changed`). Does nothing when no name popup is open, nothing is
    /// selected for a rename/duplicate, or `name` is not acceptable.
    pub fn confirm_name_popup(&mut self, name: &str) -> (r: Option<MenuRequest>)
        ensures
            match old(self).popup {
                PopupKind::NewProject => if new_project_name_ok(old(self).projects@, name@) {
                    &&& *final(self) == (MainMenu { popup: PopupKind::NoPopup, ..*old(self) })
                    &&& r matches Some(MenuRequest::CreateOrLoadProject { name: n }) && n@ == name@
                } else {
                    *final(self) == *old(self) && r is None
                },
                PopupKind::RenameProject => match selected_of(old(self).projects@, old(self).selected_project_index) {
                    Some(p) => if trimmed(name@).len() > 0 && is_valid_file_name(name@) {
                        &&& *final(self) == (MainMenu { popup: PopupKind::NoPopup, ..*old(self) })
                        &&& r matches Some(MenuRequest::RenameProject { old_name, new_name }) && old_name@ == p.project_name@ && new_name@ == name@
                    } else {
                        *final(self) == *old(self) && r is None
                    },
                    None => *final(self) == *old(self) && r is None,
                },
                PopupKind::DuplicateProject => match selected_of(old(self).projects@, old(self).selected_project_index) {
                    Some(p) => if new_project_name_ok(old(self).projects@, name@) {
                        &&& *final(self) == (MainMenu { popup: PopupKind::NoPopup, ..*old(self) })
                        &&& r matches Some(MenuRequest::DuplicateProject { original, duplicate }) && original@ == p.project_name@ && duplicate@ == name@
                    } else {
                        *final(self) == *old(self) && r is None
                    },
                    None => *final(self) == *old(self) && r is None,
                },
                _ => *final(self) == *old(self) && r is None,
            },
    {
        match self.popup {
            PopupKind::NewProject => {
                if !self.is_valid_new_project_name(name) {
                    return None;
                }
                self.popup = PopupKind::NoPopup;
                Some(MenuRequest::CreateOrLoadProject { name: name.to_string() })
            },
            PopupKind::RenameProject => {
                let old_name = match self.selected_project() {
                    Some(p) => p.project_name.clone(),
                    None => {
                        return None;
                    },
                };
                let t = crate::text::chars_of(name);
                let (lo, hi) = crate::text::trim_bounds(&t, 0, t.len());
                assert(t@.subrange(0, t.len() as int) =~= name@);
                if lo == hi || !crate::file_names::valid_file_name(name) {
                    return None;
                }
                self.popup = PopupKind::NoPopup;
                Some(MenuRequest::RenameProject { old_name, new_name: name.to_string() })
            },
            PopupKind::DuplicateProject => {
                let original = match self.selected_project() {
                    Some(p) => p.project_name.clone(),
                    None => {
                        return None;
                    },
                };
                if !self.is_valid_new_project_name(name) {
                    return None;
                }
                self.popup = PopupKind::NoPopup;
                Some(MenuRequest::DuplicateProject { original, duplicate: name.to_string() })
            },
            PopupKind::NoPopup | PopupKind::DeleteConfirmation => None,
        }
    }

    /// After a new project was created (or an existing one loaded): the
    /// refreshed list, and the project called `name` to open.
    pub fn project_created(&mut self, projects: Vec<ProjectDescription>, name: &str) -> (o: MenuOutcome)
        ensures
            *final(self) == (MainMenu { projects, ..*old(self) }),
            o matches MenuOutcome::OpenProject { name: n } && n@ == name@,
    {
        self.refresh_projects(projects);
        MenuOutcome::OpenProject { name: name.to_string() }
    }

    /// After a rename or duplicate: the refreshed list, with the first
    /// (newest-saved, i.e. the one just changed) project selected.
    pub fn projects_changed(&mut self, projects: Vec<ProjectDescription>)
        ensures
            *final(self) == (MainMenu { projects, selected_project_index: Some(0), ..*old(self) }),
    {
        self.refresh_projects(projects);
        self.selected_project_index = Some(0);
    }

    /// Holds the settings being edited on the settings screen.
    pub fn set_edited_settings(&mut self, settings: AppSettings)
        ensures
            *final(self) == (MainMenu { edited_settings: settings, ..*old(self) }),
    {
        self.edited_settings = settings;
    }

    /// "APPLY": the edited settings to save (the host then applies them as
    /// `MenuOutcome::SettingsApplied`).
    pub fn apply_settings(&self) -> (r: MenuRequest)
        ensures
            r == MenuRequest::SaveSettings(self.edited_settings),
    {
        MenuRequest::SaveSettings(self.edited_settings)
    }
}

} // verus!
