//! Save-format, project-menu and editor logic of a digital logic circuit
//! simulator, with its contracts proved by Verus.
pub mod calendar;
pub mod text;
pub mod timestamp;
pub mod version;
pub mod file_names;
pub mod settings;
pub mod description;
pub mod upgrade;
pub mod project;
pub mod paths;
pub mod menu;
pub mod wires;
pub mod scene;
pub mod displays;
pub mod ui;
pub mod editor_ui;
pub mod menu_ui;
pub mod pin_resolve;
pub mod pin_values;
pub mod pin_state;
pub mod spans;
pub mod sim;
