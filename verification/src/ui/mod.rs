//! The logic behind the screens: the connection dialog, the sidebar lists,
//! the tab bar, the terminal's input encoding, the overlays and the settings.
pub mod dialog;
pub mod overlays;
pub mod preview_import;
pub mod settings;
pub mod sidebar;
pub mod tabs;
pub mod terminal;
pub mod widgets;
