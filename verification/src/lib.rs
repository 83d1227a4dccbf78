//! ShellKeeper's connection model and the logic behind its screens: SSH
//! command import and preview, port forwarding and SSHFS arguments, the
//! connection list filters, the terminal's key encoding and the themes.
pub mod app;
pub mod colors;
pub mod config;
pub mod host;
pub mod models;
pub mod pty;
pub mod ssh_parse;
pub mod text;
pub mod theme;
pub mod ui;
