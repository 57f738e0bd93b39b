//! The MangoWM tag (workspace) switcher of the Wayle bar, and the Mango
//! window-title source: the configuration, the IPC protocol's commands and
//! decisions, which tag buttons a bar shows and how they are styled.

pub mod button;
pub mod config;
pub mod decimal;
pub mod glob;
pub mod service;
pub mod settings;
pub mod styling;
pub mod tags;
pub mod text;
pub mod window_title;
pub mod workspaces;
