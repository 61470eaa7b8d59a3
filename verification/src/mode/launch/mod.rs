//! The launcher.

pub mod command;
pub mod command_laws;
pub mod display_laws;
pub mod entry;
pub mod entry_laws;
pub mod history;
pub mod history_laws;
pub mod icons;
pub mod launcher;
pub mod launcher_laws;
pub mod part_laws;
pub mod rows;
pub mod settings;
