//! What the desktop says of the applications that it knows.

pub mod desktop_entry;
pub mod desktop_entry_laws;
