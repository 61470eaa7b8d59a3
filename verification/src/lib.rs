//! polymodo: a daemonized, fuzzy application launcher.

pub mod app;
pub mod app_surface_driver;
pub mod binary32;
pub mod call_laws;
pub mod cli;
pub mod driver_event_laws;
pub mod driver_laws;
pub mod fuzzy_search;
pub mod index_map;
pub mod ipc;
pub mod ipc_laws;
pub mod mode;
pub mod notify;
pub mod paths;
pub mod paths_laws;
pub mod persistence;
pub mod polymodo;
pub mod repaint;
pub mod sequences;
pub mod server;
pub mod session;
pub mod single;
pub mod single_laws;
pub mod surface_ids;
mod text;
pub mod ui;
pub mod windowing;
pub mod wire;
pub mod xdg;
