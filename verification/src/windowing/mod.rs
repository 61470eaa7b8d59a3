//! Surfaces, the events that reach them and the state that those events drive.

pub mod app;
pub mod client;
pub mod input_laws;
pub mod layer_shell;
pub mod surface;
pub mod surface_laws;
pub mod windowing;
