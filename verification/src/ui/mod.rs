//! What the user interface shows.

pub mod index_model;
