//! The modes that polymodo can run in.

pub mod launch;
