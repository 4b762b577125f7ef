//! The broker's declarative inputs and the authority graph built from them.

pub mod catalogue;
pub mod graph;
pub mod manifest;
pub mod session;
pub mod spawnable;
