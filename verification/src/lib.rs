//! Gathers the source files of a project into one tagged text document,
//! together with a short summary of the project's manifest.

pub mod cargo;
pub mod collect;
pub mod detect;
pub mod format;
pub mod manifest;
pub mod order;
pub mod python;
pub mod requirements;
pub mod setup_py;
pub mod summary;
pub mod text;
pub mod tree;
pub mod tree_read;
