//! Named workspaces: directories under one root that hold symbolic links to
//! repositories elsewhere on disk, and a list from which one is picked.
//!
//! The library decides and the caller acts. The caller reads what stands
//! under the root into a [`layout::Layout`], hands it to an operation of
//! [`workspace::WorkspaceManager`], and carries out the actions that the
//! operation decided on. [`selector::Selector`] holds the state of the list
//! and answers key events; the caller draws it and reads the keys.

pub mod cli;
pub mod display;
pub mod error;
pub mod laws;
pub mod layout;
pub mod listing;
pub mod model;
pub mod order;
pub mod path;
pub mod selector;
pub mod sorted_map;
pub mod text;
pub mod workspace;
