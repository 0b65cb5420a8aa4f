//! Profile management for an AI coding assistant's settings: a JSON tree with
//! structural merge and unmerge, a store of named profiles reconciled against the
//! live settings document, path conventions and the interactive list's state.

pub mod json;
pub mod text;
pub mod paths;
pub mod store;
pub mod profile;
pub mod tui;
pub mod update;
pub mod cli;
pub mod highlight;
