//! Synchronizes a version-controlled stage directory of dotfile templates
//! into the user's home directory: per-profile variable substitution with
//! encrypted secrets, a persisted ledger of written files, and the decision
//! logic of the watch service that keeps both sides in step.

pub mod config;
pub mod dotfiles;
pub mod encryption;
pub mod filecache;
pub mod git;
pub mod profile;
pub mod service;
pub mod text;
