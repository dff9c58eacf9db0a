//! A verified core for a symlink-farm manager in the style of `stow`-based
//! dotfile tools. The library keeps a registry of (target directory →
//! source directories) bindings, classifies the state of each pair's links
//! on the filesystem into a fixed status taxonomy, folds statuses into
//! severity summaries, and speaks for the external tree-linking utility:
//! it builds the exact invocations, interprets their outcomes, and parses
//! the plans their simulate mode prints. Everything that decides or
//! computes is specified and proved here; reading directories, running the
//! utility and persisting the registry are left to the embedding program,
//! which hands plain observations in and takes plain values out.
pub mod config;
pub mod error;
pub mod paths;
pub mod render;
pub mod status;
pub mod stow;
pub mod summary;
pub mod text;
