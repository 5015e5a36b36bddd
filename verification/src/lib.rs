//! Synchronisation core for a vault of markdown prompt files.
//!
//! A vault is a flat directory of markdown files, each holding one prompt:
//! YAML frontmatter with its metadata and a fenced block with its content.
//! The files are the source of truth. A relational cache mirrors them for
//! fast queries, and a watcher tells when the files changed.
//!
//! The library decides and the application acts. Its functions take what
//! was read from the vault and the cache as plain values and return the
//! text to write, the writes to the cache and the files to remove. Every
//! function is verified against its contract.
//!
//! - [`text`]: characters, lines and searching, on which the rest is built.
//! - [`fence`]: the fenced content block of a file's body.
//! - [`round_trip`]: what is written into a block is what is read from it.
//! - [`frontmatter`]: the metadata of a file, of which unknown keys are kept.
//! - [`vault`]: prompt files: names, reading, writing, scanning.
//! - [`sync`]: reconciliation of the cache with the vault; saving, deleting
//!   and copying a prompt.
//! - [`cache`]: what the cache holds, as a model, and the laws of
//!   reconciliation.
//! - [`vault_watcher`]: the debounced watch on the vault's directory.
//! - [`query`]: filtering and sorting of cached prompts.
//! - [`models`], [`config`]: the records and settings exchanged.
//! - [`yaml`], [`outside`]: the boundary to other libraries, which is
//!   trusted and not proved.

pub mod cache;
pub mod config;
pub mod fence;
pub mod frontmatter;
pub mod models;
pub mod outside;
pub mod query;
pub mod round_trip;
pub mod sql;
pub mod sync;
pub mod text;
pub mod vault;
pub mod vault_watcher;
pub mod yaml;
