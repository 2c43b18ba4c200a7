//! An in-memory virtual filesystem engine.
//!
//! The crate models a dynamically growing tree of synthetic files and
//! directories: an inode table maps inode numbers to nodes, a dispatcher
//! implements the standard filesystem verbs against that table, and a pair of
//! path-walking entry points lets callers grow and shrink the tree.  The
//! kernel-protocol plumbing (mounting, request decoding, reply encoding,
//! background task spawning) lives outside this crate and hands the engine
//! plain values only.

pub mod attrs;
pub mod background_tasks;
pub mod errors;
pub mod file_helpers;
pub mod files;
pub mod lemmas;
pub mod link;
pub mod main_fs;
pub mod modules;
pub mod trigger_file;
pub mod user_files;
