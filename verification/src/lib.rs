//! Decides, for each configured hoard, which path on this machine belongs to
//! it, from named boolean facts about the machine.
//!
//! A hoard is a set of piles; a pile is a file or directory that lies at
//! different paths on different machines. The configuration lists, for each
//! pile, candidate paths under conditions such as `linux|has_steam`, and
//! declares the environments that the conditions name. This crate evaluates
//! the environments, chooses the path of each pile, and holds the rules of
//! the program around them. It reads no file and no variable itself: its
//! callers hand it what they found.

pub mod command;
pub mod config;
pub mod env_vars;
pub mod paths;
pub mod text;
pub mod utils;

pub use config::Config;

use vstd::prelude::*;

verus! {

/// The name of the configuration file.
pub const CONFIG_FILE_NAME: &'static str = "config.yml";

/// The name of the directory that holds the hoards.
pub const HOARDS_DIR_SLUG: &'static str = "hoards";

} // verus!
