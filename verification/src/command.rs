//! The subcommands of the program.

use vstd::prelude::*;

verus! {

/// What the program is asked to do.
#[derive(Clone, PartialEq, Debug)]
pub enum Command {
    /// Work on the configuration file itself.
    Config {
        /// Convert the file to another format.
        convert: bool,
        /// The format of the input, where the file's name does not tell.
        input_format: Option<String>,
        /// The format of the output.
        output_format: Option<String>,
        /// Where to write the output; the terminal where there is none.
        output_file: Option<String>,
        /// The theme for coloured output.
        theme: Option<String>,
        /// Colour the output.
        color: bool,
        /// Build the cache of themes and syntaxes.
        cache_build: bool,
        /// Clear the cache of themes and syntaxes.
        cache_clear: bool,
        /// Where the themes and syntaxes to build from lie.
        source: Option<String>,
        /// Where to put the cache.
        dest: Option<String>,
    },
    /// Load the configuration and see that it builds.
    Validate,
    /// Back up the named hoards; all of them where none is named.
    Backup {
        /// The names of the hoards.
        hoards: Vec<String>,
    },
    /// Restore the named hoards; all of them where none is named.
    Restore {
        /// The names of the hoards.
        hoards: Vec<String>,
    },
    /// Add something to the configuration file.
    Add {
        /// An environment to add.
        env: Option<String>,
        /// A pattern to add to the global ignores.
        ignores: Option<String>,
    },
}

impl Default for Command {
    /// Without a subcommand the configuration is validated.
    fn default() -> (command: Self)
        ensures
            command == Command::Validate,
    {
        Self::Validate
    }
}

/// What a `Config` subcommand asks for.
#[derive(Clone, Copy, PartialEq, Eq, Debug, Structural)]
pub enum ConfigAction {
    /// Convert the configuration file.
    Convert,
    /// Build the cache.
    BuildCache,
    /// Clear the cache.
    ClearCache,
}

/// Picks the one thing that a `Config` subcommand does: conversion before
/// the cache, building it before clearing it. `None` where nothing was
/// asked for.
pub fn config_action(convert: bool, cache_build: bool, cache_clear: bool) -> (action: Option<
    ConfigAction,
>)
    ensures
        action == (if convert {
            Some(ConfigAction::Convert)
        } else if cache_build {
            Some(ConfigAction::BuildCache)
        } else if cache_clear {
            Some(ConfigAction::ClearCache)
        } else {
            None
        }),
{
    if convert {
        Some(ConfigAction::Convert)
    } else if cache_build {
        Some(ConfigAction::BuildCache)
    } else if cache_clear {
        Some(ConfigAction::ClearCache)
    } else {
        None
    }
}

} // verus!
