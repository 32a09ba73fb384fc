//! The settings of `gpg` that the configuration gives.

use crate::config::builder::hoard::{Encryption, SymmetricEncryption};
use crate::config::builder::GlobalConfig;
use crate::config::directories::HoardProjectDirs;
use crate::paths::{join_path, joined_path};
use vstd::prelude::*;

verus! {

/// The settings of `gpg`.
#[derive(Debug, Clone)]
pub struct GpgConfig {
    /// The user's home directory.
    pub home_dir: String,
    /// The directory for what `gpg` writes.
    pub output_dir: String,
    /// The symmetric encryption, where that is asked for.
    pub symmetric: Option<SymmetricEncryption>,
    /// Whether the output is ASCII-armoured.
    pub armor: bool,
    /// The key to use where nothing else is said.
    pub default_key: Option<String>,
}

impl GpgConfig {
    /// The settings for the encryption `opts`: the output goes to `gpg`
    /// below the configuration directory; the armour and the key are those
    /// of an asymmetric encryption, else there is no armour and the key is
    /// the global one.
    pub fn new(opts: &Encryption, global: &GlobalConfig, dirs: &HoardProjectDirs) -> (made: Self)
        ensures
            made.home_dir@ == dirs.home(),
            made.output_dir@ == joined_path(dirs.config(), "gpg"@),
            match opts {
                Encryption::Symmetric(symmetric) => {
                    &&& made.symmetric is Some
                    &&& made.symmetric->0.same(symmetric)
                    &&& !made.armor
                    &&& made.default_key.deep_view() == global.public_key.deep_view()
                },
                Encryption::Asymmetric(asymmetric) => {
                    &&& made.symmetric is None
                    &&& made.armor == asymmetric.armor
                    &&& made.default_key.deep_view() == asymmetric.public_key.deep_view()
                },
            },
    {
        let home_dir = dirs.home_dir().to_owned();
        let output_dir = join_path(dirs.config_dir(), "gpg");
        match opts {
            Encryption::Symmetric(symmetric) => Self {
                home_dir,
                output_dir,
                symmetric: Some(symmetric.clone()),
                armor: false,
                default_key: match &global.public_key {
                    Some(key) => Some(key.clone()),
                    None => None,
                },
            },
            Encryption::Asymmetric(asymmetric) => Self {
                home_dir,
                output_dir,
                symmetric: None,
                armor: asymmetric.armor,
                default_key: match &asymmetric.public_key {
                    Some(key) => Some(key.clone()),
                    None => None,
                },
            },
        }
    }
}

} // verus!
