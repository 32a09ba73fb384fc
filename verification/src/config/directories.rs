//! The directories that the program works in.

use vstd::prelude::*;

verus! {

/// The user's home, and the program's cache, configuration and data
/// directories, as found once at startup.
#[derive(Debug, Clone)]
pub struct HoardProjectDirs {
    home_dir: String,
    cache_dir: String,
    config_dir: String,
    data_dir: String,
}

impl HoardProjectDirs {
    /// The home directory.
    pub closed spec fn home(&self) -> Seq<char> {
        self.home_dir@
    }

    /// The cache directory.
    pub closed spec fn cache(&self) -> Seq<char> {
        self.cache_dir@
    }

    /// The configuration directory.
    pub closed spec fn config(&self) -> Seq<char> {
        self.config_dir@
    }

    /// The data directory.
    pub closed spec fn data(&self) -> Seq<char> {
        self.data_dir@
    }

    /// The directories as given.
    pub fn new(home_dir: String, cache_dir: String, config_dir: String, data_dir: String) -> (dirs:
        Self)
        ensures
            dirs.home() == home_dir@,
            dirs.cache() == cache_dir@,
            dirs.config() == config_dir@,
            dirs.data() == data_dir@,
    {
        HoardProjectDirs { home_dir, cache_dir, config_dir, data_dir }
    }

    /// The cache directory.
    pub fn cache_dir(&self) -> (dir: &str)
        ensures
            dir@ == self.cache(),
    {
        self.cache_dir.as_str()
    }

    /// The configuration directory.
    pub fn config_dir(&self) -> (dir: &str)
        ensures
            dir@ == self.config(),
    {
        self.config_dir.as_str()
    }

    /// The data directory.
    pub fn data_dir(&self) -> (dir: &str)
        ensures
            dir@ == self.data(),
    {
        self.data_dir.as_str()
    }

    /// The home directory.
    pub fn home_dir(&self) -> (dir: &str)
        ensures
            dir@ == self.home(),
    {
        self.home_dir.as_str()
    }
}

/// The home directory of `dirs`, as text of its own.
pub fn home_dir(dirs: &HoardProjectDirs) -> (dir: String)
    ensures
        dir@ == dirs.home(),
{
    dirs.home_dir().to_owned()
}

/// The configuration directory of `dirs`, as text of its own.
pub fn config_dir(dirs: &HoardProjectDirs) -> (dir: String)
    ensures
        dir@ == dirs.config(),
{
    dirs.config_dir().to_owned()
}

/// The cache directory of `dirs`, as text of its own.
pub fn cache_dir(dirs: &HoardProjectDirs) -> (dir: String)
    ensures
        dir@ == dirs.cache(),
{
    dirs.cache_dir().to_owned()
}

/// The data directory of `dirs`, as text of its own.
pub fn data_dir(dirs: &HoardProjectDirs) -> (dir: String)
    ensures
        dir@ == dirs.data(),
{
    dirs.data_dir().to_owned()
}

} // verus!
