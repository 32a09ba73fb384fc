//! Configuration: what is declared, and what it comes to on this machine.

pub mod builder;
pub mod directories;
pub mod encrypt;
pub mod encryption;
pub mod filetypes;
pub mod hoard;

pub use self::builder::Builder;
use self::builder::GlobalConfig;
use self::hoard::Hoard;
use crate::command::Command;
use crate::paths::{join_path, joined_path};
use crate::text::same_text;
use vstd::prelude::*;

verus! {

/// What can go wrong with a built configuration.
#[derive(Debug, Clone, PartialEq, Eq)]
pub enum Error {
    /// The configuration could not be built.
    Builder(builder::Error),
    /// No hoard of this name is configured.
    NoSuchHoard(String),
    /// A `config` command that asks for nothing: neither a conversion nor
    /// the cache.
    MissingConfigCommand,
}

/// A built configuration. To make one, use [`Builder`].
#[derive(Clone, Debug, PartialEq)]
pub struct Config {
    /// The command to run.
    pub command: Command,
    /// The directory that holds the hoards.
    pub hoards_root: String,
    /// The configuration file.
    pub config_file: String,
    /// What holds for every hoard.
    pub global_config: GlobalConfig,
    /// The hoards, each under its name.
    pub hoards: Vec<(String, Hoard)>,
    /// Whether to go on where a check fails.
    pub force: bool,
}

/// Position of the first hoard named `name`, or `hoards.len()` where there is
/// none.
pub open spec fn hoard_position(hoards: Seq<(String, Hoard)>, name: Seq<char>) -> int
    decreases hoards.len(),
{
    if hoards.len() == 0 || hoards[0].0@ == name {
        0
    } else {
        1 + hoard_position(hoards.drop_first(), name)
    }
}

/// A position that passes no hoard of the name and stops on one, or at the
/// end, is `hoard_position`.
proof fn lemma_hoard_position_is(hoards: Seq<(String, Hoard)>, name: Seq<char>, k: int)
    requires
        0 <= k <= hoards.len(),
        forall|j: int| 0 <= j < k ==> (#[trigger] hoards[j]).0@ != name,
        k < hoards.len() ==> hoards[k].0@ == name,
    ensures
        hoard_position(hoards, name) == k,
    decreases hoards.len(),
{
    if hoards.len() == 0 || hoards[0].0@ == name {
        if k > 0 {
            assert(hoards[0].0@ != name);
        }
    } else {
        let rest = hoards.drop_first();
        assert forall|j: int| 0 <= j < k - 1 implies (#[trigger] rest[j]).0@ != name by {
            assert(rest[j] == hoards[j + 1]);
        }
        lemma_hoard_position_is(rest, name, k - 1);
    }
}

/// Whether `chosen` is the hoard named `name`, under that name.
pub open spec fn named_hoard(hoards: Seq<(String, Hoard)>, name: Seq<char>, chosen: (&str, &Hoard)) -> bool {
    &&& 0 <= hoard_position(hoards, name) < hoards.len()
    &&& chosen.0@ == name
    &&& *chosen.1 == hoards[hoard_position(hoards, name)].1
}

impl Config {
    /// A builder with nothing set.
    pub fn builder() -> (made: Builder)
        ensures
            made.is_blank(),
    {
        Builder::new()
    }

    /// The path of the configuration file.
    pub fn get_config_file_path(&self) -> (path: String)
        ensures
            path@ == self.config_file@,
    {
        self.config_file.clone()
    }

    /// The path of the directory that holds the hoards.
    pub fn get_hoards_root_path(&self) -> (path: String)
        ensures
            path@ == self.hoards_root@,
    {
        self.hoards_root.clone()
    }

    /// The directory of the hoard `name`, below the hoards' root.
    pub fn get_prefix(&self, name: &str) -> (path: String)
        ensures
            path@ == joined_path(self.hoards_root@, name@),
    {
        join_path(self.hoards_root.as_str(), name)
    }

    /// The hoard named `name`.
    pub fn get_hoard(&self, name: &str) -> (found: Result<&Hoard, Error>)
        ensures
            match found {
                Ok(hoard) => 0 <= hoard_position(self.hoards@, name@) < self.hoards@.len() && *hoard
                    == self.hoards@[hoard_position(self.hoards@, name@)].1,
                Err(Error::NoSuchHoard(missing)) => hoard_position(self.hoards@, name@)
                    == self.hoards@.len() && missing@ == name@,
                Err(_) => false,
            },
    {
        let mut i: usize = 0;
        while i < self.hoards.len()
            invariant
                i <= self.hoards.len(),
                forall|j: int| 0 <= j < i ==> (#[trigger] self.hoards@[j]).0@ != name@,
            decreases self.hoards.len() - i,
        {
            if same_text(self.hoards[i].0.as_str(), name) {
                proof {
                    lemma_hoard_position_is(self.hoards@, name@, i as int);
                }
                return Ok(&self.hoards[i].1);
            }
            i += 1;
        }
        proof {
            lemma_hoard_position_is(self.hoards@, name@, i as int);
        }
        Err(Error::NoSuchHoard(name.to_owned()))
    }

    /// The hoards to act on: those that `names` lists, in that order, or all
    /// of them where it lists none. The first name without a hoard is the
    /// error.
    pub fn get_hoards<'a>(&'a self, names: &'a Vec<String>) -> (found: Result<
        Vec<(&'a str, &'a Hoard)>,
        Error,
    >)
        ensures
            match found {
                Ok(chosen) => if names@.len() == 0 {
                    chosen@.len() == self.hoards@.len() && forall|i: int|
                        0 <= i < chosen@.len() ==> (#[trigger] chosen@[i]).0@ == self.hoards@[i].0@
                            && *chosen@[i].1 == self.hoards@[i].1
                } else {
                    chosen@.len() == names@.len() && forall|i: int|
                        0 <= i < chosen@.len() ==> named_hoard(
                            self.hoards@,
                            names@[i]@,
                            #[trigger] chosen@[i],
                        )
                },
                Err(Error::NoSuchHoard(missing)) => exists|i: int|
                    0 <= i < names@.len() && missing@ == (#[trigger] names@[i])@ && hoard_position(
                        self.hoards@,
                        names@[i]@,
                    ) == self.hoards@.len() && forall|j: int|
                        0 <= j < i ==> hoard_position(self.hoards@, (#[trigger] names@[j])@)
                            < self.hoards@.len(),
                Err(_) => false,
            },
    {
        let mut chosen: Vec<(&'a str, &'a Hoard)> = Vec::new();
        if names.len() == 0 {
            let mut i: usize = 0;
            while i < self.hoards.len()
                invariant
                    i <= self.hoards.len(),
                    chosen@.len() == i,
                    forall|j: int|
                        0 <= j < i ==> (#[trigger] chosen@[j]).0@ == self.hoards@[j].0@
                            && *chosen@[j].1 == self.hoards@[j].1,
                decreases self.hoards.len() - i,
            {
                chosen.push((self.hoards[i].0.as_str(), &self.hoards[i].1));
                i += 1;
            }
            Ok(chosen)
        } else {
            let mut i: usize = 0;
            while i < names.len()
                invariant
                    i <= names.len(),
                    chosen@.len() == i,
                    forall|j: int|
                        0 <= j < i ==> named_hoard(self.hoards@, names@[j]@, #[trigger] chosen@[j]),
                    forall|j: int|
                        0 <= j < i ==> hoard_position(self.hoards@, (#[trigger] names@[j])@)
                            < self.hoards@.len(),
                decreases names.len() - i,
            {
                let ghost before = chosen@;
                match self.get_hoard(names[i].as_str()) {
                    Ok(hoard) => {
                        let name = names[i].as_str();
                        chosen.push((name, hoard));
                        assert(named_hoard(self.hoards@, names@[i as int]@, chosen@[i as int]));
                        assert forall|j: int| 0 <= j < i + 1 implies named_hoard(
                            self.hoards@,
                            names@[j]@,
                            #[trigger] chosen@[j],
                        ) by {
                            if j < i {
                                assert(chosen@[j] == before[j]);
                            }
                        }
                    },
                    Err(error) => {
                        assert(hoard_position(self.hoards@, names@[i as int]@)
                            == self.hoards@.len());
                        return Err(error);
                    },
                }
                i += 1;
            }
            Ok(chosen)
        }
    }
}

} // verus!
