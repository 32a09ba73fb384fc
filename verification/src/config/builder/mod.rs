//! The declared configuration and the steps that turn it into a usable one.

pub mod environment;
pub mod hoard;
pub mod resolver;

use self::environment::evaluate::{acyclic, closed, describes, fault, first_declarations, Environments};
use self::environment::facts::{EnvironmentFact, Host};
use self::hoard::{hoard_outcome, Hoard};
use self::resolver::ExclusivityConstraints;
use super::directories::HoardProjectDirs;
use super::Config;
use crate::command::Command;
use crate::paths::{join_path, joined_path};
use vstd::prelude::*;

verus! {

/// Why the configuration could not be built.
#[derive(Debug, Clone, PartialEq, Eq)]
pub enum Error {
    /// The environments could not be evaluated.
    Environment(environment::facts::Error),
    /// No path could be chosen for a pile of a hoard.
    ProcessHoard(hoard::Error),
}

/// What holds for every hoard.
#[derive(Clone, Debug, PartialEq)]
pub struct GlobalConfig {
    /// Patterns of files to leave out everywhere, written as for git.
    pub ignores: Option<Vec<String>>,
    /// The public key to encrypt with, where a hoard names none.
    pub public_key: Option<String>,
}

impl Default for GlobalConfig {
    /// Nothing is ignored, no key is fixed.
    fn default() -> (made: Self)
        ensures
            made.ignores is None,
            made.public_key is None,
    {
        GlobalConfig { ignores: None, public_key: None }
    }
}

impl GlobalConfig {
    /// Adds `pattern` to the patterns of files to leave out.
    pub fn add_ignore(&mut self, pattern: String)
        ensures
            final(self).public_key == old(self).public_key,
            final(self).ignores is Some,
            final(self).ignores->0@ == (match old(self).ignores {
                Some(ignores) => ignores@.push(pattern),
                None => seq![pattern],
            }),
    {
        let mut taken: Option<Vec<String>> = None;
        core::mem::swap(&mut self.ignores, &mut taken);
        let mut ignores = match taken {
            Some(ignores) => ignores,
            None => Vec::new(),
        };
        ignores.push(pattern);
        self.ignores = Some(ignores);
    }
}

/// The configuration as declared, before it is built.
#[derive(Clone, Debug, PartialEq)]
pub struct Builder {
    /// The declared environments, each under its name.
    pub environments: Option<Vec<(String, EnvironmentFact)>>,
    /// Groups of environments of which a condition may name one each.
    pub exclusivity: Option<Vec<Vec<String>>>,
    /// The directory that holds the hoards.
    pub hoards_root: Option<String>,
    /// The configuration file.
    pub config_file: Option<String>,
    /// What to do.
    pub command: Option<Command>,
    /// Whether to go on where a check fails.
    pub force: bool,
    /// The declared hoards, each under its name.
    pub hoards: Option<Vec<(String, Hoard)>>,
    /// What holds for every hoard.
    pub global_config: Option<GlobalConfig>,
}

impl Default for Builder {
    fn default() -> (made: Self)
        ensures
            made.is_blank(),
    {
        Self::new()
    }
}

/// The declared environments of `builder`; none where it declares none.
pub open spec fn declared_environments(builder: Builder) -> Seq<(String, EnvironmentFact)> {
    match builder.environments {
        Some(pairs) => first_declarations(pairs@),
        None => Seq::empty(),
    }
}

/// The exclusivity groups of `builder`; none where it states none.
pub open spec fn declared_groups(builder: Builder) -> Seq<Seq<Seq<char>>> {
    match builder.exclusivity {
        Some(groups) => groups.deep_view(),
        None => Seq::empty(),
    }
}

/// The declared hoards of `builder`; none where it declares none.
pub open spec fn declared_hoards(builder: Builder) -> Seq<(String, Hoard)> {
    match builder.hoards {
        Some(hoards) => hoards@,
        None => Seq::empty(),
    }
}

/// Whether `config` has the settings of `builder`, with the defaults where
/// the builder is silent: the hoards below the data directory, the
/// configuration file below the configuration directory, validation as the
/// command.
pub open spec fn settings_follow(builder: Builder, dirs: &HoardProjectDirs, config: Config) -> bool {
    &&& config.hoards_root@ == (match builder.hoards_root {
        Some(path) => path@,
        None => joined_path(dirs.data(), crate::HOARDS_DIR_SLUG@),
    })
    &&& config.config_file@ == (match builder.config_file {
        Some(path) => path@,
        None => joined_path(dirs.config(), crate::CONFIG_FILE_NAME@),
    })
    &&& config.command == (match builder.command {
        Some(command) => command,
        None => Command::Validate,
    })
    &&& config.force == builder.force
    &&& match builder.global_config {
        Some(global) => config.global_config == global,
        None => config.global_config.ignores is None && config.global_config.public_key is None,
    }
}

/// Whether the hoard `declared` can be processed on a machine with the
/// environments `envs`.
pub open spec fn hoard_succeeds(
    declared: Hoard,
    envs: Map<Seq<char>, bool>,
    groups: Seq<Seq<Seq<char>>>,
    host: &Host,
) -> bool {
    exists|found: crate::config::hoard::Hoard|
        hoard_outcome(declared, envs, groups, host.vars@, host.home@, Ok(found))
}

/// Whether `made` is what the declared hoards come to on a machine with the
/// environments `envs`: each hoard processed, under its name and in the
/// declared order; or the error of the first hoard that fails.
pub open spec fn hoards_outcome(
    declared: Seq<(String, Hoard)>,
    envs: Map<Seq<char>, bool>,
    groups: Seq<Seq<Seq<char>>>,
    host: &Host,
    made: Result<Seq<(String, crate::config::hoard::Hoard)>, hoard::Error>,
) -> bool {
    match made {
        Ok(hoards) => hoards.len() == declared.len() && forall|i: int|
            0 <= i < declared.len() ==> (#[trigger] hoards[i]).0 == declared[i].0 && hoard_outcome(
                declared[i].1,
                envs,
                groups,
                host.vars@,
                host.home@,
                Ok(hoards[i].1),
            ),
        Err(error) => exists|i: int|
            0 <= i < declared.len() && hoard_outcome(
                (#[trigger] declared[i]).1,
                envs,
                groups,
                host.vars@,
                host.home@,
                Err(error),
            ) && forall|j: int|
                0 <= j < i ==> hoard_succeeds((#[trigger] declared[j]).1, envs, groups, host),
    }
}

impl Builder {
    /// Whether nothing is set.
    pub open spec fn is_blank(&self) -> bool {
        &&& self.environments is None
        &&& self.exclusivity is None
        &&& self.hoards_root is None
        &&& self.config_file is None
        &&& self.command is None
        &&& !self.force
        &&& self.hoards is None
        &&& self.global_config is None
    }

    /// The path of the configuration file, where none is given.
    pub fn default_config_file(dirs: &HoardProjectDirs) -> (path: String)
        ensures
            path@ == joined_path(dirs.config(), crate::CONFIG_FILE_NAME@),
    {
        join_path(dirs.config_dir(), crate::CONFIG_FILE_NAME)
    }

    /// The directory that holds the hoards, where none is given.
    pub fn default_hoard_root(dirs: &HoardProjectDirs) -> (path: String)
        ensures
            path@ == joined_path(dirs.data(), crate::HOARDS_DIR_SLUG@),
    {
        join_path(dirs.data_dir(), crate::HOARDS_DIR_SLUG)
    }

    /// A builder with nothing set. Built as it is, it gives the default
    /// configuration.
    pub fn new() -> (made: Self)
        ensures
            made.is_blank(),
    {
        Self {
            hoards: None,
            hoards_root: None,
            config_file: None,
            command: None,
            environments: None,
            exclusivity: None,
            force: false,
            global_config: None,
        }
    }

    /// Puts what `other` sets over what this builder sets: the hoards' root,
    /// the configuration file and the command. Force holds where either
    /// asks for it. All else stays.
    pub fn layer(self, other: Self) -> (made: Self)
        ensures
            made.hoards_root == (if other.hoards_root is Some {
                other.hoards_root
            } else {
                self.hoards_root
            }),
            made.config_file == (if other.config_file is Some {
                other.config_file
            } else {
                self.config_file
            }),
            made.command == (if other.command is Some {
                other.command
            } else {
                self.command
            }),
            made.force == (self.force || other.force),
            made.environments == self.environments,
            made.exclusivity == self.exclusivity,
            made.hoards == self.hoards,
            made.global_config == self.global_config,
    {
        let mut made = self;
        if let Some(path) = other.hoards_root {
            made = made.set_hoards_root(path);
        }
        if let Some(path) = other.config_file {
            made = made.set_config_file(path);
        }
        if let Some(command) = other.command {
            made = made.set_command(command);
        }
        made.force = made.force || other.force;
        made
    }

    /// Sets the hoards.
    pub fn set_hoards(self, hoards: Vec<(String, Hoard)>) -> (made: Self)
        ensures
            made == (Builder { hoards: Some(hoards), ..self }),
    {
        let mut made = self;
        made.hoards = Some(hoards);
        made
    }

    /// Sets the directory that holds the hoards.
    pub fn set_hoards_root(self, path: String) -> (made: Self)
        ensures
            made == (Builder { hoards_root: Some(path), ..self }),
    {
        let mut made = self;
        made.hoards_root = Some(path);
        made
    }

    /// Sets the configuration file. This only notes the path; nothing is
    /// read.
    pub fn set_config_file(self, path: String) -> (made: Self)
        ensures
            made == (Builder { config_file: Some(path), ..self }),
    {
        let mut made = self;
        made.config_file = Some(path);
        made
    }

    /// Sets the command to run.
    pub fn set_command(self, cmd: Command) -> (made: Self)
        ensures
            made == (Builder { command: Some(cmd), ..self }),
    {
        let mut made = self;
        made.command = Some(cmd);
        made
    }

    /// Sets whether to go on where a check fails.
    pub fn set_force(self, force: bool) -> (made: Self)
        ensures
            made == (Builder { force, ..self }),
    {
        let mut made = self;
        made.force = force;
        made
    }

    /// Takes the hoards away.
    pub fn unset_hoards(self) -> (made: Self)
        ensures
            made == (Builder { hoards: None, ..self }),
    {
        let mut made = self;
        made.hoards = None;
        made
    }

    /// Takes the hoards' root away.
    pub fn unset_hoards_root(self) -> (made: Self)
        ensures
            made == (Builder { hoards_root: None, ..self }),
    {
        let mut made = self;
        made.hoards_root = None;
        made
    }

    /// Takes the configuration file away.
    pub fn unset_config_file(self) -> (made: Self)
        ensures
            made == (Builder { config_file: None, ..self }),
    {
        let mut made = self;
        made.config_file = None;
        made
    }

    /// Takes the command away.
    pub fn unset_command(self) -> (made: Self)
        ensures
            made == (Builder { command: None, ..self }),
    {
        let mut made = self;
        made.command = None;
        made
    }

    /// Goes back to stopping where a check fails.
    pub fn unset_force(self) -> (made: Self)
        ensures
            made == (Builder { force: false, ..self }),
    {
        let mut made = self;
        made.force = false;
        made
    }

    /// Builds the configuration for the machine `host`.
    ///
    /// The declared environments are evaluated first; of two declarations of
    /// one name the first counts. Then each hoard is processed in the
    /// declared order. What the builder leaves open is filled in from `dirs`
    /// and the defaults. The first step that fails is the error.
    pub fn build(self, dirs: &HoardProjectDirs, host: &Host) -> (made: Result<Config, Error>)
        ensures
            match made {
                Ok(config) => {
                    &&& closed(declared_environments(self))
                    &&& acyclic(declared_environments(self))
                    &&& settings_follow(self, dirs, config)
                    &&& exists|envs: Map<Seq<char>, bool>|
                        describes(declared_environments(self), host, envs) && hoards_outcome(
                            declared_hoards(self),
                            envs,
                            declared_groups(self),
                            host,
                            Ok(config.hoards@),
                        )
                },
                Err(Error::Environment(error)) => fault(declared_environments(self), error),
                Err(Error::ProcessHoard(error)) => {
                    &&& closed(declared_environments(self))
                    &&& acyclic(declared_environments(self))
                    &&& exists|envs: Map<Seq<char>, bool>|
                        describes(declared_environments(self), host, envs) && hoards_outcome(
                            declared_hoards(self),
                            envs,
                            declared_groups(self),
                            host,
                            Err(error),
                        )
                },
            },
    {
        let Builder {
            environments,
            exclusivity,
            hoards_root,
            config_file,
            command,
            force,
            hoards,
            global_config,
        } = self;
        let declared = Environments::from_pairs(
            match environments {
                Some(pairs) => pairs,
                None => Vec::new(),
            },
        );
        assert(declared@ =~= declared_environments(self));
        let envs = match declared.evaluate(host) {
            Ok(envs) => envs,
            Err(error) => {
                return Err(Error::Environment(error));
            },
        };
        let groups = ExclusivityConstraints::new(
            match exclusivity {
                Some(groups) => groups,
                None => Vec::new(),
            },
        );
        assert(groups@ =~= declared_groups(self));
        let hoards_root = match hoards_root {
            Some(path) => path,
            None => Self::default_hoard_root(dirs),
        };
        let config_file = match config_file {
            Some(path) => path,
            None => Self::default_config_file(dirs),
        };
        let command = match command {
            Some(command) => command,
            None => Command::default(),
        };
        let global_config = match global_config {
            Some(global) => global,
            None => GlobalConfig::default(),
        };
        let given: Vec<(String, Hoard)> = match hoards {
            Some(hoards) => hoards,
            None => Vec::new(),
        };
        let ghost all = given@;
        assert(all =~= declared_hoards(self));
        let mut processed: Vec<(String, crate::config::hoard::Hoard)> = Vec::new();
        for item in it: given
            invariant
                it.seq() == all,
                all == declared_hoards(self),
                groups@ == declared_groups(self),
                closed(declared_environments(self)),
                acyclic(declared_environments(self)),
                describes(declared_environments(self), host, envs@),
                processed@.len() == it.index(),
                forall|i: int|
                    0 <= i < it.index() ==> (#[trigger] processed@[i]).0 == all[i].0
                        && hoard_outcome(
                        all[i].1,
                        envs@,
                        groups@,
                        host.vars@,
                        host.home@,
                        Ok(processed@[i].1),
                    ),
        {
            let ghost at = it.index();
            let (name, hoard) = item;
            assert(0 <= at < all.len());
            assert(all[at].1 == hoard && all[at].0 == name);
            match hoard.process_with(&envs, &groups, &host.vars, host.home.as_str()) {
                Ok(found) => {
                    processed.push((name, found));
                },
                Err(error) => {
                    proof {
                        assert(hoard_outcome(
                            all[at].1,
                            envs@,
                            groups@,
                            host.vars@,
                            host.home@,
                            Err(error),
                        ));
                        assert forall|j: int| 0 <= j < at implies hoard_succeeds(
                            (#[trigger] all[j]).1,
                            envs@,
                            groups@,
                            host,
                        ) by {
                            assert(hoard_outcome(
                                all[j].1,
                                envs@,
                                groups@,
                                host.vars@,
                                host.home@,
                                Ok(processed@[j].1),
                            ));
                        }
                        assert(hoards_outcome(all, envs@, groups@, host, Err(error)));
                    }
                    return Err(Error::ProcessHoard(error));
                },
            }
        }
        assert(hoards_outcome(all, envs@, groups@, host, Ok(processed@)));
        Ok(Config { command, hoards_root, config_file, global_config, hoards: processed, force })
    }
}

} // verus!
