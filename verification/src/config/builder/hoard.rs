//! Hoards as the configuration declares them, and the step that chooses
//! their paths.
//!
//! A hoard is one pile or several named piles. A pile lists candidate paths,
//! each under a condition such as `linux|has_steam`. Processing a pile
//! chooses the path whose condition matches the machine best, and expands
//! the variables in it.

use super::environment::EnvironmentTable;
use super::resolver::{
    allowed, decision, no_match, pairs_view, resolve, tied, CandidateTable, Decision,
    ExclusivityConstraints,
};
use crate::env_vars::{expand_env_in_path, expanded, Variables};
use crate::text::copy_names;
use vstd::prelude::*;
use vstd::string::*;

verus! {

/// Why a hoard could not be processed.
#[derive(Debug, Clone, PartialEq, Eq)]
pub enum Error {
    /// No path could be chosen for a pile.
    Resolve(super::resolver::Error),
    /// A variable in the chosen path could not be expanded.
    ExpandEnv(crate::env_vars::Error),
}

/// Encryption with a password.
#[derive(Debug, PartialEq)]
pub enum SymmetricEncryption {
    /// The password itself.
    Password(String),
    /// A command whose first line of output is the password.
    PasswordCmd(Vec<String>),
}

impl SymmetricEncryption {
    /// Whether `self` and `other` say the same.
    pub open spec fn same(&self, other: &Self) -> bool {
        match (self, other) {
            (Self::Password(mine), Self::Password(theirs)) => mine@ == theirs@,
            (Self::PasswordCmd(mine), Self::PasswordCmd(theirs)) => mine.deep_view()
                == theirs.deep_view(),
            _ => false,
        }
    }
}

impl Clone for SymmetricEncryption {
    fn clone(&self) -> (copy: Self)
        ensures
            copy.same(self),
    {
        match self {
            Self::Password(password) => Self::Password(password.clone()),
            Self::PasswordCmd(command) => Self::PasswordCmd(copy_names(command)),
        }
    }
}

/// Encryption with a public key.
#[derive(Debug, PartialEq)]
pub struct AsymmetricEncryption {
    /// The public key, where one is fixed.
    pub public_key: Option<String>,
    /// Whether the output is ASCII-armoured.
    pub armor: bool,
}

impl AsymmetricEncryption {
    /// Whether `self` and `other` say the same.
    pub open spec fn same(&self, other: &Self) -> bool {
        self.public_key.deep_view() == other.public_key.deep_view() && self.armor == other.armor
    }
}

impl Clone for AsymmetricEncryption {
    fn clone(&self) -> (copy: Self)
        ensures
            copy.same(self),
    {
        Self {
            public_key: match &self.public_key {
                Some(key) => Some(key.clone()),
                None => None,
            },
            armor: self.armor,
        }
    }
}

impl Default for AsymmetricEncryption {
    /// No fixed key, armoured output.
    fn default() -> (made: Self)
        ensures
            made.public_key is None,
            made.armor,
    {
        Self { public_key: None, armor: true }
    }
}

/// How a hoard or pile is encrypted.
#[derive(Debug, PartialEq)]
pub enum Encryption {
    /// With a password.
    Symmetric(SymmetricEncryption),
    /// With a public key.
    Asymmetric(AsymmetricEncryption),
}

impl Clone for Encryption {
    fn clone(&self) -> (copy: Self)
        ensures
            copy.same(self),
    {
        match self {
            Self::Symmetric(symmetric) => Self::Symmetric(symmetric.clone()),
            Self::Asymmetric(asymmetric) => Self::Asymmetric(asymmetric.clone()),
        }
    }
}

impl Encryption {
    /// Whether `self` and `other` say the same.
    pub open spec fn same(&self, other: &Self) -> bool {
        match (self, other) {
            (Self::Symmetric(mine), Self::Symmetric(theirs)) => mine.same(theirs),
            (Self::Asymmetric(mine), Self::Asymmetric(theirs)) => mine.same(theirs),
            _ => false,
        }
    }

    /// The kind of encryption, as a word.
    pub fn name(&self) -> (name: &'static str)
        ensures
            name@ == (match self {
                Self::Symmetric(_) => "symmetric"@,
                Self::Asymmetric(_) => "asymmetric"@,
            }),
    {
        match *self {
            Self::Symmetric(_) => "symmetric",
            Self::Asymmetric(_) => "asymmetric",
        }
    }
}

/// How the files of a pile are walked.
#[derive(Debug, PartialEq)]
pub struct Walker {
    /// Follow symbolic links.
    pub follow_links: bool,
    /// Take hidden files too.
    pub hidden: bool,
    /// How deep to go; without a limit where there is none.
    pub max_depth: Option<usize>,
    /// Patterns of files to leave out.
    pub exclude: Vec<String>,
    /// The pattern of files to take.
    pub pattern: String,
    /// Whether the pattern is a regular expression, not a glob.
    pub regex: bool,
    /// Whether the pattern minds the case of letters.
    pub case_sensitive: bool,
}

impl Walker {
    /// Whether `self` and `other` say the same.
    pub open spec fn same(&self, other: &Self) -> bool {
        &&& self.follow_links == other.follow_links
        &&& self.hidden == other.hidden
        &&& self.max_depth == other.max_depth
        &&& self.exclude.deep_view() == other.exclude.deep_view()
        &&& self.pattern@ == other.pattern@
        &&& self.regex == other.regex
        &&& self.case_sensitive == other.case_sensitive
    }
}

impl Clone for Walker {
    fn clone(&self) -> (copy: Self)
        ensures
            copy.same(self),
    {
        Self {
            follow_links: self.follow_links,
            hidden: self.hidden,
            max_depth: self.max_depth,
            exclude: copy_names(&self.exclude),
            pattern: self.pattern.clone(),
            regex: self.regex,
            case_sensitive: self.case_sensitive,
        }
    }
}

impl Default for Walker {
    /// Every file that is not hidden, links not followed, at any depth.
    fn default() -> (made: Self)
        ensures
            !made.follow_links,
            !made.hidden,
            made.max_depth is None,
            made.exclude@.len() == 0,
            made.pattern@ == "*"@,
            !made.regex,
            !made.case_sensitive,
    {
        Self {
            follow_links: false,
            hidden: false,
            max_depth: None,
            exclude: Vec::new(),
            pattern: "*".to_owned(),
            regex: false,
            case_sensitive: false,
        }
    }
}

/// The configuration of a hoard or pile.
#[derive(Debug, PartialEq)]
pub struct Config {
    /// How to encrypt, if at all.
    pub encryption: Option<Encryption>,
    /// How to walk the files.
    pub walker: Walker,
}

impl Config {
    /// Whether `self` and `other` say the same.
    pub open spec fn same(&self, other: &Self) -> bool {
        &&& self.walker.same(&other.walker)
        &&& match (self.encryption, other.encryption) {
            (Some(mine), Some(theirs)) => mine.same(&theirs),
            (None, None) => true,
            _ => false,
        }
    }
}

impl Clone for Config {
    fn clone(&self) -> (copy: Self)
        ensures
            copy.same(self),
    {
        Self {
            encryption: match &self.encryption {
                Some(encryption) => Some(encryption.clone()),
                None => None,
            },
            walker: self.walker.clone(),
        }
    }
}

impl Default for Config {
    /// No encryption, the default walker.
    fn default() -> (made: Self)
        ensures
            made.encryption is None,
            made.walker.pattern@ == "*"@,
            made.walker.exclude@.len() == 0,
            made.walker.max_depth is None,
            !made.walker.follow_links && !made.walker.hidden && !made.walker.regex
                && !made.walker.case_sensitive,
    {
        Self { encryption: None, walker: Walker::default() }
    }
}

/// One pile: candidate paths, each under its condition.
#[derive(Clone, Debug, PartialEq)]
pub struct Pile {
    /// The pile's own configuration, where it has one.
    pub config: Option<Config>,
    /// The candidates: a condition as written, and the path it stands for.
    pub items: Vec<(String, String)>,
}

/// Several related piles, each under its name.
#[derive(Clone, Debug, PartialEq)]
pub struct MultipleEntries {
    /// The configuration for the piles that have none of their own.
    pub config: Option<Config>,
    /// The piles, each under its name.
    pub items: Vec<(String, Pile)>,
}

/// A hoard as declared.
#[derive(Clone, Debug, PartialEq)]
pub enum Hoard {
    /// One pile without a name.
    Single(Pile),
    /// Several piles with names.
    Multiple(MultipleEntries),
}

/// Whether every condition of `items` takes at most one name from each
/// group.
pub open spec fn all_allowed(items: Seq<(String, String)>, groups: Seq<Seq<Seq<char>>>) -> bool {
    forall|i: int| 0 <= i < items.len() ==> allowed(#[trigger] items[i].0@, groups)
}

/// Whether `made` is what the candidates `items` come to.
///
/// A condition that names two environments of one group is refused, the
/// first one in the error. Else the candidates are resolved against `envs`:
/// nothing matches, and there is no path; or candidates tie, and the error
/// names two of them; or one wins, and its path is expanded with `vars` and
/// `home`, which gives the path or an error.
pub open spec fn path_outcome(
    items: Seq<(String, String)>,
    envs: Map<Seq<char>, bool>,
    groups: Seq<Seq<Seq<char>>>,
    vars: Map<Seq<char>, Option<Seq<char>>>,
    home: Seq<char>,
    made: Result<Option<String>, Error>,
) -> bool {
    match made {
        Err(Error::Resolve(super::resolver::Error::InvalidCondition(key))) => exists|i: int|
            0 <= i < items.len() && key@ == items[i].0@ && !allowed(items[i].0@, groups)
                && forall|j: int| 0 <= j < i ==> allowed(#[trigger] items[j].0@, groups),
        Err(Error::Resolve(super::resolver::Error::Indecision(left, right))) => all_allowed(
            items,
            groups,
        ) && exists|i: int, j: int|
            tied(pairs_view(items), envs, i, j) && left@ == items[i].0@ && right@ == items[j].0@,
        Err(Error::ExpandEnv(error)) => all_allowed(items, groups) && (decision(
            pairs_view(items),
            envs,
        ) matches Decision::Chosen(template) && expanded(template@, vars, home) == Err::<
            Seq<char>,
            crate::env_vars::Failure,
        >(error@)),
        Ok(None) => all_allowed(items, groups) && no_match(pairs_view(items), envs),
        Ok(Some(path)) => all_allowed(items, groups) && (decision(pairs_view(items), envs) matches Decision::Chosen(
            template,
        ) && expanded(template@, vars, home) == Ok::<Seq<char>, crate::env_vars::Failure>(path@)),
    }
}

/// The path of `made`, or its error.
pub open spec fn path_of(made: Result<crate::config::hoard::Pile, Error>) -> Result<
    Option<String>,
    Error,
> {
    match made {
        Ok(pile) => Ok(pile.path),
        Err(error) => Err(error),
    }
}

impl Pile {
    /// Chooses the path of this pile for the machine that `envs` describes,
    /// and expands it. The pile's configuration goes with it.
    pub fn process_with(
        self,
        envs: &EnvironmentTable,
        exclusivity: &ExclusivityConstraints,
        vars: &Variables,
        home: &str,
    ) -> (made: Result<crate::config::hoard::Pile, Error>)
        ensures
            path_outcome(self.items@, envs@, exclusivity@, vars@, home@, path_of(made)),
            made matches Ok(pile) ==> pile.config == self.config,
    {
        let Pile { config, items } = self;
        let ghost given = items@;
        let table = match CandidateTable::new(items, exclusivity) {
            Ok(table) => table,
            Err(error) => {
                return Err(Error::Resolve(error));
            },
        };
        match resolve(&table, envs) {
            Err(error) => Err(Error::Resolve(error)),
            Ok(None) => Ok(crate::config::hoard::Pile { config, path: None }),
            Ok(Some(template)) => {
                match expand_env_in_path(template.as_str(), vars, home) {
                    Ok(path) => Ok(crate::config::hoard::Pile { config, path: Some(path) }),
                    Err(error) => Err(Error::ExpandEnv(error)),
                }
            },
        }
    }
}

/// Whether `found` is the configuration that a pile with the configuration
/// `own` has in a hoard with the configuration `shared`: its own where it
/// has one, else a copy of the shared one.
pub open spec fn inherited(own: Option<Config>, shared: Option<Config>, found: Option<Config>) -> bool {
    match own {
        Some(_) => found == own,
        None => match shared {
            Some(config) => found is Some && found->0.same(&config),
            None => found is None,
        },
    }
}

/// Whether `made` is what the piles of `declared` come to: each pile's path
/// and configuration, under the pile's name and in the declared order; or
/// the error of the first pile that fails.
pub open spec fn entries_outcome(
    declared: MultipleEntries,
    envs: Map<Seq<char>, bool>,
    groups: Seq<Seq<Seq<char>>>,
    vars: Map<Seq<char>, Option<Seq<char>>>,
    home: Seq<char>,
    made: Result<crate::config::hoard::MultipleEntries, Error>,
) -> bool {
    match made {
        Ok(entries) => entries.piles@.len() == declared.items@.len() && forall|i: int|
            0 <= i < declared.items@.len() ==> {
                &&& (#[trigger] entries.piles@[i]).0 == declared.items@[i].0
                &&& path_outcome(
                    declared.items@[i].1.items@,
                    envs,
                    groups,
                    vars,
                    home,
                    Ok(entries.piles@[i].1.path),
                )
                &&& inherited(
                    declared.items@[i].1.config,
                    declared.config,
                    entries.piles@[i].1.config,
                )
            },
        Err(error) => exists|i: int|
            0 <= i < declared.items@.len() && path_outcome(
                (#[trigger] declared.items@[i]).1.items@,
                envs,
                groups,
                vars,
                home,
                Err(error),
            ) && forall|j: int|
                0 <= j < i ==> exists|path: Option<String>|
                    path_outcome(
                        (#[trigger] declared.items@[j]).1.items@,
                        envs,
                        groups,
                        vars,
                        home,
                        Ok(path),
                    ),
    }
}

impl MultipleEntries {
    /// Chooses the path of each pile, in order. A pile without a
    /// configuration of its own gets the hoard's. The first pile that fails
    /// is the error, and no pile is handed out then.
    pub fn process_with(
        self,
        envs: &EnvironmentTable,
        exclusivity: &ExclusivityConstraints,
        vars: &Variables,
        home: &str,
    ) -> (made: Result<crate::config::hoard::MultipleEntries, Error>)
        ensures
            entries_outcome(self, envs@, exclusivity@, vars@, home@, made),
    {
        let MultipleEntries { config, items } = self;
        let ghost given = items@;
        let mut piles: Vec<(String, crate::config::hoard::Pile)> = Vec::new();
        for item in it: items
            invariant
                it.seq() == given,
                given == self.items@,
                config == self.config,
                piles@.len() == it.index(),
                forall|i: int|
                    0 <= i < it.index() ==> {
                        &&& (#[trigger] piles@[i]).0 == given[i].0
                        &&& path_outcome(
                            given[i].1.items@,
                            envs@,
                            exclusivity@,
                            vars@,
                            home@,
                            Ok(piles@[i].1.path),
                        )
                        &&& inherited(given[i].1.config, config, piles@[i].1.config)
                    },
        {
            let ghost at = it.index();
            let (name, pile) = item;
            assert(given[at].1 == pile && given[at].0 == name);
            match pile.process_with(envs, exclusivity, vars, home) {
                Err(error) => {
                    proof {
                        assert(path_outcome(
                            given[at].1.items@,
                            envs@,
                            exclusivity@,
                            vars@,
                            home@,
                            Err(error),
                        ));
                        assert forall|j: int| 0 <= j < at implies exists|path: Option<String>|
                            path_outcome(
                                (#[trigger] given[j]).1.items@,
                                envs@,
                                exclusivity@,
                                vars@,
                                home@,
                                Ok(path),
                            ) by {
                            assert(path_outcome(
                                given[j].1.items@,
                                envs@,
                                exclusivity@,
                                vars@,
                                home@,
                                Ok(piles@[j].1.path),
                            ));
                        }
                    }
                    return Err(error);
                },
                Ok(found) => {
                    let crate::config::hoard::Pile { config: own, path } = found;
                    let used = match own {
                        Some(own) => Some(own),
                        None => match &config {
                            Some(shared) => Some(shared.clone()),
                            None => None,
                        },
                    };
                    piles.push((name, crate::config::hoard::Pile { config: used, path }));
                },
            }
        }
        Ok(crate::config::hoard::MultipleEntries { piles })
    }
}

/// Whether `made` is what the hoard `declared` comes to: its one pile with
/// the path chosen, or its named piles; or the error of the first pile that
/// fails.
pub open spec fn hoard_outcome(
    declared: Hoard,
    envs: Map<Seq<char>, bool>,
    groups: Seq<Seq<Seq<char>>>,
    vars: Map<Seq<char>, Option<Seq<char>>>,
    home: Seq<char>,
    made: Result<crate::config::hoard::Hoard, Error>,
) -> bool {
    match (declared, made) {
        (Hoard::Single(pile), Ok(crate::config::hoard::Hoard::Anonymous(found))) => {
            &&& path_outcome(pile.items@, envs, groups, vars, home, Ok(found.path))
            &&& found.config == pile.config
        },
        (Hoard::Single(pile), Err(error)) => path_outcome(
            pile.items@,
            envs,
            groups,
            vars,
            home,
            Err(error),
        ),
        (Hoard::Multiple(entries), Ok(crate::config::hoard::Hoard::Named(found))) => {
            entries_outcome(entries, envs, groups, vars, home, Ok(found))
        },
        (Hoard::Multiple(entries), Err(error)) => entries_outcome(
            entries,
            envs,
            groups,
            vars,
            home,
            Err(error),
        ),
        _ => false,
    }
}

impl Hoard {
    /// Chooses the path of each pile of this hoard for the machine that
    /// `envs` describes.
    pub fn process_with(
        self,
        envs: &EnvironmentTable,
        exclusivity: &ExclusivityConstraints,
        vars: &Variables,
        home: &str,
    ) -> (made: Result<crate::config::hoard::Hoard, Error>)
        ensures
            hoard_outcome(self, envs@, exclusivity@, vars@, home@, made),
    {
        match self {
            Hoard::Single(single) => match single.process_with(envs, exclusivity, vars, home) {
                Ok(pile) => Ok(crate::config::hoard::Hoard::Anonymous(pile)),
                Err(error) => Err(error),
            },
            Hoard::Multiple(multiple) => match multiple.process_with(
                envs,
                exclusivity,
                vars,
                home,
            ) {
                Ok(entries) => Ok(crate::config::hoard::Hoard::Named(entries)),
                Err(error) => Err(error),
            },
        }
    }
}

} // verus!
