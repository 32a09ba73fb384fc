//! The kinds of facts, and the value of one fact on one machine.

use super::path::PathExists;
use super::EnvironmentTable;
use crate::env_vars::{expanded, Lookup, Variables};
use crate::text::{contains_name, same_text};
use vstd::prelude::*;

verus! {

/// Why the facts could not be evaluated.
#[derive(Debug, Clone, PartialEq, Eq)]
pub enum Error {
    /// A combination refers to a name that is not declared. Holds the name.
    UnknownEnvironment(String),
    /// A fact depends on itself through the combinations it refers to. Holds
    /// the name of a fact that does.
    CyclicDependency(String),
}

/// A fact about the machine.
#[derive(Clone, PartialEq, Debug)]
pub enum EnvironmentFact {
    /// The operating system has this name.
    OsIs(String),
    /// The environment variable is set.
    EnvVarExists(String),
    /// The environment variable is set to this text.
    EnvVarEquals(String, String),
    /// A program of this name is on the search path.
    CommandExists(String),
    /// Something exists at this path.
    PathExists(PathExists),
    /// At least one of the named facts holds.
    Or(Vec<String>),
    /// All of the named facts hold.
    And(Vec<String>),
}

/// What was found out about the machine, once.
pub struct Host {
    /// The name of the operating system.
    pub os: String,
    /// The user's home directory.
    pub home: String,
    /// The environment variables.
    pub vars: Variables,
    /// The programs that were looked for and found on the search path.
    pub commands: Vec<String>,
    /// The expanded paths that were looked at and exist.
    pub paths: Vec<String>,
}

impl EnvironmentFact {
    /// The names of the facts that this one refers to.
    pub open spec fn refs(&self) -> Seq<Seq<char>> {
        match self {
            Self::Or(names) => names.deep_view(),
            Self::And(names) => names.deep_view(),
            _ => Seq::empty(),
        }
    }

    /// Whether this fact, which refers to no other, holds on `host`. A path
    /// whose expansion fails does not exist.
    pub open spec fn holds_on(&self, host: &Host) -> bool {
        match self {
            Self::OsIs(name) => host.os@ == name@,
            Self::EnvVarExists(var) => host.vars@.contains_key(var@),
            Self::EnvVarEquals(var, value) => host.vars@.contains_key(var@) && host.vars@[var@]
                == Some(value@),
            Self::CommandExists(name) => host.commands.deep_view().contains(name@),
            Self::PathExists(path) => match expanded(path.0@, host.vars@, host.home@) {
                Ok(place) => host.paths.deep_view().contains(place),
                Err(_) => false,
            },
            Self::Or(_) => false,
            Self::And(_) => false,
        }
    }

    /// Whether this fact holds on `host`, where `table` gives the facts it
    /// refers to.
    pub open spec fn value(&self, host: &Host, table: Map<Seq<char>, bool>) -> bool {
        match self {
            Self::Or(names) => exists|k: int|
                0 <= k < names.len() && table.contains_key(#[trigger] names.deep_view()[k])
                    && table[names.deep_view()[k]],
            Self::And(names) => forall|k: int|
                0 <= k < names.len() ==> table.contains_key(#[trigger] names.deep_view()[k])
                    && table[names.deep_view()[k]],
            _ => self.holds_on(host),
        }
    }

    /// Decides a fact that refers to no other.
    pub(crate) fn probe(&self, host: &Host) -> (held: bool)
        requires
            !(self is Or),
            !(self is And),
        ensures
            held == self.holds_on(host),
    {
        match self {
            Self::OsIs(name) => same_text(host.os.as_str(), name.as_str()),
            Self::EnvVarExists(var) => match host.vars.get(var.as_str()) {
                Lookup::Absent => false,
                _ => true,
            },
            Self::EnvVarEquals(var, value) => match host.vars.get(var.as_str()) {
                Lookup::Value(text) => same_text(text.as_str(), value.as_str()),
                _ => false,
            },
            Self::CommandExists(name) => contains_name(&host.commands, name),
            Self::PathExists(path) => match path.location(&host.vars, host.home.as_str()) {
                Some(place) => contains_name(&host.paths, &place),
                None => false,
            },
            Self::Or(_) => false,
            Self::And(_) => false,
        }
    }

    /// Evaluates this fact on `host`. A combination takes the facts it
    /// refers to from `already_evaluated`; the first one that is missing
    /// there is the error.
    pub fn evaluate(&self, host: &Host, already_evaluated: &EnvironmentTable) -> (made: Result<
        bool,
        Error,
    >)
        ensures
            match made {
                Ok(held) => held == self.value(host, already_evaluated@) && forall|k: int|
                    0 <= k < self.refs().len() ==> already_evaluated@.contains_key(
                        #[trigger] self.refs()[k],
                    ),
                Err(Error::UnknownEnvironment(name)) => exists|k: int|
                    0 <= k < self.refs().len() && self.refs()[k] == name@
                        && !already_evaluated@.contains_key(name@) && forall|j: int|
                        0 <= j < k ==> already_evaluated@.contains_key(#[trigger] self.refs()[j]),
                Err(_) => false,
            },
    {
        match self {
            Self::Or(names) => {
                let mut any = false;
                let mut k: usize = 0;
                while k < names.len()
                    invariant
                        k <= names.len(),
                        self.refs() == names.deep_view(),
                        forall|j: int|
                            0 <= j < k ==> already_evaluated@.contains_key(
                                #[trigger] names.deep_view()[j],
                            ),
                        any == exists|j: int|
                            0 <= j < k && already_evaluated@.contains_key(
                                #[trigger] names.deep_view()[j],
                            ) && already_evaluated@[names.deep_view()[j]],
                    decreases names.len() - k,
                {
                    assert(names.deep_view()[k as int] == names[k as int]@);
                    match already_evaluated.get(names[k].as_str()) {
                        None => {
                            let name = names[k].clone();
                            assert(self.refs()[k as int] == name@);
                            return Err(Error::UnknownEnvironment(name));
                        },
                        Some(held) => {
                            any = any || held;
                        },
                    }
                    k += 1;
                }
                Ok(any)
            },
            Self::And(names) => {
                let mut all = true;
                let mut k: usize = 0;
                while k < names.len()
                    invariant
                        k <= names.len(),
                        self.refs() == names.deep_view(),
                        forall|j: int|
                            0 <= j < k ==> already_evaluated@.contains_key(
                                #[trigger] names.deep_view()[j],
                            ),
                        all == forall|j: int|
                            0 <= j < k ==> already_evaluated@.contains_key(
                                #[trigger] names.deep_view()[j],
                            ) && already_evaluated@[names.deep_view()[j]],
                    decreases names.len() - k,
                {
                    assert(names.deep_view()[k as int] == names[k as int]@);
                    match already_evaluated.get(names[k].as_str()) {
                        None => {
                            let name = names[k].clone();
                            assert(self.refs()[k as int] == name@);
                            return Err(Error::UnknownEnvironment(name));
                        },
                        Some(held) => {
                            all = all && held;
                        },
                    }
                    k += 1;
                }
                Ok(all)
            },
            _ => Ok(self.probe(host)),
        }
    }
}

} // verus!
