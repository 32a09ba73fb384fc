//! The fact that a path exists.

use crate::env_vars::{expand_env_in_path, expanded, Failure, Variables};
use vstd::prelude::*;

verus! {

/// The fact that something exists at a path: a file, a directory, a link or
/// anything else. The path may refer to variables and begin with `~`.
#[derive(Clone, PartialEq, Debug, Hash)]
pub struct PathExists(pub String);

impl PathExists {
    /// The path to look at: the written one, expanded. There is none where
    /// the expansion fails, and the fact then does not hold.
    pub fn location(&self, vars: &Variables, home: &str) -> (place: Option<String>)
        ensures
            match place {
                Some(path) => expanded(self.0@, vars@, home@) == Ok::<Seq<char>, Failure>(path@),
                None => expanded(self.0@, vars@, home@) is Err,
            },
    {
        match expand_env_in_path(self.0.as_str(), vars, home) {
            Ok(path) => Some(path),
            Err(_) => None,
        }
    }
}

} // verus!
