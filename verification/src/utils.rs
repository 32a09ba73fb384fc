//! Rules about files and their names that the rest of the crate shares.

use vstd::prelude::*;

verus! {

/// What can go wrong with a path.
#[derive(Debug, Clone, PartialEq, Eq)]
pub enum Error {
    /// The path goes through a part of two characters, such as `..`. Holds
    /// the path.
    SneakyPath(String),
    /// The path has no parent. Holds the path.
    InvalidParent(String),
}

/// Whether `c` is an ASCII capital.
pub open spec fn ascii_upper(c: char) -> bool {
    'A' <= c && c <= 'Z'
}

/// Whether `pattern` holds an ASCII capital.
pub open spec fn has_upper(pattern: Seq<char>) -> bool {
    exists|i: int| 0 <= i < pattern.len() && ascii_upper(#[trigger] pattern[i])
}

/// The class of capital letters, as a regular expression.
pub const UPPER_CLASS: &'static str = "[[:upper:]]";

/// The regular expression that finds a path part of two characters.
pub const SNEAKY_PATTERN: &'static str = "/..$|^../|/../|^..$";

/// Whether the regular expression `pattern` matches somewhere in the bytes of
/// `text`, as `regex::bytes::Regex` finds it; it does not where the pattern
/// does not compile.
pub uninterp spec fn bytes_match(pattern: Seq<char>, text: Seq<char>) -> bool;

/// Whether the regular expression `pattern` matches somewhere in `text`, as
/// `regex::Regex` finds it; it does not where the pattern does not compile.
pub uninterp spec fn text_match(pattern: Seq<char>, text: Seq<char>) -> bool;

/// Calls `regex::bytes::Regex::is_match` for `pattern` on the bytes of
/// `text`. The contract gives the answer its name, and says what the crate
/// documents of the class `[[:upper:]]`: it is `[A-Z]`, so it matches exactly
/// where the text holds an ASCII capital.
#[verifier::external_body]
fn bytes_regex_matches(pattern: &str, text: &str) -> (found: bool)
    ensures
        found == bytes_match(pattern@, text@),
        pattern@ == UPPER_CLASS@ ==> found == has_upper(text@),
{
    regex::bytes::Regex::new(pattern).map_or(false, |compiled| compiled.is_match(text.as_bytes()))
}

/// Calls `regex::Regex::is_match` for `pattern` on `text`. The contract only
/// gives the answer its name.
#[verifier::external_body]
fn text_regex_matches(pattern: &str, text: &str) -> (found: bool)
    ensures
        found == text_match(pattern@, text@),
{
    regex::Regex::new(pattern).map_or(false, |compiled| compiled.is_match(text))
}

/// Whether `pattern` holds a capital letter, which makes a search mind the
/// case of letters.
pub fn contains_upperchar(pattern: &str) -> (found: bool)
    ensures
        found == has_upper(pattern@),
{
    bytes_regex_matches(UPPER_CLASS, pattern)
}

/// Whether `path` is sneaky: the sneaky pattern matches it.
pub open spec fn sneaky(path: Seq<char>) -> bool {
    text_match(SNEAKY_PATTERN@, path)
}

/// The mode `mode` without the bits of `umask`.
pub open spec fn masked(mode: u32, umask: u32) -> u32 {
    mode & !umask
}

/// Takes the bits of `umask` out of `mode`.
pub fn masked_mode(mode: u32, umask: u32) -> (left: u32)
    ensures
        left == masked(mode, umask),
{
    let taken = mode & umask;
    assert(taken <= mode && mode - taken == mode & !umask) by (bit_vector)
        requires
            taken == mode & umask,
    ;
    mode - taken
}

/// What to do with one path on the way up to the root of a fortress.
#[derive(Debug, Clone, Copy, PartialEq, Eq, Structural)]
pub enum PermsStep {
    /// Leave the path as it is, and stop.
    Stop,
    /// Take the masked bits out of the directory's mode, and stop.
    SetAndStop,
    /// Take the masked bits out of the directory's mode, and go on with its
    /// parent.
    SetAndClimb,
    /// Go on with the parent.
    Climb,
}

/// Decides what to do with `path` on the way up to the root of a fortress:
/// `owned` tells whether the path is the user's own or does not exist yet,
/// `is_dir` whether it is a directory, `is_root` whether it is the root.
///
/// A sneaky path is refused. A path of another user ends the climb. A
/// directory gets its mode masked, and the root ends the climb.
pub fn recursively_set_perms(path: &str, owned: bool, is_dir: bool, is_root: bool) -> (step: Result<
    PermsStep,
    Error,
>)
    ensures
        match step {
            Err(Error::SneakyPath(given)) => sneaky(path@) && given@ == path@,
            Err(_) => false,
            Ok(found) => !sneaky(path@) && found == (if !owned {
                PermsStep::Stop
            } else if is_dir && is_root {
                PermsStep::SetAndStop
            } else if is_dir {
                PermsStep::SetAndClimb
            } else {
                PermsStep::Climb
            }),
        },
{
    if text_regex_matches(SNEAKY_PATTERN, path) {
        return Err(Error::SneakyPath(path.to_owned()));
    }
    if !owned {
        Ok(PermsStep::Stop)
    } else if is_dir && is_root {
        Ok(PermsStep::SetAndStop)
    } else if is_dir {
        Ok(PermsStep::SetAndClimb)
    } else {
        Ok(PermsStep::Climb)
    }
}

/// The path to go on with after `path`: its parent. A path without a parent
/// is an error.
pub fn climb(path: &str, parent: Option<String>) -> (next: Result<String, Error>)
    ensures
        match next {
            Ok(found) => parent == Some(found),
            Err(Error::InvalidParent(given)) => parent is None && given@ == path@,
            Err(_) => false,
        },
{
    match parent {
        Some(found) => Ok(found),
        None => Err(Error::InvalidParent(path.to_owned())),
    }
}

} // verus!
