//! Fingerprints, and how they are compared.

use super::fortress::{FORTRESS_GPG_ID, FORTRESS_PUB_KEY};
use super::{Config, Engine, Key};
use crate::config::builder::hoard::{Config as HoardConfig, Encryption};
use crate::paths::{join_path, joined_path};
use crate::text::{same_text, to_uppercase, trim, trimmed, uppercase};
use vstd::prelude::*;
use vstd::string::*;

verus! {

/// What can go wrong around a fortress directory.
#[derive(Debug, Clone, PartialEq, Eq)]
pub enum Error {
    /// The path is no place for a new fortress: it is no directory, or it
    /// holds a fingerprint file or a key directory already. Holds the path.
    ExistingFortress(String),
    /// The path has no parent.
    NoParent,
    /// The path has no file name.
    UnknownName,
}

/// The engine to encrypt with, where nothing else is said.
pub const ENGINE: Engine = Engine::Gpg;

/// How many links a symbolic link may go through.
pub const SYMLINK_MAX_DEPTH: u8 = 31u8;

/// The normal form of a fingerprint: trimmed, in upper case.
pub open spec fn normal_fingerprint(fingerprint: Seq<char>) -> Seq<char> {
    uppercase(trimmed(fingerprint))
}

/// Whether `a` and `b` write one fingerprint: `a` is not blank, and the two
/// have one normal form.
pub open spec fn same_fingerprint(a: Seq<char>, b: Seq<char>) -> bool {
    trimmed(a).len() > 0 && normal_fingerprint(a) == normal_fingerprint(b)
}

/// Whether a key of `keys` has the fingerprint `fingerprint`.
pub open spec fn holds_fingerprint(keys: Seq<Key>, fingerprint: Seq<char>) -> bool {
    exists|i: int|
        0 <= i < keys.len() && same_fingerprint(
            normal_fingerprint((#[trigger] keys[i]).fingerprint_text()),
            fingerprint,
        )
}

/// Writes a fingerprint in its normal form: trimmed, in upper case.
pub fn format_fingerprint(fingerprint: &str) -> (normal: String)
    ensures
        normal@ == normal_fingerprint(fingerprint@),
{
    to_uppercase(trim(fingerprint))
}

/// Whether `a` and `b` write one fingerprint. A blank `a` equals nothing.
pub fn fingerprints_equal(a: &str, b: &str) -> (same: bool)
    ensures
        same == same_fingerprint(a@, b@),
{
    let inner = trim(a);
    if inner.unicode_len() == 0 {
        return false;
    }
    let left = to_uppercase(inner);
    let right = to_uppercase(trim(b));
    left == right
}

/// Whether a key of `keys` has the fingerprint `fingerprint`.
pub fn keys_contain_fingerprint(keys: &Vec<Key>, fingerprint: &str) -> (found: bool)
    ensures
        found == holds_fingerprint(keys@, fingerprint@),
{
    let mut i: usize = 0;
    while i < keys.len()
        invariant
            i <= keys.len(),
            forall|j: int|
                0 <= j < i ==> !same_fingerprint(
                    normal_fingerprint((#[trigger] keys@[j]).fingerprint_text()),
                    fingerprint@,
                ),
        decreases keys.len() - i,
    {
        let own = keys[i].fingerprint(false);
        if fingerprints_equal(own.as_str(), fingerprint) {
            return true;
        }
        i += 1;
    }
    false
}

/// Whether the keychain holds a private key.
pub fn has_private_key(private_keys: &Vec<Key>) -> (held: bool)
    ensures
        held == (private_keys@.len() > 0),
{
    private_keys.len() > 0
}

/// The way to encrypt that the configuration of a hoard asks for: the
/// defaults of the engine, with the armour setting of an asymmetric
/// encryption.
pub fn config(hoardconf: &HoardConfig) -> (made: Config)
    ensures
        made.engine == ENGINE,
        !made.gpg_tty,
        made.armor == (match hoardconf.encryption {
            Some(Encryption::Asymmetric(asymmetric)) => asymmetric.armor,
            _ => true,
        }),
{
    let mut made = Config::from(ENGINE);
    match &hoardconf.encryption {
        Some(Encryption::Asymmetric(asymmetric)) => {
            made.armor = asymmetric.armor;
        },
        _ => {},
    }
    made
}

/// Whether `name` is the name of the fingerprint file or of the key
/// directory.
pub open spec fn fortress_entry(name: Seq<char>) -> bool {
    name == FORTRESS_PUB_KEY@ || name == FORTRESS_GPG_ID@
}

/// Checks that a new fortress can be made at `path`: it is a directory, and
/// none of `entries`, the names of what it holds, is the name of the
/// fingerprint file or of the key directory.
pub fn check_existing_fortress(path: &str, is_dir: bool, entries: &Vec<String>) -> (checked: Result<
    (),
    Error,
>)
    ensures
        checked is Ok <==> is_dir && forall|i: int|
            0 <= i < entries@.len() ==> !fortress_entry((#[trigger] entries@[i])@),
        match checked {
            Ok(_) => true,
            Err(Error::ExistingFortress(given)) => given@ == path@,
            Err(_) => false,
        },
{
    if !is_dir {
        return Err(Error::ExistingFortress(path.to_owned()));
    }
    let mut i: usize = 0;
    while i < entries.len()
        invariant
            i <= entries.len(),
            forall|j: int| 0 <= j < i ==> !fortress_entry((#[trigger] entries@[j])@),
        decreases entries.len() - i,
    {
        if same_text(entries[i].as_str(), FORTRESS_PUB_KEY) || same_text(
            entries[i].as_str(),
            FORTRESS_GPG_ID,
        ) {
            return Err(Error::ExistingFortress(path.to_owned()));
        }
        i += 1;
    }
    Ok(())
}

/// The path with `suffix` behind its file name, given its `parent` and its
/// file `name`.
pub fn with_file_name_suffix(parent: Option<&str>, name: Option<&str>, suffix: &str) -> (made:
    Result<String, Error>)
    ensures
        match made {
            Ok(path) => parent is Some && name is Some && path@ == joined_path(
                parent->0@,
                name->0@ + suffix@,
            ),
            Err(Error::NoParent) => parent is None,
            Err(Error::UnknownName) => parent is Some && name is None,
            Err(_) => false,
        },
{
    let parent = match parent {
        Some(parent) => parent,
        None => {
            return Err(Error::NoParent);
        },
    };
    let name = match name {
        Some(name) => name,
        None => {
            return Err(Error::UnknownName);
        },
    };
    let mut last = String::from_str(name);
    last.append(suffix);
    Ok(join_path(parent, last.as_str()))
}

/// Puts `suffix` behind the file name of `path`. This fails where std finds
/// no parent or no file name in the path.
pub fn append_file_name(path: &str, suffix: &str) -> (made: Result<String, Error>)
    ensures
        match made {
            Ok(found) => exists|parent: Seq<char>, name: Seq<char>|
                found@ == joined_path(parent, name + suffix@),
            Err(Error::NoParent) => true,
            Err(Error::UnknownName) => true,
            Err(_) => false,
        },
{
    let parent = crate::paths::parent(path);
    let name = crate::paths::file_name(path);
    let made = with_file_name_suffix(
        match &parent {
            Some(text) => Some(text.as_str()),
            None => None,
        },
        match &name {
            Some(text) => Some(text.as_str()),
            None => None,
        },
        suffix,
    );
    proof {
        if made is Ok {
            assert(made->Ok_0@ == joined_path(parent->0@, name->0@ + suffix@));
        }
    }
    made
}

/// What following one symbolic link came to.
pub enum LinkStep {
    /// The path is a link to this path.
    Link(String),
    /// The path is no link, or cannot be read.
    End,
}

/// What to do after one step of resolving a symbolic link.
#[derive(Debug, PartialEq, Eq)]
pub enum LinkAction {
    /// Follow this path next.
    Follow(String),
    /// Done: there is nothing to resolve.
    Unresolved,
    /// Done: this is the path that the links lead to.
    Resolved(String),
}

/// Decides one step of resolving the symbolic link `path`, `depth` links in:
/// a link is followed; the end of the links is the answer, unless the first
/// path is no link at all.
pub fn resolve_symlink(path: &str, depth: u8, step: LinkStep) -> (action: LinkAction)
    requires
        depth < SYMLINK_MAX_DEPTH,
    ensures
        match (step, action) {
            (LinkStep::Link(target), LinkAction::Follow(next)) => next@ == target@,
            (LinkStep::End, LinkAction::Unresolved) => depth == 0,
            (LinkStep::End, LinkAction::Resolved(found)) => depth > 0 && found@ == path@,
            _ => false,
        },
{
    match step {
        LinkStep::Link(target) => LinkAction::Follow(target),
        LinkStep::End => if depth == 0 {
            LinkAction::Unresolved
        } else {
            LinkAction::Resolved(path.to_owned())
        },
    }
}

/// Whether the terminal of this process can be looked for on the operating
/// system `os`: Linux, FreeBSD and OpenBSD only.
pub fn get_tty(os: &str) -> (path: Option<&'static str>)
    ensures
        match path {
            Some(start) => start@ == "/dev/stdin"@ && (os@ == "linux"@ || os@ == "freebsd"@ || os@
                == "openbsd"@),
            None => !(os@ == "linux"@ || os@ == "freebsd"@ || os@ == "openbsd"@),
        },
{
    if same_text(os, "linux") || same_text(os, "freebsd") || same_text(os, "openbsd") {
        Some("/dev/stdin")
    } else {
        None
    }
}

} // verus!
