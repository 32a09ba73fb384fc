//! Paths as texts, with `/` between their parts.

use crate::text::chars_of;
use vstd::prelude::*;
use vstd::string::*;

verus! {

/// The path `part` below the path `base`. A part that begins with `/` stands
/// for itself. Else the part follows the base, after a `/` where the base
/// does not end in one and is not empty.
pub open spec fn joined_path(base: Seq<char>, part: Seq<char>) -> Seq<char> {
    if part.len() > 0 && part[0] == '/' {
        part
    } else if base.len() == 0 || base.last() == '/' {
        base + part
    } else {
        base + seq!['/'] + part
    }
}

/// The path `part` below the path `base`.
pub fn join_path(base: &str, part: &str) -> (path: String)
    ensures
        path@ == joined_path(base@, part@),
{
    let first = chars_of(part);
    if first.len() > 0 && first[0] == '/' {
        return String::from_str(part);
    }
    let head = chars_of(base);
    let mut path = String::from_str(base);
    if head.len() > 0 && head[head.len() - 1] != '/' {
        proof {
            reveal_strlit("/");
        }
        path.append("/");
        assert("/"@ =~= seq!['/']);
    }
    path.append(part);
    path
}

/// Calls `Path::extension`: the part of the file name behind its last dot,
/// as std sees it on this system. Nothing is claimed of the result.
#[verifier::external_body]
pub(crate) fn extension(path: &str) -> (extension: Option<String>) {
    std::path::Path::new(path).extension().and_then(|part| part.to_str()).map(|part| part.to_owned())
}

/// Calls `Path::file_stem`: the file name without its extension, as std sees
/// it on this system. Nothing is claimed of the result.
#[verifier::external_body]
pub(crate) fn file_stem(path: &str) -> (stem: Option<String>) {
    std::path::Path::new(path).file_stem().and_then(|part| part.to_str()).map(|part| part.to_owned())
}

/// Calls `Path::parent`: the path without its last part, as std sees it on
/// this system. Nothing is claimed of the result.
#[verifier::external_body]
pub(crate) fn parent(path: &str) -> (parent: Option<String>) {
    std::path::Path::new(path).parent().and_then(|part| part.to_str()).map(|part| part.to_owned())
}

/// Calls `Path::file_name`: the last part of the path, as std sees it on
/// this system. Nothing is claimed of the result.
#[verifier::external_body]
pub(crate) fn file_name(path: &str) -> (name: Option<String>) {
    std::path::Path::new(path).file_name().and_then(|part| part.to_str()).map(|part| part.to_owned())
}

} // verus!
