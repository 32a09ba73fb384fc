//! The rules of a fortress: a directory of encrypted files, with the
//! fingerprints and public keys of those who may read them.
//!
//! Nothing here touches a file. What lies on disk is handed in as texts and
//! lists, and what is to be written is handed back.

use super::recipients::{same_protocol, Recipients};
use super::utils::{fingerprints_equal, normal_fingerprint, same_fingerprint};
use super::{Engine, Key};
use crate::config::builder::hoard::{Config as HoardConfig, Encryption};
use crate::config::builder::GlobalConfig;
use crate::env_vars::{expand_env_in_path, expanded, Failure, Variables};
use crate::paths::{join_path, joined_path};
use crate::text::{
    contains_name, contains_text, has_prefix, has_suffix, join, joined, lines, lines_of, occurs,
    same_text, starts_with, trim, trim_suffixes, trimmed, without_suffixes,
};
use vstd::prelude::*;
use vstd::string::*;

verus! {

/// The suffix of the name of an encrypted file.
pub const SECRET_SUFFIX: &'static str = ".gpg";

/// The name of the file that lists the fingerprints of the recipients.
pub const FORTRESS_GPG_ID: &'static str = ".gpg-id";

/// The name of the directory that holds the recipients' public keys.
pub const FORTRESS_PUB_KEY: &'static str = ".public-keys/";

/// The engine that a fortress encrypts with.
pub const FORTRESS_ENGINE: Engine = Engine::Gpg;

/// What can go wrong with a fortress.
#[derive(Debug, Clone, PartialEq, Eq)]
pub enum Error {
    /// The root path could not be expanded.
    ExpandPath(crate::env_vars::Error),
    /// The root is no directory. Holds the expanded path.
    NoRootDir(String),
    /// No key was selected.
    NoKeySelected,
}

/// An encrypted hoard.
#[derive(Debug, Clone)]
pub struct Fortress {
    /// The root directory of the fortress.
    pub root: String,
}

impl Fortress {
    /// Opens the fortress at `root`. The root is expanded with `vars` and
    /// `home`, and must be one of `directories`: the expanded paths that
    /// were looked at and are directories.
    pub fn open(root: &str, vars: &Variables, home: &str, directories: &Vec<String>) -> (made:
        Result<Self, Error>)
        ensures
            match made {
                Ok(fortress) => expanded(root@, vars@, home@) == Ok::<Seq<char>, Failure>(
                    fortress.root@,
                ) && directories.deep_view().contains(fortress.root@),
                Err(Error::ExpandPath(error)) => expanded(root@, vars@, home@) == Err::<
                    Seq<char>,
                    Failure,
                >(error@),
                Err(Error::NoRootDir(path)) => expanded(root@, vars@, home@) == Ok::<
                    Seq<char>,
                    Failure,
                >(path@) && !directories.deep_view().contains(path@),
                Err(_) => false,
            },
    {
        let root = match expand_env_in_path(root, vars, home) {
            Ok(root) => root,
            Err(error) => {
                return Err(Error::ExpandPath(error));
            },
        };
        if !contains_name(directories, &root) {
            return Err(Error::NoRootDir(root));
        }
        Ok(Self { root })
    }

    /// The recipients of this fortress: the keys of `public_keys` that the
    /// fingerprints of `contents` name, where `contents` is the text of the
    /// fingerprint file, if there is one.
    pub fn recipients(&self, contents: Option<&str>, public_keys: &Vec<Key>) -> (found: Recipients)
        ensures
            recipients_listed(found@, fingerprints_of(contents), public_keys@),
    {
        fortress_load_recipients(contents, public_keys)
    }

    /// The secrets among `files`: the regular files whose names end in the
    /// secret suffix and that are no special files, in order. Each file
    /// comes with what the walk found out about it.
    pub fn secrets(&self, files: &Vec<WalkedFile>) -> (found: Vec<Secret>)
        ensures
            secret_paths(found@) == paths_of_secrets(files@),
            forall|i: int| 0 <= i < found@.len() ==> well_named(#[trigger] found@[i]),
    {
        let mut found: Vec<Secret> = Vec::new();
        let mut i: usize = 0;
        assert(files@.take(0) =~= Seq::<WalkedFile>::empty());
        assert(secret_paths(found@) =~= Seq::<Seq<char>>::empty());
        while i < files.len()
            invariant
                i <= files.len(),
                secret_paths(found@) == paths_of_secrets(files@.take(i as int)),
                forall|j: int| 0 <= j < found@.len() ==> well_named(#[trigger] found@[j]),
            decreases files.len() - i,
        {
            let ghost before = found@;
            let ghost prefix = files@.take(i as int + 1);
            assert(prefix.drop_last() =~= files@.take(i as int));
            assert(prefix.last() == files@[i as int]);
            let file = &files[i];
            let name = match &file.file_name {
                Some(name) => Some(name.as_str()),
                None => None,
            };
            let parent = match &file.parent {
                Some(parent) => Some(parent.as_str()),
                None => None,
            };
            if is_secret_file(file.is_file, name) && !is_special_file(
                name,
                file.path.as_str(),
                parent,
            ) {
                let secret = Secret::from(self, file.path.clone());
                found.push(secret);
                assert(secret_paths(found@) =~= secret_paths(before).push(file.path@));
                assert forall|j: int| 0 <= j < found@.len() implies well_named(
                    #[trigger] found@[j],
                ) by {
                    if j < before.len() {
                        assert(found@[j] == before[j]);
                    }
                }
            }
            i += 1;
        }
        assert(files@.take(i as int) =~= files@);
        found
    }
}

/// Whether the name of `secret` is that of some place below a root, or `?`.
pub open spec fn well_named(secret: Secret) -> bool {
    exists|relative: Option<Seq<char>>| secret.name@ == secret_name(relative)
}

/// The paths of `secrets`, in order.
pub open spec fn secret_paths(secrets: Seq<Secret>) -> Seq<Seq<char>> {
    Seq::new(secrets.len(), |i: int| secrets[i].path@)
}

/// Whether the walked file `file` is a secret: a regular file whose name
/// ends in the secret suffix and that is no special file.
pub open spec fn walked_secret(file: WalkedFile) -> bool {
    &&& file.is_file
    &&& file.file_name is Some
    &&& crate::text::ends_with(file.file_name->0@, SECRET_SUFFIX@)
    &&& !special(file.file_name.deep_view(), file.path@, file.parent.deep_view())
}

/// Whether an entry is one of the special files of a fortress: its name is
/// that of the fingerprint file or of the key directory, or its path goes
/// through the key directory, or its parent is the key directory.
pub open spec fn special(file_name: Option<Seq<char>>, path: Seq<char>, parent: Option<Seq<char>>) -> bool {
    ||| file_name is Some && (file_name->0 == FORTRESS_PUB_KEY@ || file_name->0 == FORTRESS_GPG_ID@)
    ||| occurs(path, FORTRESS_PUB_KEY@)
    ||| parent is Some && parent->0 == FORTRESS_PUB_KEY@
}

/// The paths of the secrets among `files`, in order.
pub open spec fn paths_of_secrets(files: Seq<WalkedFile>) -> Seq<Seq<char>>
    decreases files.len(),
{
    if files.len() == 0 {
        Seq::empty()
    } else if walked_secret(files.last()) {
        paths_of_secrets(files.drop_last()).push(files.last().path@)
    } else {
        paths_of_secrets(files.drop_last())
    }
}

/// What a walk of a directory found out about one entry.
#[derive(Debug, Clone)]
pub struct WalkedFile {
    /// The path of the entry.
    pub path: String,
    /// The name of the entry, where it is Unicode text.
    pub file_name: Option<String>,
    /// The path of the directory that holds the entry, if any.
    pub parent: Option<String>,
    /// Whether the entry is a regular file.
    pub is_file: bool,
}

/// The path of the file that lists the fingerprints of the recipients.
pub fn fortress_gpg_ids_file(fortress: &Fortress) -> (path: String)
    ensures
        path@ == joined_path(fortress.root@, FORTRESS_GPG_ID@),
{
    join_path(fortress.root.as_str(), FORTRESS_GPG_ID)
}

/// The path of the directory that holds the recipients' public keys.
pub fn fortress_public_keys_dir(fortress: &Fortress) -> (path: String)
    ensures
        path@ == joined_path(fortress.root@, FORTRESS_PUB_KEY@),
{
    join_path(fortress.root.as_str(), FORTRESS_PUB_KEY)
}

/// Calls `Path::strip_prefix`: what is left of `path` below `root`, as std
/// sees it on this system, or nothing where `path` does not lie below
/// `root`. Nothing is claimed of the result.
#[verifier::external_body]
pub fn relative_path(root: &str, path: &str) -> (rest: Option<String>) {
    std::path::Path::new(path).strip_prefix(root).ok().and_then(|part| part.to_str()).map(
        |part| part.to_owned(),
    )
}

/// `target` with the secret suffix behind it, unless `extension`, the
/// extension of `target`, is the suffix already.
pub open spec fn sec_suffixed(target: Seq<char>, extension: Option<Seq<char>>) -> Seq<char> {
    if extension == Some("gpg"@) {
        target
    } else {
        target + SECRET_SUFFIX@
    }
}

/// `target` with the secret suffix behind it, unless `extension`, the
/// extension of `target`, is the suffix already.
pub fn with_sec_suffix(target: &str, extension: Option<&str>) -> (path: String)
    ensures
        path@ == sec_suffixed(
            target@,
            match extension {
                Some(text) => Some(text@),
                None => None,
            },
        ),
{
    let ends_in_suffix = match extension {
        Some(text) => same_text(text, "gpg"),
        None => false,
    };
    let mut path = String::from_str(target);
    if !ends_in_suffix {
        path.append(SECRET_SUFFIX);
    }
    path
}

/// The name of the encrypted file for `target`: the secret suffix is added
/// unless std finds it to be the extension already.
pub fn append_sec_suffix(target: &str) -> (path: String)
    ensures
        exists|extension: Option<Seq<char>>| path@ == sec_suffixed(target@, extension),
{
    let extension = crate::paths::extension(target);
    let path = match &extension {
        Some(text) => with_sec_suffix(target, Some(text.as_str())),
        None => with_sec_suffix(target, None),
    };
    assert(path@ == sec_suffixed(target@, extension.deep_view()));
    path
}

/// `target` without the secret suffix: where `extension` is the suffix and
/// there is a `stem`, the stem below `parent`, or alone where there is no
/// parent. Else `target` as it is.
pub open spec fn sec_unsuffixed(
    target: Seq<char>,
    extension: Option<Seq<char>>,
    stem: Option<Seq<char>>,
    parent: Option<Seq<char>>,
) -> Seq<char> {
    if extension == Some("gpg"@) && stem is Some {
        match parent {
            Some(parent) => joined_path(parent, stem->0),
            None => stem->0,
        }
    } else {
        target
    }
}

/// `target` without the secret suffix, given what std finds to be its
/// extension, file stem and parent.
pub fn without_sec_suffix(
    target: &str,
    extension: Option<&str>,
    stem: Option<&str>,
    parent: Option<&str>,
) -> (path: String)
    ensures
        path@ == sec_unsuffixed(
            target@,
            match extension {
                Some(text) => Some(text@),
                None => None,
            },
            match stem {
                Some(text) => Some(text@),
                None => None,
            },
            match parent {
                Some(text) => Some(text@),
                None => None,
            },
        ),
{
    let ends_in_suffix = match extension {
        Some(text) => same_text(text, "gpg"),
        None => false,
    };
    if ends_in_suffix {
        match stem {
            Some(stem) => match parent {
                Some(parent) => join_path(parent, stem),
                None => String::from_str(stem),
            },
            None => String::from_str(target),
        }
    } else {
        String::from_str(target)
    }
}

/// The name of the decrypted file for `target`: the secret suffix is taken
/// off where std finds it to be the extension.
pub fn rm_sec_suffix(target: &str) -> (path: String)
    ensures
        exists|extension: Option<Seq<char>>, stem: Option<Seq<char>>, parent: Option<Seq<char>>|
            path@ == sec_unsuffixed(target@, extension, stem, parent),
{
    let extension = crate::paths::extension(target);
    let stem = crate::paths::file_stem(target);
    let parent = crate::paths::parent(target);
    let path = without_sec_suffix(
        target,
        match &extension {
            Some(text) => Some(text.as_str()),
            None => None,
        },
        match &stem {
            Some(text) => Some(text.as_str()),
            None => None,
        },
        match &parent {
            Some(text) => Some(text.as_str()),
            None => None,
        },
    );
    assert(path@ == sec_unsuffixed(
        target@,
        extension.deep_view(),
        stem.deep_view(),
        parent.deep_view(),
    ));
    path
}

/// The texts of `all` that are not blank, in order.
pub open spec fn not_blank(all: Seq<Seq<char>>) -> Seq<Seq<char>>
    decreases all.len(),
{
    if all.len() == 0 {
        all
    } else if trimmed(all.last()).len() == 0 {
        not_blank(all.drop_last())
    } else {
        not_blank(all.drop_last()).push(all.last())
    }
}

/// The fingerprints that the text of a fingerprint file lists: its lines
/// that are not blank. Without a file there are none.
pub open spec fn fingerprints_of(contents: Option<&str>) -> Seq<Seq<char>> {
    match contents {
        Some(text) => not_blank(lines(text@)),
        None => Seq::empty(),
    }
}

/// Reads the fingerprints from the text of a fingerprint file: one on each
/// line, blank lines skipped.
fn read_fingerprints(text: &str) -> (found: Vec<String>)
    ensures
        found.deep_view() == not_blank(lines(text@)),
{
    let all = lines_of(text);
    let ghost given = all.deep_view();
    let mut found: Vec<String> = Vec::new();
    assert(given.take(0) =~= Seq::<Seq<char>>::empty());
    assert(found.deep_view() =~= Seq::<Seq<char>>::empty());
    for line in it: all
        invariant
            it.seq().len() == given.len(),
            forall|j: int| 0 <= j < given.len() ==> (#[trigger] it.seq()[j])@ == given[j],
            found.deep_view() == not_blank(given.take(it.index() as int)),
    {
        let ghost before = found.deep_view();
        let ghost prefix = given.take(it.index() + 1);
        assert(prefix.drop_last() =~= given.take(it.index() as int));
        assert(prefix.last() == line@);
        if trim(line.as_str()).unicode_len() > 0 {
            found.push(line);
            assert(found.deep_view() =~= before.push(line@));
        }
    }
    assert(given.take(given.len() as int) =~= given);
    found
}

/// Writes the fingerprints as the text of a fingerprint file: one on each
/// line.
fn write_fingerprints(fingerprints: &Vec<String>) -> (text: String)
    ensures
        text@ == joined(fingerprints.deep_view(), "\n"@),
{
    join(fingerprints, "\n")
}

/// The fingerprints of the recipients of a fortress, from the text of its
/// fingerprint file. Without a file there are none.
pub fn fortress_read_gpg_fingerprints(contents: Option<&str>) -> (found: Vec<String>)
    ensures
        found.deep_view() == fingerprints_of(contents),
{
    match contents {
        Some(text) => read_fingerprints(text),
        None => {
            let found: Vec<String> = Vec::new();
            assert(found.deep_view() =~= Seq::<Seq<char>>::empty());
            found
        },
    }
}

/// The text of the fingerprint file for `fingerprints`. It replaces what
/// the file held.
pub fn fortress_write_gpg_fingerprints(fingerprints: &Vec<String>) -> (text: String)
    ensures
        text@ == joined(fingerprints.deep_view(), "\n"@),
{
    write_fingerprints(fingerprints)
}

/// Position of the first key of `keys` with the fingerprint `fingerprint`, or
/// `keys.len()` where there is none.
pub open spec fn key_position(keys: Seq<Key>, fingerprint: Seq<char>) -> int
    decreases keys.len(),
{
    if keys.len() == 0 || same_fingerprint(
        normal_fingerprint(keys[0].fingerprint_text()),
        fingerprint,
    ) {
        0
    } else {
        1 + key_position(keys.drop_first(), fingerprint)
    }
}

/// A position that passes no key of the fingerprint and stops on one, or at
/// the end, is `key_position`.
proof fn lemma_key_position_is(keys: Seq<Key>, fingerprint: Seq<char>, k: int)
    requires
        0 <= k <= keys.len(),
        forall|j: int|
            0 <= j < k ==> !same_fingerprint(
                normal_fingerprint((#[trigger] keys[j]).fingerprint_text()),
                fingerprint,
            ),
        k < keys.len() ==> same_fingerprint(
            normal_fingerprint(keys[k].fingerprint_text()),
            fingerprint,
        ),
    ensures
        key_position(keys, fingerprint) == k,
    decreases keys.len(),
{
    if keys.len() == 0 || same_fingerprint(
        normal_fingerprint(keys[0].fingerprint_text()),
        fingerprint,
    ) {
        if k > 0 {
            assert(!same_fingerprint(normal_fingerprint(keys[0].fingerprint_text()), fingerprint));
        }
    } else {
        let rest = keys.drop_first();
        assert forall|j: int| 0 <= j < k - 1 implies !same_fingerprint(
            normal_fingerprint((#[trigger] rest[j]).fingerprint_text()),
            fingerprint,
        ) by {
            assert(rest[j] == keys[j + 1]);
        }
        lemma_key_position_is(rest, fingerprint, k - 1);
    }
}

/// The positions in `keys` of the keys that `fingerprints` name, in the
/// order of the fingerprints. A fingerprint without a key is skipped.
pub open spec fn named_positions(keys: Seq<Key>, fingerprints: Seq<Seq<char>>) -> Seq<int>
    decreases fingerprints.len(),
{
    if fingerprints.len() == 0 {
        Seq::empty()
    } else {
        let before = named_positions(keys, fingerprints.drop_last());
        let at = key_position(keys, fingerprints.last());
        if at < keys.len() {
            before.push(at)
        } else {
            before
        }
    }
}

/// Whether `found` holds copies of the keys of `keys` that `fingerprints`
/// name, in the order of the fingerprints.
pub open spec fn recipients_listed(
    found: Seq<Key>,
    fingerprints: Seq<Seq<char>>,
    keys: Seq<Key>,
) -> bool {
    let positions = named_positions(keys, fingerprints);
    &&& found.len() == positions.len()
    &&& forall|i: int|
        0 <= i < found.len() ==> {
            &&& 0 <= #[trigger] positions[i] < keys.len()
            &&& found[i].fingerprint_text() == keys[positions[i]].fingerprint_text()
            &&& found[i].users() == keys[positions[i]].users()
        }
}

/// Finds the first key of `keys` with the fingerprint `fingerprint`.
pub fn get_public_key<'a>(keys: &'a Vec<Key>, fingerprint: &str) -> (found: Option<&'a Key>)
    ensures
        match found {
            Some(key) => 0 <= key_position(keys@, fingerprint@) < keys@.len() && *key
                == keys@[key_position(keys@, fingerprint@)],
            None => key_position(keys@, fingerprint@) == keys@.len(),
        },
{
    let mut i: usize = 0;
    while i < keys.len()
        invariant
            i <= keys.len(),
            forall|j: int|
                0 <= j < i ==> !same_fingerprint(
                    normal_fingerprint((#[trigger] keys@[j]).fingerprint_text()),
                    fingerprint@,
                ),
        decreases keys.len() - i,
    {
        let own = keys[i].fingerprint(false);
        if fingerprints_equal(own.as_str(), fingerprint) {
            proof {
                lemma_key_position_is(keys@, fingerprint@, i as int);
            }
            return Some(&keys[i]);
        }
        i += 1;
    }
    proof {
        lemma_key_position_is(keys@, fingerprint@, i as int);
    }
    None
}

/// Finds the keys of `keys` that `fingerprints` name, in the order of the
/// fingerprints. A fingerprint without a key is skipped.
pub fn find_public_keys(keys: &Vec<Key>, fingerprints: &Vec<String>) -> (found: Vec<Key>)
    ensures
        recipients_listed(found@, fingerprints.deep_view(), keys@),
{
    let mut found: Vec<Key> = Vec::new();
    let mut i: usize = 0;
    let ghost names = fingerprints.deep_view();
    assert(names.take(0) =~= Seq::<Seq<char>>::empty());
    while i < fingerprints.len()
        invariant
            i <= fingerprints.len(),
            names == fingerprints.deep_view(),
            recipients_listed(found@, names.take(i as int), keys@),
        decreases fingerprints.len() - i,
    {
        let ghost before = found@;
        let ghost prefix = names.take(i as int + 1);
        assert(prefix.drop_last() =~= names.take(i as int));
        assert(prefix.last() == fingerprints[i as int]@);
        let ghost old_positions = named_positions(keys@, names.take(i as int));
        let ghost positions = named_positions(keys@, prefix);
        match get_public_key(keys, fingerprints[i].as_str()) {
            Some(key) => {
                found.push(key.clone());
                assert(positions == old_positions.push(key_position(keys@, prefix.last())));
                assert forall|j: int| 0 <= j < found@.len() implies {
                    &&& 0 <= #[trigger] positions[j] < keys@.len()
                    &&& found@[j].fingerprint_text() == keys@[positions[j]].fingerprint_text()
                    &&& found@[j].users() == keys@[positions[j]].users()
                } by {
                    if j < before.len() {
                        assert(found@[j] == before[j]);
                        assert(positions[j] == old_positions[j]);
                    }
                }
            },
            None => {
                assert(positions == old_positions);
            },
        }
        i += 1;
    }
    assert(names.take(i as int) =~= names);
    found
}

/// The keys of a fortress: those of `public_keys`, the public keys of the
/// keychain, that the fingerprints of `fingerprints` name.
pub fn fortress_load_keys(fingerprints: &Vec<String>, public_keys: &Vec<Key>) -> (found: Vec<Key>)
    ensures
        recipients_listed(found@, fingerprints.deep_view(), public_keys@),
{
    find_public_keys(public_keys, fingerprints)
}

/// The recipients of a fortress, from the text of its fingerprint file, if
/// there is one, and the public keys of the keychain.
pub fn fortress_load_recipients(contents: Option<&str>, public_keys: &Vec<Key>) -> (found:
    Recipients)
    ensures
        recipients_listed(found@, fingerprints_of(contents), public_keys@),
{
    let fingerprints = fortress_read_gpg_fingerprints(contents);
    let keys = fortress_load_keys(&fingerprints, public_keys);
    Recipients::from(keys)
}

/// The fingerprints of the keys of `keys` that belong to the fortress
/// engine, each in its normal form, in order.
pub open spec fn engine_fingerprints(keys: Seq<Key>) -> Seq<Seq<char>>
    decreases keys.len(),
{
    if keys.len() == 0 {
        Seq::empty()
    } else if keys.last().protocol_of() == FORTRESS_ENGINE {
        engine_fingerprints(keys.drop_last()).push(
            normal_fingerprint(keys.last().fingerprint_text()),
        )
    } else {
        engine_fingerprints(keys.drop_last())
    }
}

/// The fingerprints to write for `keys`: those of the keys of the fortress
/// engine, in order.
pub fn fortress_save_keys(keys: &Vec<Key>) -> (fingerprints: Vec<String>)
    ensures
        fingerprints.deep_view() == engine_fingerprints(keys@),
{
    let mut fingerprints: Vec<String> = Vec::new();
    let mut i: usize = 0;
    assert(keys@.take(0) =~= Seq::<Key>::empty());
    assert(fingerprints.deep_view() =~= Seq::<Seq<char>>::empty());
    while i < keys.len()
        invariant
            i <= keys.len(),
            fingerprints.deep_view() == engine_fingerprints(keys@.take(i as int)),
        decreases keys.len() - i,
    {
        let ghost before = fingerprints.deep_view();
        let ghost prefix = keys@.take(i as int + 1);
        assert(prefix.drop_last() =~= keys@.take(i as int));
        assert(prefix.last() == keys@[i as int]);
        if keys[i].protocol() == FORTRESS_ENGINE {
            let own = keys[i].fingerprint(false);
            fingerprints.push(own);
            assert(fingerprints.deep_view() =~= before.push(
                normal_fingerprint(keys@[i as int].fingerprint_text()),
            ));
        }
        i += 1;
    }
    assert(keys@.take(i as int) =~= keys@);
    fingerprints
}

/// The fingerprints to write for `recipients`.
pub fn fortress_save_recipients(recipients: &Recipients) -> (fingerprints: Vec<String>)
    ensures
        fingerprints.deep_view() == engine_fingerprints(recipients@),
{
    fortress_save_keys(recipients.keys())
}

/// What is to be done to the public key files of a fortress.
pub struct KeySync {
    /// The paths of the key files to remove: no key has their fingerprint.
    pub obsolete: Vec<String>,
    /// The positions of the keys to export: no file has their fingerprint.
    pub missing: Vec<usize>,
}

/// Whether a file of `files` has the fingerprint `fingerprint`, letter for
/// letter.
pub open spec fn file_for(files: Seq<(String, String)>, fingerprint: Seq<char>) -> bool {
    exists|i: int| 0 <= i < files.len() && (#[trigger] files[i]).1@ == fingerprint
}

/// The paths of the files of `files` whose fingerprint no key of `keys` has.
pub open spec fn obsolete_files(files: Seq<(String, String)>, keys: Seq<Key>) -> Seq<Seq<char>>
    decreases files.len(),
{
    if files.len() == 0 {
        Seq::empty()
    } else if super::utils::holds_fingerprint(keys, files.last().1@) {
        obsolete_files(files.drop_last(), keys)
    } else {
        obsolete_files(files.drop_last(), keys).push(files.last().0@)
    }
}

/// The positions of the first `upto` keys of `keys` whose fingerprint no
/// file of `files` has.
pub open spec fn missing_keys(files: Seq<(String, String)>, keys: Seq<Key>, upto: int) -> Seq<
    usize,
>
    decreases upto,
{
    if upto <= 0 {
        Seq::empty()
    } else if file_for(files, normal_fingerprint(keys[upto - 1].fingerprint_text())) {
        missing_keys(files, keys, upto - 1)
    } else {
        missing_keys(files, keys, upto - 1).push((upto - 1) as usize)
    }
}

/// Whether a file of `files` has the fingerprint `fingerprint`.
fn has_file_for(files: &Vec<(String, String)>, fingerprint: &str) -> (found: bool)
    ensures
        found == file_for(files@, fingerprint@),
{
    let mut i: usize = 0;
    while i < files.len()
        invariant
            i <= files.len(),
            forall|j: int| 0 <= j < i ==> (#[trigger] files@[j]).1@ != fingerprint@,
        decreases files.len() - i,
    {
        if same_text(files[i].1.as_str(), fingerprint) {
            return true;
        }
        i += 1;
    }
    false
}

/// Compares the public key files of a fortress with its keys. `files` holds
/// each key file's path and the fingerprint that its name gives. A file
/// whose fingerprint no key has is obsolete; a key whose fingerprint no file
/// has is missing.
pub fn fortress_sync_public_key_files(files: &Vec<(String, String)>, keys: &Vec<Key>) -> (plan:
    KeySync)
    ensures
        plan.obsolete.deep_view() == obsolete_files(files@, keys@),
        plan.missing@ == missing_keys(files@, keys@, keys@.len() as int),
{
    let mut obsolete: Vec<String> = Vec::new();
    let mut i: usize = 0;
    assert(files@.take(0) =~= Seq::<(String, String)>::empty());
    assert(obsolete.deep_view() =~= Seq::<Seq<char>>::empty());
    while i < files.len()
        invariant
            i <= files.len(),
            obsolete.deep_view() == obsolete_files(files@.take(i as int), keys@),
        decreases files.len() - i,
    {
        let ghost before = obsolete.deep_view();
        let ghost prefix = files@.take(i as int + 1);
        assert(prefix.drop_last() =~= files@.take(i as int));
        assert(prefix.last() == files@[i as int]);
        if !super::utils::keys_contain_fingerprint(keys, files[i].1.as_str()) {
            obsolete.push(files[i].0.clone());
            assert(obsolete.deep_view() =~= before.push(files@[i as int].0@));
        }
        i += 1;
    }
    assert(files@.take(i as int) =~= files@);
    let mut missing: Vec<usize> = Vec::new();
    let mut k: usize = 0;
    while k < keys.len()
        invariant
            k <= keys.len(),
            missing@ == missing_keys(files@, keys@, k as int),
        decreases keys.len() - k,
    {
        let own = keys[k].fingerprint(false);
        if !has_file_for(files, own.as_str()) {
            missing.push(k);
        }
        k += 1;
    }
    KeySync { obsolete, missing }
}

/// What recipients can do with a fortress.
pub trait FortressRecipients: Sized {
    /// The keys of these recipients, in order.
    spec fn recipients(&self) -> Seq<Key>;

    /// The recipients of a fortress, from the text of its fingerprint file,
    /// if there is one, and the public keys of the keychain: copies of the
    /// keys that the fingerprints name, in the order of the fingerprints.
    fn load(contents: Option<&str>, public_keys: &Vec<Key>) -> (found: Self)
        ensures
            recipients_listed(found.recipients(), fingerprints_of(contents), public_keys@),
    ;

    /// The fingerprints to write for these recipients: those of the keys of
    /// the fortress engine, each in its normal form, in order.
    fn save(&self) -> (fingerprints: Vec<String>)
        ensures
            fingerprints.deep_view() == engine_fingerprints(self.recipients()),
    ;
}

impl FortressRecipients for Recipients {
    open spec fn recipients(&self) -> Seq<Key> {
        self@
    }

    fn load(contents: Option<&str>, public_keys: &Vec<Key>) -> (found: Recipients) {
        fortress_load_recipients(contents, public_keys)
    }

    fn save(&self) -> (fingerprints: Vec<String>) {
        fortress_save_recipients(self)
    }
}

/// An encrypted file of a fortress.
#[derive(Debug, Clone)]
pub struct Secret {
    /// The name to show: the path below the root, without the secret suffix.
    pub name: String,
    /// The path of the file.
    pub path: String,
}

/// The name of a secret whose path below the root is `relative`: the path
/// without secret suffixes at its end, or `?` where the file does not lie
/// below the root.
pub open spec fn secret_name(relative: Option<Seq<char>>) -> Seq<char> {
    match relative {
        Some(rest) => without_suffixes(rest, SECRET_SUFFIX@),
        None => "?"@,
    }
}

impl Secret {
    /// The secret at `path`, whose path below the root is `relative`.
    pub fn named(relative: Option<&str>, path: String) -> (secret: Self)
        ensures
            secret.path == path,
            secret.name@ == secret_name(
                match relative {
                    Some(rest) => Some(rest@),
                    None => None,
                },
            ),
    {
        let name = match relative {
            Some(rest) => String::from_str(trim_suffixes(rest, SECRET_SUFFIX)),
            None => String::from_str("?"),
        };
        Self { name, path }
    }

    /// The secret at `path` in `fortress`.
    pub fn from(fortress: &Fortress, path: String) -> (secret: Self)
        ensures
            secret.path == path,
            well_named(secret),
    {
        Self::in_root(fortress.root.as_str(), path)
    }

    /// The secret at `path` in the fortress with the root `root`. Its name
    /// is the path below the root as std finds it.
    pub fn in_root(root: &str, path: String) -> (secret: Self)
        ensures
            secret.path == path,
            well_named(secret),
    {
        let relative = relative_path(root, path.as_str());
        let secret = match &relative {
            Some(rest) => Self::named(Some(rest.as_str()), path),
            None => Self::named(None, path),
        };
        assert(secret.name@ == secret_name(relative.deep_view()));
        secret
    }
}

/// Whether an entry is one of the special files of a fortress: its name is
/// that of the fingerprint file or of the key directory, or its path goes
/// through the key directory, or its parent is the key directory.
pub fn is_special_file(file_name: Option<&str>, path: &str, parent: Option<&str>) -> (held: bool)
    ensures
        held == special(
            crate::config::filetypes::text_of(file_name),
            path@,
            crate::config::filetypes::text_of(parent),
        ),
{
    let by_name = match file_name {
        Some(name) => same_text(name, FORTRESS_PUB_KEY) || same_text(name, FORTRESS_GPG_ID),
        None => false,
    };
    let by_parent = match parent {
        Some(parent) => same_text(parent, FORTRESS_PUB_KEY),
        None => false,
    };
    by_name || contains_text(path, FORTRESS_PUB_KEY) || by_parent
}

/// Whether an entry is an encrypted file: a regular file whose name ends in
/// the secret suffix.
pub fn is_secret_file(is_file: bool, file_name: Option<&str>) -> (secret: bool)
    ensures
        secret == (is_file && (match file_name {
            Some(name) => crate::text::ends_with(name@, SECRET_SUFFIX@),
            None => false,
        })),
{
    is_file && match file_name {
        Some(name) => has_suffix(name, SECRET_SUFFIX),
        None => false,
    }
}

/// Whether the first secret of a fortress can be decrypted, given whether
/// there is a secret and what the attempt to decrypt it came to: `None`
/// where no engine was to be had, else what the engine answered, or `None`
/// within where it failed. An empty fortress can be decrypted; a failed
/// attempt counts as success.
pub fn can_decrypt(has_secret: bool, attempt: Option<Option<bool>>) -> (able: bool)
    ensures
        able == (if !has_secret {
            true
        } else {
            match attempt {
                None => false,
                Some(None) => true,
                Some(Some(answer)) => answer,
            }
        }),
{
    if !has_secret {
        return true;
    }
    match attempt {
        None => false,
        Some(None) => true,
        Some(Some(answer)) => answer,
    }
}

/// The text that names the key to encrypt with, as the configuration gives
/// it: the public key of an asymmetric encryption, trimmed and without a
/// leading `0x`; or the global public key, as it is, where the encryption is
/// asymmetric and names none. No text where the encryption is not
/// asymmetric or no key is named.
pub open spec fn configured_key(config: HoardConfig, global: GlobalConfig) -> Option<Seq<char>> {
    match config.encryption {
        Some(Encryption::Asymmetric(asymmetric)) => match asymmetric.public_key {
            Some(public) => Some(
                if starts_with(trimmed(public@), "0x"@) {
                    trimmed(public@).skip(2)
                } else {
                    trimmed(public@)
                },
            ),
            None => match global.public_key {
                Some(public) => Some(public@),
                None => None,
            },
        },
        _ => None,
    }
}

/// The text that names the key to encrypt with, as the configuration gives
/// it.
pub fn configured_key_text(config: &HoardConfig, global: &GlobalConfig) -> (text: Option<String>)
    ensures
        text.deep_view() == configured_key(*config, *global),
{
    match &config.encryption {
        Some(Encryption::Asymmetric(asymmetric)) => match &asymmetric.public_key {
            Some(public) => {
                let inner = trim(public.as_str());
                if has_prefix(inner, "0x") {
                    proof {
                        reveal_strlit("0x");
                    }
                    let n = inner.unicode_len();
                    assert(inner@.subrange(2, n as int) =~= inner@.skip(2));
                    Some(String::from_str(inner.substring_char(2, n)))
                } else {
                    Some(String::from_str(inner))
                }
            },
            None => match &global.public_key {
                Some(public) => Some(public.clone()),
                None => None,
            },
        },
        _ => None,
    }
}

/// Whether the key `key` answers to `public`: `public` is its fingerprint in
/// normal form, whole or short, or one of `emails`.
pub open spec fn answers_to(key: Key, emails: Seq<Seq<char>>, public: Seq<char>) -> bool {
    ||| public == normal_fingerprint(key.fingerprint_text())
    ||| (super::protocol::gpg::has_short_form(key.fingerprint_text()) && public
        == normal_fingerprint(super::protocol::gpg::short_form(key.fingerprint_text())))
    ||| emails.contains(public)
}

/// Finds the first key of `keys` that answers to `public`: by its
/// fingerprint, whole or short, or because `public` is one of `emails`, the
/// e-mail addresses of the keychain.
pub fn find_configured_key(keys: &Vec<Key>, emails: &Vec<String>, public: &str) -> (found: Option<
    usize,
>)
    ensures
        match found {
            Some(at) => at < keys@.len() && answers_to(keys@[at as int], emails.deep_view(), public@)
                && forall|j: int|
                0 <= j < at ==> !answers_to(#[trigger] keys@[j], emails.deep_view(), public@),
            None => forall|j: int|
                0 <= j < keys@.len() ==> !answers_to(
                    #[trigger] keys@[j],
                    emails.deep_view(),
                    public@,
                ),
        },
{
    let wanted = String::from_str(public);
    let by_email = contains_name(emails, &wanted);
    let mut i: usize = 0;
    while i < keys.len()
        invariant
            i <= keys.len(),
            by_email == emails.deep_view().contains(public@),
            forall|j: int|
                0 <= j < i ==> !answers_to(#[trigger] keys@[j], emails.deep_view(), public@),
        decreases keys.len() - i,
    {
        let whole = keys[i].fingerprint(false);
        let mut hit = by_email || same_text(whole.as_str(), public);
        if !hit && keys[i].has_short_fingerprint() {
            let short = keys[i].fingerprint(true);
            hit = same_text(short.as_str(), public);
        }
        if hit {
            return Some(i);
        }
        i += 1;
    }
    None
}

/// The keys of the keychain that are no recipients yet, and among them the
/// one that the configuration names, if it names one that is there.
pub struct KeyChoice {
    /// The private keys that are no recipients yet.
    pub candidates: Vec<Key>,
    /// The position among the candidates of the key that the configuration
    /// names. Where there is none, the user is to choose.
    pub configured: Option<usize>,
}

/// Prepares the choice of the key that a new fortress is encrypted for:
/// the private keys that are no recipients yet, and the one among them that
/// the configuration names.
pub fn build_fortress(
    recipients: &Recipients,
    private_keys: Vec<Key>,
    emails: &Vec<String>,
    config: &HoardConfig,
    global: &GlobalConfig,
) -> (choice: KeyChoice)
    requires
        same_protocol(private_keys@),
    ensures
        choice.candidates@ == super::recipients::without(private_keys@, recipients@),
        match configured_key(*config, *global) {
            Some(public) => match choice.configured {
                Some(at) => at < choice.candidates@.len() && answers_to(
                    choice.candidates@[at as int],
                    emails.deep_view(),
                    public,
                ) && forall|j: int|
                    0 <= j < at ==> !answers_to(
                        #[trigger] choice.candidates@[j],
                        emails.deep_view(),
                        public,
                    ),
                None => forall|j: int|
                    0 <= j < choice.candidates@.len() ==> !answers_to(
                        #[trigger] choice.candidates@[j],
                        emails.deep_view(),
                        public,
                    ),
            },
            None => choice.configured is None,
        },
{
    let mut others = Recipients::from(private_keys);
    others.remove_all(recipients.keys());
    let configured = match configured_key_text(config, global) {
        Some(public) => find_configured_key(others.keys(), emails, public.as_str()),
        None => None,
    };
    KeyChoice { candidates: others.into_keys(), configured }
}

} // verus!
