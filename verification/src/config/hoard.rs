//! Hoards as they stand once their paths are chosen.

use crate::config::builder::hoard::{Config, Encryption, SymmetricEncryption, Walker};
use crate::paths::{join_path, joined_path};
use crate::utils::{contains_upperchar, has_upper};
use vstd::prelude::*;
use vstd::string::*;

verus! {

/// What can go wrong before the files of a pile are walked.
#[derive(Debug, Clone, PartialEq, Eq)]
pub enum Error {
    /// The glob pattern of the walker is not well formed. Holds what the
    /// glob parser said.
    GlobError(String),
    /// The pattern of the walker does not compile as a regular expression.
    /// Holds what the compiler said.
    RegexError(String),
}

/// The pattern by which the names of the files of a pile are chosen.
#[derive(Debug, Clone, PartialEq, Eq)]
pub struct WalkPattern {
    /// The regular expression.
    pub regex: String,
    /// Whether the expression matches without minding the case of letters.
    pub case_insensitive: bool,
}

/// What `regex::bytes::RegexBuilder` says against `pattern`, compiled with
/// the given case setting; nothing where the pattern compiles.
pub uninterp spec fn regex_fault(pattern: Seq<char>, case_insensitive: bool) -> Option<Seq<char>>;

/// Calls `regex::bytes::RegexBuilder::build` for `pattern` with the given
/// case setting, and hands back the error's message where the pattern does
/// not compile. The contract only gives the result its name.
#[verifier::external_body]
fn compile_fault(pattern: &str, case_insensitive: bool) -> (fault: Option<String>)
    ensures
        fault.deep_view() == regex_fault(pattern@, case_insensitive),
{
    regex::bytes::RegexBuilder::new(pattern).case_insensitive(case_insensitive).build().err().map(
        |error| error.to_string(),
    )
}

/// Calls `globset::GlobBuilder::build` for `glob` with the default options
/// and hands back the regular expression of the glob, or the message of the
/// error. Nothing is claimed of the result: the default options differ from
/// system to system.
#[verifier::external_body]
fn glob_regex(glob: &str) -> (made: Result<String, String>) {
    globset::GlobBuilder::new(glob).build().map(|glob| glob.regex().to_owned()).map_err(
        |error| error.to_string(),
    )
}

/// Whether a search for `regex` minds the case of letters: where it is told
/// to, or where the expression holds a capital.
pub open spec fn minds_case(regex: Seq<char>, case_sensitive: bool) -> bool {
    case_sensitive || has_upper(regex)
}

/// Whether `made` is the pattern for the regular expression `regex`: the
/// expression with its case setting, where it compiles with that setting;
/// else the compiler's message.
pub open spec fn pattern_outcome(
    regex: Seq<char>,
    case_sensitive: bool,
    made: Result<WalkPattern, Error>,
) -> bool {
    let insensitive = !minds_case(regex, case_sensitive);
    match made {
        Ok(pattern) => regex_fault(regex, insensitive) is None && pattern.regex@ == regex
            && pattern.case_insensitive == insensitive,
        Err(Error::RegexError(message)) => regex_fault(regex, insensitive) == Some(message@),
        Err(_) => false,
    }
}

/// The pattern for the regular expression `regex`.
pub fn regex_pattern(regex: String, case_sensitive: bool) -> (made: Result<WalkPattern, Error>)
    ensures
        pattern_outcome(regex@, case_sensitive, made),
{
    let sensitive = case_sensitive || contains_upperchar(regex.as_str());
    match compile_fault(regex.as_str(), !sensitive) {
        Some(message) => Err(Error::RegexError(message)),
        None => Ok(WalkPattern { regex, case_insensitive: !sensitive }),
    }
}

/// Whether `made` is the pattern of `walker`, where `glob` is what the glob
/// parser made of the walker's pattern: the walker's own pattern where it is
/// a regular expression; else the glob's expression, or the glob parser's
/// message.
pub open spec fn walker_outcome(
    walker: Walker,
    glob: Result<String, String>,
    made: Result<WalkPattern, Error>,
) -> bool {
    if walker.regex {
        pattern_outcome(walker.pattern@, walker.case_sensitive, made)
    } else {
        match glob {
            Ok(regex) => pattern_outcome(regex@, walker.case_sensitive, made),
            Err(message) => made matches Err(Error::GlobError(said)) && said@ == message@,
        }
    }
}

/// The pattern of `walker`, where `glob` is what the glob parser made of the
/// walker's pattern.
pub fn walker_pattern(walker: &Walker, glob: Result<String, String>) -> (made: Result<
    WalkPattern,
    Error,
>)
    ensures
        walker_outcome(*walker, glob, made),
{
    if walker.regex {
        regex_pattern(walker.pattern.clone(), walker.case_sensitive)
    } else {
        match glob {
            Ok(regex) => regex_pattern(regex, walker.case_sensitive),
            Err(message) => Err(Error::GlobError(message)),
        }
    }
}

/// The patterns that keep the excluded files of `walker` out of a walk: each
/// exclusion with `!` before it.
pub fn exclude_overrides(walker: &Walker) -> (overrides: Vec<String>)
    ensures
        overrides@.len() == walker.exclude@.len(),
        forall|i: int|
            0 <= i < overrides@.len() ==> (#[trigger] overrides@[i])@ == seq!['!']
                + walker.exclude@[i]@,
{
    let mut overrides: Vec<String> = Vec::new();
    let mut i: usize = 0;
    while i < walker.exclude.len()
        invariant
            i <= walker.exclude.len(),
            overrides@.len() == i,
            forall|j: int|
                0 <= j < i ==> (#[trigger] overrides@[j])@ == seq!['!'] + walker.exclude@[j]@,
        decreases walker.exclude.len() - i,
    {
        proof {
            reveal_strlit("!");
        }
        let mut line = String::from_str("!");
        assert(line@ =~= seq!['!']);
        line.append(walker.exclude[i].as_str());
        overrides.push(line);
        i += 1;
    }
    overrides
}

/// What is done with one file of a pile.
#[derive(Debug, Clone, Copy, PartialEq, Eq, Structural)]
pub enum FileAction {
    /// Nothing: the file is left out.
    Skip,
    /// The file is copied as it is.
    Copy,
    /// The file is decrypted, to the name without the secret suffix.
    Decrypt,
    /// The file is encrypted with the password, to the name with the secret
    /// suffix.
    EncryptSymmetric,
    /// The file is encrypted for the recipients, to the name with the secret
    /// suffix.
    EncryptAsymmetric,
    /// The password would come from a command: nothing is written.
    Nothing,
}

/// Decides what is done with one file: `restore` tells the direction,
/// `special` whether the file is one of the special files of a fortress.
///
/// On a restore the special files are left out. Without encryption every
/// other file is copied. With encryption the special files are copied on a
/// backup, and every other file is decrypted on a restore and encrypted on a
/// backup, by the kind of encryption.
pub fn file_action(restore: bool, special: bool, encryption: Option<&Encryption>) -> (action:
    FileAction)
    ensures
        action == (if special && restore {
            FileAction::Skip
        } else {
            match encryption {
                None => FileAction::Copy,
                Some(kind) => if special {
                    FileAction::Copy
                } else {
                    match kind {
                        Encryption::Symmetric(SymmetricEncryption::PasswordCmd(_)) => {
                            FileAction::Nothing
                        },
                        Encryption::Symmetric(SymmetricEncryption::Password(_)) => if restore {
                            FileAction::Decrypt
                        } else {
                            FileAction::EncryptSymmetric
                        },
                        Encryption::Asymmetric(_) => if restore {
                            FileAction::Decrypt
                        } else {
                            FileAction::EncryptAsymmetric
                        },
                    }
                },
            }
        }),
{
    if special && restore {
        return FileAction::Skip;
    }
    match encryption {
        None => FileAction::Copy,
        Some(kind) => {
            if special {
                return FileAction::Copy;
            }
            match kind {
                Encryption::Symmetric(SymmetricEncryption::PasswordCmd(_)) => FileAction::Nothing,
                Encryption::Symmetric(SymmetricEncryption::Password(_)) => if restore {
                    FileAction::Decrypt
                } else {
                    FileAction::EncryptSymmetric
                },
                Encryption::Asymmetric(_) => if restore {
                    FileAction::Decrypt
                } else {
                    FileAction::EncryptAsymmetric
                },
            }
        },
    }
}

/// The path `base` with each of `parts` below it, one after the other.
pub open spec fn below(base: Seq<char>, parts: Seq<Seq<char>>) -> Seq<char>
    decreases parts.len(),
{
    if parts.len() == 0 {
        base
    } else {
        joined_path(below(base, parts.drop_last()), parts.last())
    }
}

/// The place of a walked file below `dest`: the last `depth` parts of the
/// file's path, which has the parts `components`, below `dest`.
pub fn destination(dest: &str, components: &Vec<String>, depth: usize) -> (path: String)
    requires
        depth <= components@.len(),
    ensures
        path@ == below(dest@, components.deep_view().skip(components@.len() - depth)),
{
    let from = components.len() - depth;
    let ghost tail = components.deep_view().skip(from as int);
    let mut path = String::from_str(dest);
    let mut i: usize = from;
    assert(tail.take(0) =~= Seq::<Seq<char>>::empty());
    while i < components.len()
        invariant
            from <= i <= components.len(),
            tail == components.deep_view().skip(from as int),
            path@ == below(dest@, tail.take(i - from)),
        decreases components.len() - i,
    {
        let ghost prefix = tail.take(i - from + 1);
        assert(prefix.drop_last() =~= tail.take(i - from));
        assert(prefix.last() == components[i as int]@);
        path = join_path(path.as_str(), components[i].as_str());
        i += 1;
    }
    assert(tail.take(i - from) =~= tail);
    path
}

/// One copy to make: from where to where, and for which pile.
#[derive(Debug, Clone, PartialEq, Eq)]
pub struct Route {
    /// The name of the pile, where it has one.
    pub pile: Option<String>,
    /// The path to read from.
    pub from: String,
    /// The path to write to.
    pub to: String,
}

/// The route of a pile with the path `path` and the hoard directory
/// `prefix`: from the path to the directory on a backup, the other way on a
/// restore.
pub open spec fn route_view(
    pile: Option<Seq<char>>,
    path: Seq<char>,
    prefix: Seq<char>,
    restore: bool,
) -> (Option<Seq<char>>, Seq<char>, Seq<char>) {
    if restore {
        (pile, prefix, path)
    } else {
        (pile, path, prefix)
    }
}

/// The routes of the named piles `piles` that have a path, in order, each
/// with its own directory below `prefix`.
pub open spec fn named_routes(piles: Seq<(String, Pile)>, prefix: Seq<char>, restore: bool) -> Seq<
    (Option<Seq<char>>, Seq<char>, Seq<char>),
>
    decreases piles.len(),
{
    if piles.len() == 0 {
        Seq::empty()
    } else {
        let before = named_routes(piles.drop_last(), prefix, restore);
        match piles.last().1.path {
            Some(path) => before.push(
                route_view(
                    Some(piles.last().0@),
                    path@,
                    joined_path(prefix, piles.last().0@),
                    restore,
                ),
            ),
            None => before,
        }
    }
}

impl Route {
    /// The route as contracts speak of it.
    pub open spec fn view(&self) -> (Option<Seq<char>>, Seq<char>, Seq<char>) {
        (self.pile.deep_view(), self.from@, self.to@)
    }
}

/// The routes of `routes`, as contracts speak of them.
pub open spec fn routes_view(routes: Seq<Route>) -> Seq<(Option<Seq<char>>, Seq<char>, Seq<char>)> {
    Seq::new(routes.len(), |i: int| routes[i].view())
}

impl Pile {
    /// The copy to make for this pile on a backup: from its path to the
    /// hoard directory `prefix`. A pile without a path has nothing to copy.
    pub fn backup(&self, prefix: &str) -> (route: Option<Route>)
        ensures
            match route {
                Some(found) => self.path is Some && found.view() == route_view(
                    None,
                    self.path->0@,
                    prefix@,
                    false,
                ),
                None => self.path is None,
            },
    {
        match &self.path {
            Some(path) => Some(Route { pile: None, from: path.clone(), to: prefix.to_owned() }),
            None => None,
        }
    }

    /// The copy to make for this pile on a restore: from the hoard directory
    /// `prefix` to its path. A pile without a path has nothing to copy.
    pub fn restore(&self, prefix: &str) -> (route: Option<Route>)
        ensures
            match route {
                Some(found) => self.path is Some && found.view() == route_view(
                    None,
                    self.path->0@,
                    prefix@,
                    true,
                ),
                None => self.path is None,
            },
    {
        match &self.path {
            Some(path) => Some(Route { pile: None, from: prefix.to_owned(), to: path.clone() }),
            None => None,
        }
    }
}

impl MultipleEntries {
    /// The copies to make for the piles that have a path, each with its own
    /// directory below `prefix`.
    fn routes(&self, prefix: &str, restore: bool) -> (routes: Vec<Route>)
        ensures
            routes_view(routes@) == named_routes(self.piles@, prefix@, restore),
    {
        let mut routes: Vec<Route> = Vec::new();
        let mut i: usize = 0;
        assert(self.piles@.take(0) =~= Seq::<(String, Pile)>::empty());
        assert(routes_view(routes@) =~= Seq::empty());
        while i < self.piles.len()
            invariant
                i <= self.piles.len(),
                routes_view(routes@) == named_routes(self.piles@.take(i as int), prefix@, restore),
            decreases self.piles.len() - i,
        {
            let ghost before = routes_view(routes@);
            let ghost prefix_piles = self.piles@.take(i as int + 1);
            assert(prefix_piles.drop_last() =~= self.piles@.take(i as int));
            assert(prefix_piles.last() == self.piles@[i as int]);
            let name = &self.piles[i].0;
            let below = join_path(prefix, name.as_str());
            let found = if restore {
                self.piles[i].1.restore(below.as_str())
            } else {
                self.piles[i].1.backup(below.as_str())
            };
            match found {
                Some(route) => {
                    let named = Route { pile: Some(name.clone()), from: route.from, to: route.to };
                    routes.push(named);
                    assert(routes_view(routes@) =~= before.push(named.view()));
                },
                None => {
                    assert(routes_view(routes@) =~= before);
                },
            }
            i += 1;
        }
        assert(self.piles@.take(i as int) =~= self.piles@);
        routes
    }

    /// The copies to make on a backup.
    pub fn backup(&self, prefix: &str) -> (routes: Vec<Route>)
        ensures
            routes_view(routes@) == named_routes(self.piles@, prefix@, false),
    {
        self.routes(prefix, false)
    }

    /// The copies to make on a restore.
    pub fn restore(&self, prefix: &str) -> (routes: Vec<Route>)
        ensures
            routes_view(routes@) == named_routes(self.piles@, prefix@, true),
    {
        self.routes(prefix, true)
    }
}

/// The routes of `hoard` with the hoard directory `prefix`.
pub open spec fn hoard_routes(hoard: Hoard, prefix: Seq<char>, restore: bool) -> Seq<
    (Option<Seq<char>>, Seq<char>, Seq<char>),
> {
    match hoard {
        Hoard::Anonymous(pile) => match pile.path {
            Some(path) => seq![route_view(None, path@, prefix, restore)],
            None => Seq::empty(),
        },
        Hoard::Named(entries) => named_routes(entries.piles@, prefix, restore),
    }
}

/// One path to hoard, with its configuration.
#[derive(Clone, Debug, PartialEq)]
pub struct Pile {
    /// The configuration for this path, where there is one.
    pub config: Option<Config>,
    /// The path to hoard. There is none where no condition matched the
    /// machine.
    pub path: Option<String>,
}

/// The named piles of one hoard.
#[derive(Clone, Debug, PartialEq)]
pub struct MultipleEntries {
    /// The piles, each under its name.
    pub piles: Vec<(String, Pile)>,
}

/// A hoard: one pile without a name, or several with names.
#[derive(Clone, Debug, PartialEq)]
pub enum Hoard {
    /// One pile without a name.
    Anonymous(Pile),
    /// Several piles with names.
    Named(MultipleEntries),
}

/// The paths of a hoard.
#[derive(Clone, Debug, PartialEq)]
pub enum HoardPaths {
    /// The path of the one pile, where it has one.
    Anonymous(Option<String>),
    /// The paths of the named piles that have one, each under its name.
    Named(Vec<(String, String)>),
}

/// The names and paths of the piles of `piles` that have a path, in order.
pub open spec fn named_paths(piles: Seq<(String, Pile)>) -> Seq<(Seq<char>, Seq<char>)>
    decreases piles.len(),
{
    if piles.len() == 0 {
        Seq::empty()
    } else {
        let before = named_paths(piles.drop_last());
        match piles.last().1.path {
            Some(path) => before.push((piles.last().0@, path@)),
            None => before,
        }
    }
}

impl Pile {
    /// The pattern by which the files of this pile are chosen: that of its
    /// walker, or of the default walker where it has no configuration. A
    /// glob is first turned into a regular expression.
    pub fn pattern(&self) -> (made: Result<WalkPattern, Error>)
        ensures
            match self.config {
                Some(config) => exists|glob: Result<String, String>|
                    walker_outcome(config.walker, glob, made),
                None => exists|glob: Result<String, String>, walker: Walker|
                    walker.pattern@ == "*"@ && !walker.regex && !walker.case_sensitive
                        && walker_outcome(walker, glob, made),
            },
    {
        match &self.config {
            Some(config) => Self::pattern_of(&config.walker),
            None => {
                let walker = Walker::default();
                let made = Self::pattern_of(&walker);
                made
            },
        }
    }

    /// The pattern of `walker`.
    fn pattern_of(walker: &Walker) -> (made: Result<WalkPattern, Error>)
        ensures
            exists|glob: Result<String, String>| walker_outcome(*walker, glob, made),
    {
        let glob = if walker.regex {
            Err(String::new())
        } else {
            glob_regex(walker.pattern.as_str())
        };
        let made = walker_pattern(walker, glob);
        assert(walker_outcome(*walker, glob, made));
        made
    }
}

impl Hoard {
    /// The copies to make on a backup of this hoard to the hoard directory
    /// `prefix`.
    pub fn backup(&self, prefix: &str) -> (routes: Vec<Route>)
        ensures
            routes_view(routes@) == hoard_routes(*self, prefix@, false),
    {
        match self {
            Hoard::Anonymous(single) => {
                let mut routes: Vec<Route> = Vec::new();
                match single.backup(prefix) {
                    Some(route) => {
                        routes.push(route);
                        assert(routes_view(routes@) =~= seq![route.view()]);
                    },
                    None => {
                        assert(routes_view(routes@) =~= Seq::empty());
                    },
                }
                routes
            },
            Hoard::Named(multiple) => multiple.backup(prefix),
        }
    }

    /// The copies to make on a restore of this hoard from the hoard
    /// directory `prefix`.
    pub fn restore(&self, prefix: &str) -> (routes: Vec<Route>)
        ensures
            routes_view(routes@) == hoard_routes(*self, prefix@, true),
    {
        match self {
            Hoard::Anonymous(single) => {
                let mut routes: Vec<Route> = Vec::new();
                match single.restore(prefix) {
                    Some(route) => {
                        routes.push(route);
                        assert(routes_view(routes@) =~= seq![route.view()]);
                    },
                    None => {
                        assert(routes_view(routes@) =~= Seq::empty());
                    },
                }
                routes
            },
            Hoard::Named(multiple) => multiple.restore(prefix),
        }
    }

    /// The paths of this hoard: of each pile that has one.
    pub fn get_paths(&self) -> (paths: HoardPaths)
        ensures
            match (self, paths) {
                (Hoard::Anonymous(pile), HoardPaths::Anonymous(path)) => path.deep_view()
                    == pile.path.deep_view(),
                (Hoard::Named(entries), HoardPaths::Named(found)) => found.deep_view()
                    == named_paths(entries.piles@),
                _ => false,
            },
    {
        match self {
            Hoard::Anonymous(pile) => HoardPaths::Anonymous(
                match &pile.path {
                    Some(path) => Some(path.clone()),
                    None => None,
                },
            ),
            Hoard::Named(entries) => {
                let mut found: Vec<(String, String)> = Vec::new();
                let mut i: usize = 0;
                assert(entries.piles@.take(0) =~= Seq::<(String, Pile)>::empty());
                assert(found.deep_view() =~= Seq::<(Seq<char>, Seq<char>)>::empty());
                while i < entries.piles.len()
                    invariant
                        i <= entries.piles.len(),
                        found.deep_view() == named_paths(entries.piles@.take(i as int)),
                    decreases entries.piles.len() - i,
                {
                    let ghost before = found.deep_view();
                    let ghost prefix = entries.piles@.take(i as int + 1);
                    assert(prefix.drop_last() =~= entries.piles@.take(i as int));
                    assert(prefix.last() == entries.piles@[i as int]);
                    match &entries.piles[i].1.path {
                        Some(path) => {
                            found.push((entries.piles[i].0.clone(), path.clone()));
                            assert(found.deep_view() =~= before.push(
                                (entries.piles@[i as int].0@, path@),
                            ));
                        },
                        None => {},
                    }
                    i += 1;
                }
                assert(entries.piles@.take(i as int) =~= entries.piles@);
                HoardPaths::Named(found)
            },
        }
    }
}

} // verus!
