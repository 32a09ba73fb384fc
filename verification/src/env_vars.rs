//! Expands references to environment variables, and a leading `~`, in a path.
//!
//! The variables are read from a [`Variables`] value that the caller fills
//! once; nothing here looks at the process itself.

use crate::text::{chars_of, find_char, first_index, lemma_first_index, same_text};
use vstd::prelude::*;
use vstd::string::*;

verus! {

/// What `char::is_alphanumeric` answers for `c`.
pub uninterp spec fn alphanumeric(c: char) -> bool;

/// Calls `char::is_alphanumeric`. The contract only gives the answer its
/// name: std decides by Unicode's Alphabetic and Numeric properties.
#[verifier::external_body]
fn is_alphanumeric(c: char) -> (answer: bool)
    ensures
        answer == alphanumeric(c),
{
    c.is_alphanumeric()
}

/// Why a variable could not be used.
#[derive(Debug, Clone, Copy, PartialEq, Eq, Structural)]
pub enum VarError {
    /// The variable is not set, and the reference gives no usable default.
    NotPresent,
    /// The variable holds data that is not Unicode text.
    NotUnicode,
}

/// A failed expansion: the variable, and what was wrong with it.
#[derive(Debug, Clone, PartialEq, Eq)]
pub struct Error {
    /// What was wrong.
    pub error: VarError,
    /// The name of the variable.
    pub var: String,
}

/// A failed expansion, as contracts speak of it.
pub struct Failure {
    /// What was wrong.
    pub error: VarError,
    /// The name of the variable.
    pub var: Seq<char>,
}

impl View for Error {
    type V = Failure;

    open spec fn view(&self) -> Failure {
        Failure { error: self.error, var: self.var@ }
    }
}

/// The map that `pairs` builds when set from first to last.
pub open spec fn variables_of(pairs: Seq<(Seq<char>, Option<Seq<char>>)>) -> Map<
    Seq<char>,
    Option<Seq<char>>,
>
    decreases pairs.len(),
{
    if pairs.len() == 0 {
        Map::empty()
    } else {
        variables_of(pairs.drop_last()).insert(pairs.last().0, pairs.last().1)
    }
}

/// The environment variables of the process, as read once. A variable that
/// is set holds its text, or `None` where its data is not Unicode.
pub struct Variables {
    entries: Vec<(String, Option<String>)>,
}

impl View for Variables {
    type V = Map<Seq<char>, Option<Seq<char>>>;

    closed spec fn view(&self) -> Map<Seq<char>, Option<Seq<char>>> {
        variables_of(self.entries.deep_view())
    }
}

/// What a [`Variables`] value knows of one name.
pub enum Lookup<'a> {
    /// The variable is not set.
    Absent,
    /// The variable is set to data that is not Unicode text.
    Unreadable,
    /// The variable's text.
    Value(&'a String),
}

impl Variables {
    /// No variable is set.
    pub fn new() -> (vars: Self)
        ensures
            vars@ == Map::<Seq<char>, Option<Seq<char>>>::empty(),
    {
        let vars = Variables { entries: Vec::new() };
        assert(vars.entries.deep_view() =~= Seq::empty());
        vars
    }

    /// Sets `name` to the text `value`.
    pub fn set(&mut self, name: String, value: String)
        ensures
            final(self)@ == old(self)@.insert(name@, Some(value@)),
    {
        let ghost before = self.entries.deep_view();
        self.entries.push((name, Some(value)));
        assert(self.entries.deep_view().drop_last() =~= before);
        assert(self.entries.deep_view().last() == (name@, Some(value@)));
    }

    /// Sets `name` to data that is not Unicode text.
    pub fn set_unreadable(&mut self, name: String)
        ensures
            final(self)@ == old(self)@.insert(name@, None),
    {
        let ghost before = self.entries.deep_view();
        self.entries.push((name, None));
        assert(self.entries.deep_view().drop_last() =~= before);
        assert(self.entries.deep_view().last() == (name@, None::<Seq<char>>));
    }

    /// What is known of `name`.
    pub fn get<'a>(&'a self, name: &str) -> (found: Lookup<'a>)
        ensures
            match found {
                Lookup::Absent => !self@.contains_key(name@),
                Lookup::Unreadable => self@.contains_key(name@) && self@[name@] is None,
                Lookup::Value(text) => self@.contains_key(name@) && self@[name@] == Some(text@),
            },
    {
        let mut i: usize = self.entries.len();
        let ghost all = self.entries.deep_view();
        assert(all.take(i as int) =~= all);
        while i > 0
            invariant
                i <= self.entries.len(),
                all == self.entries.deep_view(),
                variables_of(all).contains_key(name@) == variables_of(
                    all.take(i as int),
                ).contains_key(name@),
                variables_of(all).contains_key(name@) ==> variables_of(all)[name@] == variables_of(
                    all.take(i as int),
                )[name@],
            decreases i,
        {
            let ghost prefix = all.take(i as int);
            assert(prefix.drop_last() =~= all.take(i as int - 1));
            assert(prefix.last() == all[i as int - 1]);
            i -= 1;
            if same_text(self.entries[i].0.as_str(), name) {
                assert(all[i as int].1 == self.entries[i as int].1.deep_view());
                return match &self.entries[i].1 {
                    Some(text) => Lookup::Value(text),
                    None => Lookup::Unreadable,
                };
            }
        }
        Lookup::Absent
    }
}

/// Whether `c` may stand in the name of a variable written without braces.
pub open spec fn name_char(c: char) -> bool {
    alphanumeric(c) || c == '_'
}

/// How many characters at the start of `s` may stand in a name.
pub open spec fn name_len(s: Seq<char>) -> int
    decreases s.len(),
{
    if s.len() == 0 || !name_char(s[0]) {
        0
    } else {
        1 + name_len(s.drop_first())
    }
}

/// Position of the first `a` that `b` follows at once, or `s.len()` where
/// there is none.
pub open spec fn first_pair(s: Seq<char>, a: char, b: char) -> int
    decreases s.len(),
{
    if s.len() < 2 {
        s.len() as int
    } else if s[0] == a && s[1] == b {
        0
    } else {
        1 + first_pair(s.drop_first(), a, b)
    }
}

/// What one reference to a variable comes to: the text that replaces it, and
/// how many characters of the path it took.
pub struct Step {
    /// The replacement.
    pub piece: Seq<char>,
    /// The length of the reference.
    pub used: int,
}

/// The name of the variable that a default names: the text after `:-`,
/// without a leading `$`.
pub open spec fn default_name(text: Seq<char>) -> Seq<char> {
    if text.len() > 0 && text[0] == '$' {
        text.skip(1)
    } else {
        text
    }
}

/// The text of the variable `name` written without braces.
pub open spec fn bare_value(name: Seq<char>, vars: Map<Seq<char>, Option<Seq<char>>>) -> Result<
    Seq<char>,
    Failure,
> {
    if !vars.contains_key(name) {
        Err(Failure { error: VarError::NotPresent, var: name })
    } else {
        match vars[name] {
            Some(text) => Ok(text),
            None => Err(Failure { error: VarError::NotUnicode, var: name }),
        }
    }
}

/// The text for `${name}`, or for `${name:-default}` where `fallback` is the
/// variable that the default names. The default is looked up first, and
/// unreadable data in it is an error. Then the variable's own text counts;
/// without it, the default's; without both, the reference fails.
pub open spec fn braced_value(
    name: Seq<char>,
    fallback: Option<Seq<char>>,
    vars: Map<Seq<char>, Option<Seq<char>>>,
) -> Result<Seq<char>, Failure> {
    if fallback is Some && vars.contains_key(fallback->0) && vars[fallback->0] is None {
        Err(Failure { error: VarError::NotUnicode, var: fallback->0 })
    } else if vars.contains_key(name) && vars[name] is Some {
        Ok(vars[name]->0)
    } else if fallback is Some && vars.contains_key(fallback->0) {
        Ok(vars[fallback->0]->0)
    } else if vars.contains_key(name) {
        Err(Failure { error: VarError::NotUnicode, var: name })
    } else {
        Err(Failure { error: VarError::NotPresent, var: name })
    }
}

/// What the reference at the start of `t` comes to; `t` begins with `$`.
///
/// `${name}` and `${name:-default}` end at the first `}`; a `:-` directly
/// behind `${` is part of the name. `${` without a `}` stands for itself.
/// `$name` runs as far as letters, digits and `_` do. `$$` stands for one
/// `$`, and so does a `$` before anything else.
pub open spec fn reference(t: Seq<char>, vars: Map<Seq<char>, Option<Seq<char>>>) -> Result<
    Step,
    Failure,
> {
    if t.len() > 1 && t[1] == '{' {
        let close = first_index(t, '}');
        if close < t.len() {
            let split = first_pair(t.take(close), ':', '-');
            let has_default = split < close && split != 2;
            let name = t.subrange(2, if has_default { split } else { close });
            let fallback = if has_default {
                Some(default_name(t.subrange(split + 2, close)))
            } else {
                None
            };
            match braced_value(name, fallback, vars) {
                Ok(piece) => Ok(Step { piece, used: close + 1 }),
                Err(failure) => Err(failure),
            }
        } else {
            Ok(Step { piece: t.take(2), used: 2 })
        }
    } else if t.len() > 1 && name_char(t[1]) {
        let end = 1 + name_len(t.skip(1));
        match bare_value(t.subrange(1, end), vars) {
            Ok(piece) => Ok(Step { piece, used: end }),
            Err(failure) => Err(failure),
        }
    } else {
        Ok(Step { piece: seq!['$'], used: if t.len() > 1 && t[1] == '$' { 2 } else { 1 } })
    }
}

/// `rest` behind `prefix`, or the failure of `rest`.
pub open spec fn behind(prefix: Seq<char>, rest: Result<Seq<char>, Failure>) -> Result<
    Seq<char>,
    Failure,
> {
    match rest {
        Ok(text) => Ok(prefix + text),
        Err(failure) => Err(failure),
    }
}

/// `s` with each reference replaced, from left to right; the first reference
/// that fails decides.
pub open spec fn expand_from(s: Seq<char>, vars: Map<Seq<char>, Option<Seq<char>>>) -> Result<
    Seq<char>,
    Failure,
>
    decreases s.len(),
{
    let dollar = first_index(s, '$');
    if 0 <= dollar < s.len() {
        let t = s.skip(dollar);
        match reference(t, vars) {
            Err(failure) => Err(failure),
            Ok(step) => if 1 <= step.used <= t.len() {
                behind(s.take(dollar) + step.piece, expand_from(t.skip(step.used), vars))
            } else {
                Ok(s)
            },
        }
    } else {
        Ok(s)
    }
}

/// `path` with `home` in place of a leading `~` that stands alone or before
/// a `/`.
pub open spec fn with_home(path: Seq<char>, home: Seq<char>) -> Seq<char> {
    if path.len() > 0 && path[0] == '~' && (path.len() == 1 || path[1] == '/') {
        home + path.skip(1)
    } else {
        path
    }
}

/// The expansion of `path`: first the leading `~`, then the variables.
pub open spec fn expanded(
    path: Seq<char>,
    vars: Map<Seq<char>, Option<Seq<char>>>,
    home: Seq<char>,
) -> Result<Seq<char>, Failure> {
    expand_from(with_home(path, home), vars)
}

/// `name_len` counts name characters only, and stops before one that is none.
proof fn lemma_name_len(s: Seq<char>)
    ensures
        0 <= name_len(s) <= s.len(),
    decreases s.len(),
{
    if s.len() == 0 || !name_char(s[0]) {
    } else {
        lemma_name_len(s.drop_first());
    }
}

/// A position before which all are name characters, and at which the text
/// ends or another character stands, is `name_len`.
proof fn lemma_name_len_is(s: Seq<char>, k: int)
    requires
        0 <= k <= s.len(),
        forall|j: int| 0 <= j < k ==> name_char(s[j]),
        k < s.len() ==> !name_char(s[k]),
    ensures
        name_len(s) == k,
    decreases s.len(),
{
    if s.len() == 0 || !name_char(s[0]) {
    } else {
        let t = s.drop_first();
        assert forall|j: int| 0 <= j < k - 1 implies name_char(t[j]) by {
            assert(t[j] == s[j + 1]);
        }
        lemma_name_len_is(t, k - 1);
    }
}

/// A position before which no pair starts, and at which one starts or too
/// little is left for one, gives `first_pair`.
proof fn lemma_first_pair_is(s: Seq<char>, a: char, b: char, k: int)
    requires
        0 <= k <= s.len(),
        forall|j: int| 0 <= j < k && j + 1 < s.len() ==> !(#[trigger] s[j] == a && s[j + 1] == b),
        k + 1 < s.len() ==> s[k] == a && s[k + 1] == b,
        k + 1 >= s.len() ==> k == s.len(),
    ensures
        first_pair(s, a, b) == k,
    decreases s.len(),
{
    if s.len() < 2 {
    } else if s[0] == a && s[1] == b {
    } else {
        let t = s.drop_first();
        assert forall|j: int| 0 <= j < k - 1 && j + 1 < t.len() implies !(#[trigger] t[j] == a
            && t[j + 1] == b) by {
            assert(t[j] == s[j + 1]);
            assert(t[j + 1] == s[j + 2]);
        }
        lemma_first_pair_is(t, a, b, k - 1);
    }
}

/// Whether `c` may stand in the name of a variable written without braces.
fn is_name_char(c: char) -> (answer: bool)
    ensures
        answer == name_char(c),
{
    is_alphanumeric(c) || c == '_'
}

/// Finds the end of the run of name characters that begins at `from`.
fn name_end(text: &Vec<char>, from: usize) -> (end: usize)
    requires
        from <= text.len(),
    ensures
        from <= end <= text.len(),
        end == from + name_len(text@.skip(from as int)),
{
    let mut end: usize = from;
    while end < text.len() && is_name_char(text[end])
        invariant
            from <= end <= text.len(),
            forall|j: int| from <= j < end ==> name_char(text@[j]),
        decreases text.len() - end,
    {
        end += 1;
    }
    proof {
        lemma_name_len_is(text@.skip(from as int), end - from);
    }
    end
}

/// Finds the first `a` that `b` follows at once, both within `from..to`.
fn find_pair(text: &Vec<char>, from: usize, to: usize, a: char, b: char) -> (at: usize)
    requires
        from <= to <= text.len(),
    ensures
        from <= at <= to,
        at == from + first_pair(text@.subrange(from as int, to as int), a, b),
{
    let mut at: usize = from;
    while to - at >= 2 && !(text[at] == a && text[at + 1] == b)
        invariant
            from <= at <= to <= text.len(),
            forall|j: int|
                from <= j < at && j + 1 < to ==> !(#[trigger] text@[j] == a && text@[j + 1] == b),
        decreases to - at,
    {
        at += 1;
    }
    let found = if to - at >= 2 {
        at
    } else {
        to
    };
    proof {
        lemma_first_pair_is(text@.subrange(from as int, to as int), a, b, found - from);
    }
    found
}

/// `path` with `home` in place of a leading `~` that stands alone or before
/// a `/`.
fn put_home(path: &str, home: &str) -> (out: String)
    ensures
        out@ == with_home(path@, home@),
{
    let chars = chars_of(path);
    let n = chars.len();
    if n > 0 && chars[0] == '~' && (n == 1 || chars[1] == '/') {
        let mut out = String::from_str(home);
        out.append(path.substring_char(1, n));
        assert(path@.subrange(1, n as int) =~= path@.skip(1));
        out
    } else {
        String::from_str(path)
    }
}

/// Expands the reference that begins with the `$` at `at`.
fn expand_reference(text: &str, chars: &Vec<char>, at: usize, vars: &Variables) -> (made: Result<
    (String, usize),
    Error,
>)
    requires
        chars@ == text@,
        at < chars.len(),
        chars@[at as int] == '$',
    ensures
        match made {
            Ok((piece, used)) => reference(text@.skip(at as int), vars@) == Ok::<Step, Failure>(
                Step { piece: piece@, used: used as int },
            ) && 1 <= used <= chars.len() - at,
            Err(error) => reference(text@.skip(at as int), vars@) == Err::<Step, Failure>(error@),
        },
{
    let n = chars.len();
    let ghost t = text@.skip(at as int);
    if n - at > 1 && chars[at + 1] == '{' {
        let close = find_char(chars, at, '}');
        proof {
            lemma_first_index(t, '}');
        }
        if close < n {
            assert(t.take(close - at) =~= text@.subrange(at as int, close as int));
            let split = find_pair(chars, at, close, ':', '-');
            let has_default = split < close && split != at + 2;
            assert(close >= at + 2) by {
                assert(t[0] != '}' && t[1] != '}');
            }
            assert(split >= at + 2) by {
                if split < at + 2 {
                    let taken = t.take(close - at);
                    lemma_pair_start(taken, ':', '-');
                    assert(taken[0] == t[0] && taken[1] == t[1]);
                }
            }
            let name_to = if has_default {
                split
            } else {
                close
            };
            let name = text.substring_char(at + 2, name_to);
            assert(name@ =~= t.subrange(2, name_to - at));
            let mut fallback: Option<String> = None;
            let ghost fallback_name: Option<Seq<char>> = None;
            if has_default {
                proof {
                    lemma_pair_start(t.take(close - at), ':', '-');
                }
                let from = if split + 2 < close && chars[split + 2] == '$' {
                    split + 3
                } else {
                    split + 2
                };
                let wanted = text.substring_char(from, close);
                proof {
                    let written = t.subrange(split + 2 - at, close - at);
                    assert(wanted@ =~= default_name(written));
                    fallback_name = Some(wanted@);
                }
                match vars.get(wanted) {
                    Lookup::Unreadable => {
                        return Err(
                            Error { error: VarError::NotUnicode, var: String::from_str(wanted) },
                        );
                    },
                    Lookup::Value(value) => {
                        fallback = Some(value.clone());
                    },
                    Lookup::Absent => {},
                }
            }
            match vars.get(name) {
                Lookup::Value(value) => Ok((value.clone(), close + 1 - at)),
                Lookup::Unreadable => match fallback {
                    Some(value) => Ok((value, close + 1 - at)),
                    None => Err(Error { error: VarError::NotUnicode, var: String::from_str(name) }),
                },
                Lookup::Absent => match fallback {
                    Some(value) => Ok((value, close + 1 - at)),
                    None => Err(Error { error: VarError::NotPresent, var: String::from_str(name) }),
                },
            }
        } else {
            let piece = text.substring_char(at, at + 2);
            assert(piece@ =~= t.take(2));
            Ok((String::from_str(piece), 2))
        }
    } else if n - at > 1 && is_name_char(chars[at + 1]) {
        let end = name_end(chars, at + 1);
        proof {
            assert(t.skip(1) =~= text@.skip(at + 1));
            lemma_name_len(t.skip(1));
        }
        let name = text.substring_char(at + 1, end);
        assert(name@ =~= t.subrange(1, end - at));
        match vars.get(name) {
            Lookup::Value(value) => Ok((value.clone(), end - at)),
            Lookup::Unreadable => Err(
                Error { error: VarError::NotUnicode, var: String::from_str(name) },
            ),
            Lookup::Absent => Err(Error { error: VarError::NotPresent, var: String::from_str(name) }),
        }
    } else {
        let used: usize = if n - at > 1 && chars[at + 1] == '$' {
            2
        } else {
            1
        };
        proof {
            reveal_strlit("$");
        }
        let piece = String::from_str("$");
        assert(piece@ =~= seq!['$']);
        Ok((piece, used))
    }
}

/// Where a pair is found, it starts on `a`, `b` follows, and it ends within
/// the text.
proof fn lemma_pair_start(s: Seq<char>, a: char, b: char)
    ensures
        0 <= first_pair(s, a, b) <= s.len(),
        first_pair(s, a, b) < s.len() ==> first_pair(s, a, b) + 1 < s.len() && s[first_pair(
            s,
            a,
            b,
        )] == a && s[first_pair(s, a, b) + 1] == b,
    decreases s.len(),
{
    if s.len() < 2 {
    } else if s[0] == a && s[1] == b {
    } else {
        let t = s.drop_first();
        lemma_pair_start(t, a, b);
    }
}

/// Expands `path`: a leading `~` that stands alone or before a `/` becomes
/// `home`, and each reference to a variable becomes the variable's text.
///
/// A reference is `$name`, `${name}` or `${name:-default}`, where the default
/// names a variable, with or without a `$` before it. A reference fails where
/// the variable is not set and no default helps, or where data that is not
/// Unicode comes into play. The first reference that fails, going from left
/// to right, is the error.
pub fn expand_env_in_path(path: &str, vars: &Variables, home: &str) -> (made: Result<
    String,
    Error,
>)
    ensures
        match made {
            Ok(text) => expanded(path@, vars@, home@) == Ok::<Seq<char>, Failure>(text@),
            Err(error) => expanded(path@, vars@, home@) == Err::<Seq<char>, Failure>(error@),
        },
{
    let start = put_home(path, home);
    let text = start.as_str();
    let chars = chars_of(text);
    let n = chars.len();
    let mut out = String::new();
    let mut pos: usize = 0;
    assert(text@.skip(0) =~= text@);
    assert(behind(out@, expand_from(text@, vars@)) == expand_from(text@, vars@)) by {
        match expand_from(text@, vars@) {
            Ok(whole) => {
                assert(out@ + whole =~= whole);
            },
            Err(_) => {},
        }
    }
    loop
        invariant
            chars@ == text@,
            text@ == with_home(path@, home@),
            n == chars.len(),
            pos <= n,
            expand_from(text@, vars@) == behind(out@, expand_from(text@.skip(pos as int), vars@)),
        decreases n - pos,
    {
        let ghost s = text@.skip(pos as int);
        let ghost before = out@;
        let dollar = find_char(&chars, pos, '$');
        proof {
            lemma_first_index(s, '$');
        }
        out.append(text.substring_char(pos, dollar));
        assert(text@.subrange(pos as int, dollar as int) =~= s.take(dollar - pos));
        if dollar >= n {
            assert(s.take(dollar - pos) =~= s);
            assert(expand_from(s, vars@) == Ok::<Seq<char>, Failure>(s));
            return Ok(out);
        }
        assert(s.skip(dollar - pos) =~= text@.skip(dollar as int));
        match expand_reference(text, &chars, dollar, vars) {
            Err(error) => {
                return Err(error);
            },
            Ok((piece, used)) => {
                out.append(piece.as_str());
                proof {
                    let t = text@.skip(dollar as int);
                    assert(t.skip(used as int) =~= text@.skip(dollar + used));
                    let rest = expand_from(t.skip(used as int), vars@);
                    match rest {
                        Ok(tail) => {
                            assert(before + (s.take(dollar - pos) + piece@ + tail) =~= out@ + tail);
                        },
                        Err(_) => {},
                    }
                }
                pos = dollar + used;
            },
        }
    }
}

} // verus!
