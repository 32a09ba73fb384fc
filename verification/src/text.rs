//! Character-level helpers shared by the parsers of this crate.

use vstd::prelude::*;
use vstd::string::*;

verus! {

/// Position of the first `c` in `s`, or `s.len()` where `s` holds none.
pub open spec fn first_index(s: Seq<char>, c: char) -> int
    decreases s.len(),
{
    if s.len() == 0 || s[0] == c {
        0
    } else {
        1 + first_index(s.drop_first(), c)
    }
}

/// `first_index` lies within the text, skips no `c`, and stops on one.
pub proof fn lemma_first_index(s: Seq<char>, c: char)
    ensures
        0 <= first_index(s, c) <= s.len(),
        forall|j: int| 0 <= j < first_index(s, c) ==> s[j] != c,
        first_index(s, c) < s.len() ==> s[first_index(s, c)] == c,
    decreases s.len(),
{
    if s.len() == 0 || s[0] == c {
    } else {
        let t = s.drop_first();
        lemma_first_index(t, c);
        assert forall|j: int| 0 <= j < first_index(s, c) implies s[j] != c by {
            if j > 0 {
                assert(s[j] == t[j - 1]);
            }
        }
    }
}

/// A position that skips no `c` and stops on one, or at the end, is
/// `first_index`.
pub proof fn lemma_first_index_is(s: Seq<char>, c: char, k: int)
    requires
        0 <= k <= s.len(),
        forall|j: int| 0 <= j < k ==> s[j] != c,
        k < s.len() ==> s[k] == c,
    ensures
        first_index(s, c) == k,
    decreases s.len(),
{
    if s.len() == 0 || s[0] == c {
    } else {
        let t = s.drop_first();
        assert forall|j: int| 0 <= j < k - 1 implies t[j] != c by {
            assert(t[j] == s[j + 1]);
        }
        lemma_first_index_is(t, c, k - 1);
    }
}

/// The non-empty runs of characters that `sep` separates in `s`, in order.
pub open spec fn fields(s: Seq<char>, sep: char) -> Seq<Seq<char>>
    decreases s.len(),
{
    let k = first_index(s, sep);
    let rest = if 0 <= k < s.len() {
        fields(s.skip(k + 1), sep)
    } else {
        Seq::empty()
    };
    if k > 0 {
        seq![s.take(k)] + rest
    } else {
        rest
    }
}

/// The items of `s` without repetitions, each at its first occurrence.
pub open spec fn distinct<A>(s: Seq<A>) -> Seq<A>
    decreases s.len(),
{
    if s.len() == 0 {
        s
    } else {
        let d = distinct(s.drop_last());
        if d.contains(s.last()) {
            d
        } else {
            d.push(s.last())
        }
    }
}

/// `distinct` repeats nothing and holds exactly the items of its argument.
pub proof fn lemma_distinct<A>(s: Seq<A>)
    ensures
        distinct(s).no_duplicates(),
        distinct(s).len() <= s.len(),
        forall|x: A| distinct(s).contains(x) <==> s.contains(x),
    decreases s.len(),
{
    if s.len() > 0 {
        let r = s.drop_last();
        let d = distinct(r);
        let last = s.last();
        lemma_distinct(r);
        assert forall|x: A| s.contains(x) implies distinct(s).contains(x) by {
            let i = choose|i: int| 0 <= i < s.len() && s[i] == x;
            if i < s.len() - 1 {
                assert(r[i] == x);
                assert(r.contains(x));
                assert(d.contains(x));
                let j = choose|j: int| 0 <= j < d.len() && d[j] == x;
                if !d.contains(last) {
                    assert(d.push(last)[j] == x);
                }
            } else {
                assert(x == last);
                if !d.contains(last) {
                    assert(d.push(last)[d.len() as int] == x);
                }
            }
        }
        assert forall|x: A| distinct(s).contains(x) implies s.contains(x) by {
            let j = choose|j: int| 0 <= j < distinct(s).len() && distinct(s)[j] == x;
            if j < d.len() {
                assert(d[j] == x);
                assert(d.contains(x));
                assert(r.contains(x));
                let i = choose|i: int| 0 <= i < r.len() && r[i] == x;
                assert(s[i] == x);
            } else {
                assert(x == last);
                assert(s[s.len() - 1] == x);
            }
        }
    }
}

/// The characters of `s`, in order.
pub fn chars_of(s: &str) -> (out: Vec<char>)
    ensures
        out@ == s@,
{
    let mut out: Vec<char> = Vec::new();
    for c in it: s.chars()
        invariant
            it.seq() == s@,
            out@ =~= it.seq().take(it.index() as int),
    {
        out.push(c);
    }
    assert(out@ =~= s@);
    out
}

/// Whether `a` and `b` hold the same characters.
pub fn same_text(a: &str, b: &str) -> (same: bool)
    ensures
        same == (a@ == b@),
{
    let x = chars_of(a);
    let y = chars_of(b);
    if x.len() != y.len() {
        return false;
    }
    let mut i: usize = 0;
    while i < x.len()
        invariant
            x@ == a@,
            y@ == b@,
            x.len() == y.len(),
            i <= x.len(),
            forall|j: int| 0 <= j < i ==> x@[j] == y@[j],
        decreases x.len() - i,
    {
        if x[i] != y[i] {
            assert(a@[i as int] != b@[i as int]);
            return false;
        }
        i += 1;
    }
    assert(x@ =~= y@);
    true
}

/// Finds the first `c` at or after `from`.
pub fn find_char(text: &Vec<char>, from: usize, c: char) -> (at: usize)
    requires
        from <= text.len(),
    ensures
        from <= at <= text.len(),
        at == from + first_index(text@.skip(from as int), c),
{
    let mut at: usize = from;
    while at < text.len() && text[at] != c
        invariant
            from <= at <= text.len(),
            forall|j: int| from <= j < at ==> text@[j] != c,
        decreases text.len() - at,
    {
        at += 1;
    }
    proof {
        lemma_first_index_is(text@.skip(from as int), c, at - from);
    }
    at
}

/// A list of the same texts.
pub fn copy_names(names: &Vec<String>) -> (copy: Vec<String>)
    ensures
        copy.deep_view() == names.deep_view(),
{
    let mut copy: Vec<String> = Vec::new();
    let mut i: usize = 0;
    while i < names.len()
        invariant
            i <= names.len(),
            copy.len() == i,
            forall|j: int| 0 <= j < i ==> copy@[j]@ == names@[j]@,
        decreases names.len() - i,
    {
        copy.push(names[i].clone());
        i += 1;
    }
    assert(copy.deep_view() =~= names.deep_view());
    copy
}

/// Whether `names` holds `name`.
pub fn contains_name(names: &Vec<String>, name: &String) -> (found: bool)
    ensures
        found == names.deep_view().contains(name@),
{
    let mut i: usize = 0;
    while i < names.len()
        invariant
            i <= names.len(),
            forall|j: int| 0 <= j < i ==> names.deep_view()[j] != name@,
        decreases names.len() - i,
    {
        if names[i] == *name {
            assert(names.deep_view()[i as int] == name@);
            return true;
        }
        i += 1;
    }
    false
}

/// Splits `s` at each `sep` and drops the empty pieces.
pub fn split_fields(s: &str, sep: char) -> (out: Vec<String>)
    ensures
        out.deep_view() == fields(s@, sep),
{
    let chars = chars_of(s);
    let n = chars.len();
    let mut out: Vec<String> = Vec::new();
    let mut start: usize = 0;
    assert(s@.skip(0) =~= s@);
    assert(out.deep_view() + fields(s@, sep) =~= fields(s@, sep));
    while start < n
        invariant
            chars@ == s@,
            n == chars.len(),
            start <= n,
            fields(s@, sep) == out.deep_view() + fields(s@.skip(start as int), sep),
        decreases n - start,
    {
        let ghost rest = s@.skip(start as int);
        let ghost before = out.deep_view();
        let end = find_char(&chars, start, sep);
        if end > start {
            let piece = s.substring_char(start, end);
            out.push(String::from_str(piece));
            assert(rest.take(end - start) =~= s@.subrange(start as int, end as int));
            assert(out.deep_view() =~= before + seq![rest.take(end - start)]);
        }
        let next = if end < n { end + 1 } else { n };
        proof {
            if end < n {
                assert(rest.skip(end - start + 1) =~= s@.skip(next as int));
            } else {
                assert(s@.skip(n as int).len() == 0);
            }
            let tail = fields(s@.skip(next as int), sep);
            assert(fields(rest, sep) =~= (out.deep_view() + tail).skip(before.len() as int));
            assert(out.deep_view() + tail =~= before + fields(rest, sep));
        }
        start = next;
    }
    assert(out.deep_view() + Seq::<Seq<char>>::empty() =~= out.deep_view());
    out
}

/// Drops from `names` each name that occurred before it.
pub fn dedup_names(names: &Vec<String>) -> (out: Vec<String>)
    ensures
        out.deep_view() == distinct(names.deep_view()),
{
    let mut out: Vec<String> = Vec::new();
    let mut i: usize = 0;
    assert(names.deep_view().take(0) =~= Seq::<Seq<char>>::empty());
    assert(out.deep_view() =~= Seq::<Seq<char>>::empty());
    while i < names.len()
        invariant
            i <= names.len(),
            out.deep_view() == distinct(names.deep_view().take(i as int)),
        decreases names.len() - i,
    {
        let ghost before = out.deep_view();
        let ghost prefix = names.deep_view().take(i as int + 1);
        assert(prefix.drop_last() =~= names.deep_view().take(i as int));
        assert(prefix.last() == names[i as int]@);
        if !contains_name(&out, &names[i]) {
            out.push(names[i].clone());
            assert(out.deep_view() =~= before.push(names[i as int]@));
        }
        i += 1;
    }
    assert(names.deep_view().take(i as int) =~= names.deep_view());
    out
}

/// What `char::is_whitespace` answers for `c`.
pub uninterp spec fn whitespace(c: char) -> bool;

/// Calls `char::is_whitespace`. The contract only gives the answer its name:
/// std decides by Unicode's White_Space property.
#[verifier::external_body]
fn is_whitespace(c: char) -> (answer: bool)
    ensures
        answer == whitespace(c),
{
    c.is_whitespace()
}

/// What `str::to_uppercase` returns for the text `s`.
pub uninterp spec fn uppercase(s: Seq<char>) -> Seq<char>;

/// Calls `str::to_uppercase`. The contract only gives the result its name:
/// std maps each character by Unicode's uppercase mapping, which may give
/// several characters for one.
#[verifier::external_body]
pub(crate) fn to_uppercase(s: &str) -> (upper: String)
    ensures
        upper@ == uppercase(s@),
{
    s.to_uppercase()
}

/// `s` without the whitespace at its start.
pub open spec fn trim_start(s: Seq<char>) -> Seq<char>
    decreases s.len(),
{
    if s.len() > 0 && whitespace(s[0]) {
        trim_start(s.drop_first())
    } else {
        s
    }
}

/// `s` without the whitespace at its end.
pub open spec fn trim_end(s: Seq<char>) -> Seq<char>
    decreases s.len(),
{
    if s.len() > 0 && whitespace(s.last()) {
        trim_end(s.drop_last())
    } else {
        s
    }
}

/// `s` without the whitespace at its start and at its end.
pub open spec fn trimmed(s: Seq<char>) -> Seq<char> {
    trim_end(trim_start(s))
}

/// Dropping `k` leading whitespace characters, where the next is none, is
/// `trim_start`.
proof fn lemma_trim_start_is(s: Seq<char>, k: int)
    requires
        0 <= k <= s.len(),
        forall|j: int| 0 <= j < k ==> whitespace(s[j]),
        k < s.len() ==> !whitespace(s[k]),
    ensures
        trim_start(s) == s.skip(k),
    decreases s.len(),
{
    if s.len() > 0 && whitespace(s[0]) {
        let t = s.drop_first();
        assert forall|j: int| 0 <= j < k - 1 implies whitespace(t[j]) by {
            assert(t[j] == s[j + 1]);
        }
        lemma_trim_start_is(t, k - 1);
        assert(t.skip(k - 1) =~= s.skip(k));
    } else {
        assert(s.skip(0) =~= s);
    }
}

/// Keeping the first `k` characters, where those behind are whitespace and
/// the last kept is none, is `trim_end`.
proof fn lemma_trim_end_is(s: Seq<char>, k: int)
    requires
        0 <= k <= s.len(),
        forall|j: int| k <= j < s.len() ==> whitespace(s[j]),
        k > 0 ==> !whitespace(s[k - 1]),
    ensures
        trim_end(s) == s.take(k),
    decreases s.len(),
{
    if s.len() > 0 && whitespace(s.last()) {
        let t = s.drop_last();
        lemma_trim_end_is(t, k);
        assert(t.take(k) =~= s.take(k));
    } else {
        assert(s.take(s.len() as int) =~= s);
    }
}

/// `s` without the whitespace at its start and at its end.
pub fn trim(s: &str) -> (inner: &str)
    ensures
        inner@ == trimmed(s@),
{
    let chars = chars_of(s);
    let n = chars.len();
    let mut from: usize = 0;
    while from < n && is_whitespace(chars[from])
        invariant
            from <= n,
            n == chars.len(),
            forall|j: int| 0 <= j < from ==> whitespace(chars@[j]),
        decreases n - from,
    {
        from += 1;
    }
    let mut to: usize = n;
    while to > from && is_whitespace(chars[to - 1])
        invariant
            from <= to <= n,
            n == chars.len(),
            forall|j: int| to <= j < n ==> whitespace(chars@[j]),
        decreases to,
    {
        to -= 1;
    }
    proof {
        lemma_trim_start_is(s@, from as int);
        lemma_trim_end_is(s@.skip(from as int), to - from);
        assert(s@.skip(from as int).take(to - from) =~= s@.subrange(from as int, to as int));
    }
    s.substring_char(from, to)
}

/// `s` without the whitespace at its end, as text of its own.
pub fn trim_end_of(s: &str) -> (inner: String)
    ensures
        inner@ == trim_end(s@),
        trim_end(inner@) == inner@,
{
    let chars = chars_of(s);
    let n = chars.len();
    let mut to: usize = n;
    while to > 0 && is_whitespace(chars[to - 1])
        invariant
            to <= n,
            n == chars.len(),
            forall|j: int| to <= j < n ==> whitespace(chars@[j]),
        decreases to,
    {
        to -= 1;
    }
    proof {
        lemma_trim_end_is(s@, to as int);
        assert(s@.subrange(0, to as int) =~= s@.take(to as int));
        lemma_trim_end_is(s@.take(to as int), to as int);
        assert(s@.take(to as int).take(to as int) =~= s@.take(to as int));
    }
    String::from_str(s.substring_char(0, to))
}

/// The texts of `parts`, with `sep` between each two.
pub open spec fn joined(parts: Seq<Seq<char>>, sep: Seq<char>) -> Seq<char>
    decreases parts.len(),
{
    if parts.len() == 0 {
        Seq::empty()
    } else if parts.len() == 1 {
        parts[0]
    } else {
        joined(parts.drop_last(), sep) + sep + parts.last()
    }
}

/// Writes the texts of `parts` one after the other, with `sep` between each
/// two.
pub fn join(parts: &Vec<String>, sep: &str) -> (out: String)
    ensures
        out@ == joined(parts.deep_view(), sep@),
{
    let mut out = String::new();
    let mut i: usize = 0;
    assert(parts.deep_view().take(0) =~= Seq::<Seq<char>>::empty());
    while i < parts.len()
        invariant
            i <= parts.len(),
            out@ == joined(parts.deep_view().take(i as int), sep@),
        decreases parts.len() - i,
    {
        let ghost prefix = parts.deep_view().take(i as int + 1);
        assert(prefix.drop_last() =~= parts.deep_view().take(i as int));
        assert(prefix.last() == parts[i as int]@);
        if i > 0 {
            out.append(sep);
        } else {
            assert(out@ + parts[i as int]@ =~= parts[i as int]@);
        }
        out.append(parts[i].as_str());
        i += 1;
    }
    assert(parts.deep_view().take(i as int) =~= parts.deep_view());
    out
}

/// Whether `s` ends with `suffix`.
pub open spec fn ends_with(s: Seq<char>, suffix: Seq<char>) -> bool {
    suffix.len() <= s.len() && s.skip(s.len() - suffix.len()) == suffix
}

/// Whether `s` begins with `prefix`.
pub open spec fn starts_with(s: Seq<char>, prefix: Seq<char>) -> bool {
    prefix.len() <= s.len() && s.take(prefix.len() as int) == prefix
}

/// Whether `text` holds `part` from position `at` on.
fn holds_at(text: &Vec<char>, at: usize, part: &Vec<char>) -> (held: bool)
    requires
        at <= text.len(),
    ensures
        held == (part.len() <= text.len() - at && text@.subrange(at as int, at + part.len())
            == part@),
{
    if part.len() > text.len() - at {
        return false;
    }
    let mut i: usize = 0;
    while i < part.len()
        invariant
            at + part.len() <= text.len(),
            i <= part.len(),
            forall|j: int| 0 <= j < i ==> text@[at + j] == part@[j],
        decreases part.len() - i,
    {
        if text[at + i] != part[i] {
            assert(text@.subrange(at as int, at + part.len())[i as int] != part@[i as int]);
            return false;
        }
        i += 1;
    }
    assert(text@.subrange(at as int, at + part.len()) =~= part@);
    true
}

/// Whether `s` begins with `prefix`.
pub fn has_prefix(s: &str, prefix: &str) -> (held: bool)
    ensures
        held == starts_with(s@, prefix@),
{
    let text = chars_of(s);
    let part = chars_of(prefix);
    assert(text@.subrange(0, part.len() as int) =~= text@.take(part.len() as int));
    holds_at(&text, 0, &part)
}

/// Whether `s` ends with `suffix`.
pub fn has_suffix(s: &str, suffix: &str) -> (held: bool)
    ensures
        held == ends_with(s@, suffix@),
{
    let text = chars_of(s);
    let part = chars_of(suffix);
    if part.len() > text.len() {
        return false;
    }
    let at = text.len() - part.len();
    assert(text@.subrange(at as int, at + part.len()) =~= text@.skip(at as int));
    holds_at(&text, at, &part)
}

/// Whether `part` occurs in `s`.
pub open spec fn occurs(s: Seq<char>, part: Seq<char>) -> bool {
    exists|i: int| 0 <= i <= s.len() - part.len() && #[trigger] s.subrange(i, i + part.len()) == part
}

/// Whether `part` occurs in `s`.
pub fn contains_text(s: &str, part: &str) -> (found: bool)
    ensures
        found == occurs(s@, part@),
{
    let text = chars_of(s);
    let wanted = chars_of(part);
    if wanted.len() > text.len() {
        return false;
    }
    let last = text.len() - wanted.len();
    let mut i: usize = 0;
    loop
        invariant
            i <= last,
            last == text.len() - wanted.len(),
            text@ == s@,
            wanted@ == part@,
            forall|j: int| 0 <= j < i ==> #[trigger] text@.subrange(j, j + wanted.len()) != wanted@,
        decreases last - i,
    {
        if holds_at(&text, i, &wanted) {
            return true;
        }
        if i == last {
            return false;
        }
        i += 1;
    }
}

/// `s` without `suffix` at its end, as often as it stands there.
pub open spec fn without_suffixes(s: Seq<char>, suffix: Seq<char>) -> Seq<char>
    decreases s.len(),
{
    if suffix.len() > 0 && ends_with(s, suffix) {
        without_suffixes(s.take(s.len() - suffix.len()), suffix)
    } else {
        s
    }
}

/// `s` without `suffix` at its end, as often as it stands there.
pub fn trim_suffixes<'a>(s: &'a str, suffix: &str) -> (inner: &'a str)
    ensures
        inner@ == without_suffixes(s@, suffix@),
{
    let text = chars_of(s);
    let part = chars_of(suffix);
    let mut end: usize = text.len();
    if part.len() == 0 {
        assert(s@.take(end as int) =~= s@);
        return s;
    }
    assert(s@.take(end as int) =~= s@);
    while end >= part.len() && holds_at(&text, end - part.len(), &part)
        invariant
            end <= text.len(),
            part.len() > 0,
            text@ == s@,
            part@ == suffix@,
            without_suffixes(s@, suffix@) == without_suffixes(s@.take(end as int), suffix@),
        decreases end,
    {
        let ghost kept = s@.take(end as int);
        assert(kept.skip(kept.len() - part.len()) =~= text@.subrange(
            end - part.len(),
            end - part.len() + part.len(),
        ));
        assert(kept.take(kept.len() - part.len()) =~= s@.take(end - part.len()));
        end -= part.len();
    }
    proof {
        let kept = s@.take(end as int);
        if end >= part.len() {
            assert(kept.skip(kept.len() - part.len()) =~= text@.subrange(
                end - part.len(),
                end - part.len() + part.len(),
            ));
        }
        assert(s@.subrange(0, end as int) =~= kept);
    }
    s.substring_char(0, end)
}

/// The lines of `text`, as `str::lines` gives them.
pub uninterp spec fn lines(text: Seq<char>) -> Seq<Seq<char>>;

/// Calls `str::lines` and collects the lines. The contract only gives the
/// result its name: std ends a line at `\n` or `\r\n`, hands the lines out
/// without these, and takes a last line with or without an ending.
#[verifier::external_body]
pub(crate) fn lines_of(text: &str) -> (out: Vec<String>)
    ensures
        out.deep_view() == lines(text@),
{
    text.lines().map(|line| line.to_owned()).collect()
}

} // verus!
