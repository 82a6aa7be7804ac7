//! The version normalizer: from the raw text of a page element to a canonical
//! version token.
//!
//! The text is lower-cased, the package name is removed from it, what is left
//! is trimmed, underscores become hyphens, one leading `v` and then one
//! leading `-` are dropped, and the first dotted run of digits is the version.

use vstd::prelude::*;
use vstd::utf8::is_ascii_chars;
use crate::error::{result_view, Error};
use crate::text::{
    ascii_lower, chars_of, is_space, lemma_remove_all_absent, lemma_remove_all_first, lemma_trim_tight,
    lower_cased, lowered, occurs_at, occurs_in, remove_all, replace_char, replaced, slice_of,
    string_of,
    strip_leading, trim, trim_end, trim_start, trimmed, without, without_leading,
};

verus! {

/// Whether `c` is one of the digits `0` to `9`.
pub open spec fn is_digit(c: char) -> bool {
    0x30 <= c as u32 <= 0x39
}

/// The index of the first digit of `s` at or after `from`; the length of `s`
/// if there is none.
pub open spec fn next_digit(s: Seq<char>, from: int) -> int
    decreases s.len() - from,
{
    if from < 0 || from >= s.len() {
        s.len() as int
    } else if is_digit(s[from]) {
        from
    } else {
        next_digit(s, from + 1)
    }
}

/// The index at which the run of digits that starts at `from` ends.
pub open spec fn digits_end(s: Seq<char>, from: int) -> int
    decreases s.len() - from,
{
    if 0 <= from < s.len() && is_digit(s[from]) {
        digits_end(s, from + 1)
    } else {
        from
    }
}

/// The index at which the dotted run of digits that starts at `from` ends: a
/// group of digits, then as many times as possible a dot that a digit
/// follows and the group of digits there.
pub open spec fn token_end(s: Seq<char>, from: int) -> int
    decreases s.len() - from,
{
    let e = digits_end(s, from);
    if from < e && e + 1 < s.len() && s[e] == '.' && is_digit(s[e + 1]) {
        token_end(s, e + 1)
    } else {
        e
    }
}

/// The first dotted run of digits in `s`, if `s` holds a digit.
pub open spec fn version_token(s: Seq<char>) -> Option<Seq<char>> {
    let start = next_digit(s, 0);
    if start < s.len() {
        Some(s.subrange(start, token_end(s, start)))
    } else {
        None
    }
}

/// Whether `t` is a canonical version: groups of digits with single dots
/// between them.
pub open spec fn is_version_token(t: Seq<char>) -> bool {
    &&& t.len() > 0
    &&& is_digit(t[0])
    &&& is_digit(t.last())
    &&& forall|i: int| 0 <= i < t.len() ==> is_digit(#[trigger] t[i]) || t[i] == '.'
    &&& forall|i: int| 0 <= i < t.len() - 1 && #[trigger] t[i] == '.' ==> t[i + 1] != '.'
}

/// Text whose package name is gone, tidied: trimmed, underscores turned to
/// hyphens, one leading `v` and then one leading `-` dropped.
pub open spec fn tidied(bare: Seq<char>) -> Seq<char> {
    let hyphenated = replace_char(trim(bare), '_', '-');
    strip_leading(strip_leading(hyphenated, 'v'), '-')
}

/// What is left of lower-cased text once the lower-cased package name is
/// removed and the rest is tidied.
pub open spec fn cleaned(lowered: Seq<char>, name: Seq<char>) -> Seq<char> {
    tidied(remove_all(lowered, name))
}

/// The first dotted run of digits in `s`, or the failure to find one.
pub open spec fn version_in(s: Seq<char>) -> Result<Seq<char>, Error> {
    match version_token(s) {
        Some(t) => Ok(t),
        None => Err(Error::VersionNotFound),
    }
}

/// The canonical version in lower-cased text, for a lower-cased package name.
pub open spec fn canonical(lowered: Seq<char>, name: Seq<char>) -> Result<Seq<char>, Error> {
    version_in(cleaned(lowered, name))
}

/// The canonical version in raw text, for a package name.
pub open spec fn normalized(raw: Seq<char>, name: Seq<char>) -> Result<Seq<char>, Error> {
    canonical(lowered(raw), lowered(name))
}

/// Whether `c` is one of the digits `0` to `9`.
pub fn is_ascii_digit(c: char) -> (b: bool)
    ensures
        b == is_digit(c),
{
    let n: u32 = c as u32;
    0x30 <= n && n <= 0x39
}

/// Where the first dotted run of digits in `v` starts and ends.
pub fn find_version_token(v: &Vec<char>) -> (r: Option<(usize, usize)>)
    ensures
        match r {
            Some((start, end)) => start < end <= v.len() && start == next_digit(v@, 0) && end
                == token_end(v@, start as int),
            None => next_digit(v@, 0) == v.len(),
        },
{
    let n = v.len();
    let mut start: usize = 0;
    while start < n && !is_ascii_digit(v[start])
        invariant
            start <= n == v.len(),
            next_digit(v@, 0) == next_digit(v@, start as int),
        decreases n - start,
    {
        start += 1;
    }
    if start == n {
        return None;
    }
    let mut group: usize = start;
    let mut end: usize = start;
    loop
        invariant_except_break
            start <= group < n == v.len(),
            is_digit(v@[group as int]),
            token_end(v@, start as int) == token_end(v@, group as int),
        ensures
            start < end <= n,
            end == token_end(v@, start as int),
        decreases n - group,
    {
        end = group;
        while end < n && is_ascii_digit(v[end])
            invariant
                group <= end <= n == v.len(),
                is_digit(v@[group as int]),
                end == group ==> group < n,
                digits_end(v@, group as int) == digits_end(v@, end as int),
            decreases n - end,
        {
            end += 1;
        }
        if n - end > 1 && v[end] == '.' && is_ascii_digit(v[end + 1]) {
            group = end + 1;
        } else {
            break;
        }
    }
    Some((start, end))
}

/// The canonical version in lower-cased text, for a lower-cased package
/// name; `VersionNotFound` if the text, cleaned, holds no digit.
pub fn canonical_version(lowered: &str, name: &str) -> (r: Result<String, Error>)
    ensures
        result_view(r) == canonical(lowered@, name@),
        r matches Ok(version) ==> is_version_token(version@),
        r matches Err(e) ==> e == Error::VersionNotFound,
{
    proof {
        law_version_token_shape(cleaned(lowered@, name@));
    }
    let text = chars_of(lowered);
    let pattern = chars_of(name);
    let bare = trimmed(&without(&text, &pattern));
    let hyphenated = replaced(&bare, '_', '-');
    let unprefixed = without_leading(&without_leading(&hyphenated, 'v'), '-');
    match find_version_token(&unprefixed) {
        Some((start, end)) => Ok(string_of(&slice_of(&unprefixed, start, end))),
        None => Err(Error::VersionNotFound),
    }
}

/// The canonical version in the raw text of a page element, for a package
/// name; `VersionNotFound` if there is none.  Both are lower-cased first.
pub fn normalize(raw: &str, package_name: &str) -> (r: Result<String, Error>)
    ensures
        result_view(r) == normalized(raw@, package_name@),
        r matches Ok(version) ==> is_version_token(version@),
        r matches Err(e) ==> e == Error::VersionNotFound,
{
    let text = lower_cased(raw);
    let name = lower_cased(package_name);
    canonical_version(text.as_str(), name.as_str())
}

/// The run of digits that starts at `from` holds digits only and cannot be
/// extended.
pub proof fn lemma_digits_end(s: Seq<char>, from: int)
    requires
        0 <= from <= s.len(),
    ensures
        from <= digits_end(s, from) <= s.len(),
        forall|i: int| from <= i < digits_end(s, from) ==> is_digit(#[trigger] s[i]),
        digits_end(s, from) < s.len() ==> !is_digit(s[digits_end(s, from)]),
        from < s.len() && is_digit(s[from]) ==> from < digits_end(s, from),
    decreases s.len() - from,
{
    if from < s.len() && is_digit(s[from]) {
        lemma_digits_end(s, from + 1);
    }
}

/// No digit stands before the index that `next_digit` gives, and one stands
/// at it unless it is the length.
pub proof fn lemma_next_digit(s: Seq<char>, from: int)
    requires
        0 <= from <= s.len(),
    ensures
        from <= next_digit(s, from) <= s.len(),
        forall|i: int| from <= i < next_digit(s, from) ==> !is_digit(#[trigger] s[i]),
        next_digit(s, from) < s.len() ==> is_digit(s[next_digit(s, from)]),
    decreases s.len() - from,
{
    if from < s.len() && !is_digit(s[from]) {
        lemma_next_digit(s, from + 1);
    }
}

/// The dotted run of digits that starts at a digit is a canonical version,
/// and it cannot be extended: neither a digit follows it, nor a dot with a
/// digit behind it.
pub proof fn lemma_token_end(s: Seq<char>, from: int)
    requires
        0 <= from < s.len(),
        is_digit(s[from]),
    ensures
        from < token_end(s, from) <= s.len(),
        is_version_token(s.subrange(from, token_end(s, from))),
        token_end(s, from) < s.len() ==> !is_digit(s[token_end(s, from)]),
        token_end(s, from) + 1 < s.len() && s[token_end(s, from)] == '.' ==> !is_digit(
            s[token_end(s, from) + 1],
        ),
    decreases s.len() - from,
{
    lemma_digits_end(s, from);
    let e = digits_end(s, from);
    if e + 1 < s.len() && s[e] == '.' && is_digit(s[e + 1]) {
        lemma_token_end(s, e + 1);
        let end = token_end(s, e + 1);
        let t = s.subrange(from, end);
        let u = s.subrange(e + 1, end);
        assert forall|i: int| 0 <= i < t.len() implies is_digit(#[trigger] t[i]) || t[i]
            == '.' by {
            if i > e - from {
                assert(t[i] == u[i - (e + 1 - from)]);
            }
        }
        assert forall|i: int| 0 <= i < t.len() - 1 && #[trigger] t[i] == '.' implies t[i + 1]
            != '.' by {
            if i > e - from {
                assert(t[i] == u[i - (e + 1 - from)]);
                assert(t[i + 1] == u[i + 1 - (e + 1 - from)]);
            }
        }
        assert(t.last() == u.last());
    }
}

/// A text has a version exactly if it holds a digit.  The version starts at
/// the first digit, is canonical, and is the longest dotted run of digits
/// that starts there.
pub proof fn law_version_token_shape(s: Seq<char>)
    ensures
        version_token(s) is None <==> forall|i: int| 0 <= i < s.len() ==> !is_digit(s[i]),
        version_token(s) matches Some(t) ==> {
            let start = next_digit(s, 0);
            let end = start + t.len();
            &&& is_version_token(t)
            &&& 0 <= start < end <= s.len()
            &&& t == s.subrange(start, end)
            &&& forall|i: int| 0 <= i < start ==> !is_digit(s[i])
            &&& end < s.len() ==> !is_digit(s[end])
            &&& end + 1 < s.len() && s[end] == '.' ==> !is_digit(s[end + 1])
        },
{
    lemma_next_digit(s, 0);
    let start = next_digit(s, 0);
    if start < s.len() {
        lemma_token_end(s, start);
    }
}

/// In a canonical version the dotted run that starts at any group of digits
/// reaches the end.
proof fn lemma_token_end_of_token(t: Seq<char>, group: int)
    requires
        is_version_token(t),
        0 <= group < t.len(),
        is_digit(t[group]),
    ensures
        token_end(t, group) == t.len(),
    decreases t.len() - group,
{
    lemma_digits_end(t, group);
    let e = digits_end(t, group);
    if e < t.len() {
        assert(t[e] == '.');
        assert(e + 1 < t.len());
        assert(t[e + 1] != '.');
        lemma_token_end_of_token(t, e + 1);
    }
}

/// A canonical version is the version found in it.
pub proof fn law_version_of_token(t: Seq<char>)
    requires
        is_version_token(t),
    ensures
        version_token(t) == Some(t),
{
    lemma_token_end_of_token(t, 0);
    assert(t.subrange(0, t.len() as int) == t);
}

/// Normalization is idempotent: a canonical version in which the package
/// name does not occur is its own canonical version.
pub proof fn law_canonical_is_fixed(version: Seq<char>, name: Seq<char>)
    requires
        is_version_token(version),
        !occurs_in(version, name) || name.len() == 0,
    ensures
        canonical(version, name) == Ok::<Seq<char>, Error>(version),
{
    if name.len() > 0 {
        lemma_remove_all_absent(version, name);
    }
    lemma_trim_tight(version);
    assert(replace_char(version, '_', '-') == version);
    law_version_of_token(version);
}

/// Whatever normalization yields is canonical, and normalizing it again,
/// for a package name that does not occur in it, yields it again.
pub proof fn law_canonical_is_idempotent(lowered: Seq<char>, name: Seq<char>, other: Seq<char>)
    requires
        canonical(lowered, name) is Ok,
        !occurs_in(canonical(lowered, name)->Ok_0, other) || other.len() == 0,
    ensures
        is_version_token(canonical(lowered, name)->Ok_0),
        canonical(canonical(lowered, name)->Ok_0, other) == canonical(lowered, name),
{
    law_version_token_shape(cleaned(lowered, name));
    law_canonical_is_fixed(canonical(lowered, name)->Ok_0, other);
}

/// The package name is removed before anything else is done: the text up to
/// the name's first occurrence and the text behind it, with the further
/// occurrences removed, are joined, and the version is sought in the result.
pub proof fn law_name_removed_first(lowered: Seq<char>, name: Seq<char>, at: int)
    requires
        name.len() > 0,
        occurs_at(lowered, at, name),
        forall|j: int| 0 <= j < at ==> !occurs_at(lowered, j, name),
    ensures
        canonical(lowered, name) == version_in(
            tidied(
                lowered.subrange(0, at) + remove_all(
                    lowered.subrange(at + name.len(), lowered.len() as int),
                    name,
                ),
            ),
        ),
{
    lemma_remove_all_first(lowered, name, at);
}

/// A package name in front of the text is dropped: the version is that of
/// the rest.
pub proof fn law_leading_name_dropped(name: Seq<char>, rest: Seq<char>)
    requires
        name.len() > 0,
    ensures
        canonical(name + rest, name) == canonical(rest, name),
{
    let s = name + rest;
    assert(s.subrange(0, name.len() as int) == name);
    assert(s.subrange(name.len() as int, s.len() as int) == rest);
}

/// Where no digit stands from `from` up to `to`, the search for the next
/// digit may as well start at `to`.
proof fn lemma_next_digit_skips(s: Seq<char>, from: int, to: int)
    requires
        0 <= from <= to <= s.len(),
        forall|j: int| from <= j < to ==> !is_digit(#[trigger] s[j]),
    ensures
        next_digit(s, from) == next_digit(s, to),
    decreases to - from,
{
    if from < to {
        lemma_next_digit_skips(s, from + 1, to);
    }
}

/// Digits, runs and tokens are found in a text's tail where they are found
/// in the text.
proof fn lemma_scan_of_tail(s: Seq<char>, cut: int, i: int)
    requires
        0 <= cut <= i <= s.len(),
    ensures
        next_digit(s.subrange(cut, s.len() as int), i - cut) == next_digit(s, i) - cut,
        digits_end(s.subrange(cut, s.len() as int), i - cut) == digits_end(s, i) - cut,
        token_end(s.subrange(cut, s.len() as int), i - cut) == token_end(s, i) - cut,
    decreases s.len() - i,
{
    let t = s.subrange(cut, s.len() as int);
    if i < s.len() {
        assert(t[i - cut] == s[i]);
        lemma_scan_of_tail(s, cut, i + 1);
        lemma_digits_end(s, i);
        let e = digits_end(s, i);
        if i < e && e + 1 < s.len() {
            assert(t[e - cut] == s[e]);
            assert(t[e + 1 - cut] == s[e + 1]);
            lemma_scan_of_tail(s, cut, e + 1);
        }
    }
}

/// Digits, runs and tokens are found in a text's head where they are found
/// in the text, if no digit stands behind the head.
proof fn lemma_scan_of_head(s: Seq<char>, cut: int, i: int)
    requires
        0 <= i <= cut <= s.len(),
        forall|j: int| cut <= j < s.len() ==> !is_digit(#[trigger] s[j]),
    ensures
        next_digit(s, i) < s.len() ==> next_digit(s.subrange(0, cut), i) == next_digit(s, i),
        next_digit(s, i) >= s.len() ==> next_digit(s.subrange(0, cut), i) == cut,
        digits_end(s.subrange(0, cut), i) == digits_end(s, i),
        token_end(s.subrange(0, cut), i) == token_end(s, i),
    decreases cut - i,
{
    let h = s.subrange(0, cut);
    if i < cut {
        assert(h[i] == s[i]);
        lemma_scan_of_head(s, cut, i + 1);
        lemma_digits_end(s, i);
        lemma_digits_end(h, i);
        let e = digits_end(s, i);
        if i < e && e + 1 < cut {
            assert(h[e] == s[e]);
            assert(h[e + 1] == s[e + 1]);
            lemma_scan_of_head(s, cut, e + 1);
        }
    } else {
        lemma_next_digit_skips(s, cut, s.len() as int);
    }
}

/// Text in front of the first digit has no part in the version.
pub proof fn lemma_version_of_tail(s: Seq<char>, cut: int)
    requires
        0 <= cut <= s.len(),
        forall|j: int| 0 <= j < cut ==> !is_digit(#[trigger] s[j]),
    ensures
        version_token(s.subrange(cut, s.len() as int)) == version_token(s),
{
    let t = s.subrange(cut, s.len() as int);
    lemma_next_digit_skips(s, 0, cut);
    lemma_scan_of_tail(s, cut, cut);
    lemma_next_digit(s, cut);
    let start = next_digit(s, 0);
    if start < s.len() {
        lemma_scan_of_tail(s, cut, start);
        lemma_token_end(s, start);
        assert(t.subrange(start - cut, token_end(s, start) - cut) == s.subrange(
            start,
            token_end(s, start),
        ));
    }
}

/// Text without digits behind the last digit has no part in the version.
pub proof fn lemma_version_of_head(s: Seq<char>, cut: int)
    requires
        0 <= cut <= s.len(),
        forall|j: int| cut <= j < s.len() ==> !is_digit(#[trigger] s[j]),
    ensures
        version_token(s.subrange(0, cut)) == version_token(s),
{
    let h = s.subrange(0, cut);
    lemma_scan_of_head(s, cut, 0);
    lemma_next_digit(s, 0);
    let start = next_digit(s, 0);
    if start < s.len() {
        assert(start < cut);
        lemma_scan_of_head(s, cut, start);
        lemma_token_end(h, start);
        assert(h.subrange(start, token_end(s, start)) == s.subrange(start, token_end(s, start)));
    }
}

/// Digits, runs and tokens are found in a text where they are found in the
/// same text with one character that is neither digit nor dot replaced by
/// another such character.
proof fn lemma_scan_of_replaced(s: Seq<char>, from: char, to: char, i: int)
    requires
        0 <= i <= s.len(),
        !is_digit(from) && from != '.',
        !is_digit(to) && to != '.',
    ensures
        next_digit(replace_char(s, from, to), i) == next_digit(s, i),
        digits_end(replace_char(s, from, to), i) == digits_end(s, i),
        token_end(replace_char(s, from, to), i) == token_end(s, i),
    decreases s.len() - i,
{
    let r = replace_char(s, from, to);
    if i < s.len() {
        lemma_scan_of_replaced(s, from, to, i + 1);
        lemma_digits_end(s, i);
        let e = digits_end(s, i);
        if i < e && e + 1 < s.len() {
            lemma_scan_of_replaced(s, from, to, e + 1);
        }
    }
}

/// Replacing a character that is neither digit nor dot by another such
/// character leaves the version as it is.
pub proof fn lemma_version_of_replaced(s: Seq<char>, from: char, to: char)
    requires
        !is_digit(from) && from != '.',
        !is_digit(to) && to != '.',
    ensures
        version_token(replace_char(s, from, to)) == version_token(s),
{
    let r = replace_char(s, from, to);
    lemma_scan_of_replaced(s, from, to, 0);
    lemma_next_digit(s, 0);
    let start = next_digit(s, 0);
    if start < s.len() {
        lemma_scan_of_replaced(s, from, to, start);
        lemma_token_end(s, start);
        let end = token_end(s, start);
        let t = s.subrange(start, end);
        assert forall|i: int| 0 <= i < t.len() implies r.subrange(start, end)[i] == t[i] by {
            assert(is_digit(t[i]) || t[i] == '.');
        }
        assert(r.subrange(start, end) == t);
    }
}

/// Trimming at the start cuts off white space and nothing else.
proof fn lemma_trim_start_cut(s: Seq<char>) -> (cut: int)
    ensures
        0 <= cut <= s.len(),
        trim_start(s) == s.subrange(cut, s.len() as int),
        forall|j: int| 0 <= j < cut ==> is_space(#[trigger] s[j]),
    decreases s.len(),
{
    if s.len() > 0 && is_space(s[0]) {
        let rest = s.drop_first();
        let inner = lemma_trim_start_cut(rest);
        assert(rest.subrange(inner, rest.len() as int) == s.subrange(inner + 1, s.len() as int));
        assert forall|j: int| 0 <= j < inner + 1 implies is_space(#[trigger] s[j]) by {
            if j > 0 {
                assert(s[j] == rest[j - 1]);
            }
        }
        inner + 1
    } else {
        assert(s.subrange(0, s.len() as int) == s);
        0
    }
}

/// Trimming at the end cuts off white space and nothing else.
proof fn lemma_trim_end_cut(s: Seq<char>) -> (cut: int)
    ensures
        0 <= cut <= s.len(),
        trim_end(s) == s.subrange(0, cut),
        forall|j: int| cut <= j < s.len() ==> is_space(#[trigger] s[j]),
    decreases s.len(),
{
    if s.len() > 0 && is_space(s.last()) {
        let rest = s.drop_last();
        let inner = lemma_trim_end_cut(rest);
        assert(rest.subrange(0, inner) == s.subrange(0, inner));
        assert forall|j: int| inner <= j < s.len() implies is_space(#[trigger] s[j]) by {
            if j < s.len() - 1 {
                assert(s[j] == rest[j]);
            }
        }
        inner
    } else {
        assert(s.subrange(0, s.len() as int) == s);
        s.len() as int
    }
}

/// Dropping a leading character that is no digit leaves the version as it
/// is.
proof fn lemma_version_of_stripped(s: Seq<char>, c: char)
    requires
        !is_digit(c),
    ensures
        version_token(strip_leading(s, c)) == version_token(s),
{
    if s.len() > 0 && s[0] == c {
        assert(s.drop_first() == s.subrange(1, s.len() as int));
        lemma_version_of_tail(s, 1);
    }
}

/// Tidying does not reach the version: the version in tidied text is the
/// version in the text as it was.
pub proof fn law_tidying_keeps_version(bare: Seq<char>)
    ensures
        version_token(tidied(bare)) == version_token(bare),
{
    let front = lemma_trim_start_cut(bare);
    lemma_version_of_tail(bare, front);
    let started = trim_start(bare);
    let back = lemma_trim_end_cut(started);
    lemma_version_of_head(started, back);
    let hyphenated = replace_char(trim(bare), '_', '-');
    lemma_version_of_replaced(trim(bare), '_', '-');
    lemma_version_of_stripped(hyphenated, 'v');
    lemma_version_of_stripped(strip_leading(hyphenated, 'v'), '-');
}

/// The canonical version is the first dotted run of digits in what is left
/// of the lower-cased text when the lower-cased package name is removed.
pub proof fn law_version_follows_name_removal(lowered: Seq<char>, name: Seq<char>)
    ensures
        canonical(lowered, name) == version_in(remove_all(lowered, name)),
{
    law_tidying_keeps_version(remove_all(lowered, name));
}

/// A digit or a dot is an ASCII character that lower-casing leaves as it
/// is.
proof fn lemma_digit_or_dot_is_lowered(c: char)
    requires
        is_digit(c) || c == '.',
    ensures
        '\0' <= c <= '\u{7f}',
        ascii_lower(c) == c,
{
}

/// A canonical version is in lower case already.
pub proof fn lemma_token_is_lowered(version: Seq<char>)
    requires
        is_version_token(version),
    ensures
        lowered(version) == version,
{
    assert forall|i: int| 0 <= i < version.len() implies '\0' <= #[trigger] version[i]
        <= '\u{7f}' && ascii_lower(version[i]) == version[i] by {
        lemma_digit_or_dot_is_lowered(version[i]);
    }
    assert(is_ascii_chars(version));
    assert(lowered(version) =~= version);
}

/// Normalization is idempotent on raw text too: a canonical version in
/// which the lower-cased package name does not occur is its own canonical
/// version.
pub proof fn law_normalized_is_fixed(version: Seq<char>, name: Seq<char>)
    requires
        is_version_token(version),
        !occurs_in(version, lowered(name)) || lowered(name).len() == 0,
    ensures
        normalized(version, name) == Ok::<Seq<char>, Error>(version),
{
    lemma_token_is_lowered(version);
    law_canonical_is_fixed(version, lowered(name));
}

/// Whatever normalization yields from raw text is canonical, and
/// normalizing it again, for a package name whose lower-cased form does not
/// occur in it, yields it again.
pub proof fn law_normalized_is_idempotent(raw: Seq<char>, name: Seq<char>, other: Seq<char>)
    requires
        normalized(raw, name) is Ok,
        !occurs_in(normalized(raw, name)->Ok_0, lowered(other)) || lowered(other).len() == 0,
    ensures
        is_version_token(normalized(raw, name)->Ok_0),
        normalized(normalized(raw, name)->Ok_0, other) == normalized(raw, name),
{
    law_version_token_shape(cleaned(lowered(raw), lowered(name)));
    law_normalized_is_fixed(normalized(raw, name)->Ok_0, other);
}

} // verus!
