//! Character sequences: the plain-value model of every string in this crate,
//! and the executable operations on `Vec<char>` that the other modules share.
//!
//! A string is modelled by its view, a `Seq<char>`.  Each operation has a
//! spec function that says what it yields and an executable function proved
//! to compute exactly that.

use vstd::prelude::*;
use vstd::utf8::is_ascii_chars;

verus! {

/// `String::push` of the standard library: the string afterwards is the
/// string before with `ch` appended.
pub assume_specification[ String::push ](s: &mut String, ch: char)
    ensures
        final(s)@ == old(s)@.push(ch),
;

/// The result of `str::to_lowercase` on a string with these characters.
/// It follows Unicode's case mappings, which are not written out here.  The
/// library asks for it only where the text holds a character beyond ASCII.
pub uninterp spec fn lowercase_of(s: Seq<char>) -> Seq<char>;

/// `str::to_lowercase` of the standard library.  The contract only names the
/// result: equal inputs give equal outputs.
pub assume_specification[ str::to_lowercase ](s: &str) -> (r: String)
    ensures
        r@ == lowercase_of(s@),
;

/// The lower-case letter for an upper-case letter of `A` to `Z`; any other
/// character as it is.
pub open spec fn ascii_lower(c: char) -> char {
    if 0x41 <= c as u32 <= 0x5A {
        ((c as u8 + 0x20) as u8) as char
    } else {
        c
    }
}

/// Text in lower case.  In text of ASCII characters only, each letter of
/// `A` to `Z` becomes its lower-case letter and nothing else changes.  Any
/// other text is lower-cased by Unicode's rules.
pub open spec fn lowered(s: Seq<char>) -> Seq<char> {
    if is_ascii_chars(s) {
        Seq::new(s.len(), |i: int| ascii_lower(s[i]))
    } else {
        lowercase_of(s)
    }
}

/// The view of an optional string.
pub open spec fn option_view(o: Option<String>) -> Option<Seq<char>> {
    match o {
        Some(s) => Some(s@),
        None => None,
    }
}

/// Whether `c` has Unicode's `White_Space` property.
pub open spec fn is_space(c: char) -> bool {
    let n = c as u32;
    ||| 0x09 <= n <= 0x0D
    ||| n == 0x20
    ||| n == 0x85
    ||| n == 0xA0
    ||| n == 0x1680
    ||| 0x2000 <= n <= 0x200A
    ||| n == 0x2028
    ||| n == 0x2029
    ||| n == 0x202F
    ||| n == 0x205F
    ||| n == 0x3000
}

/// `s` without its leading white space.
pub open spec fn trim_start(s: Seq<char>) -> Seq<char>
    decreases s.len(),
{
    if s.len() > 0 && is_space(s[0]) {
        trim_start(s.drop_first())
    } else {
        s
    }
}

/// `s` without its trailing white space.
pub open spec fn trim_end(s: Seq<char>) -> Seq<char>
    decreases s.len(),
{
    if s.len() > 0 && is_space(s.last()) {
        trim_end(s.drop_last())
    } else {
        s
    }
}

/// `s` without its leading and trailing white space.
pub open spec fn trim(s: Seq<char>) -> Seq<char> {
    trim_end(trim_start(s))
}

/// Whether `pat` stands in `s` at index `i`.
pub open spec fn occurs_at(s: Seq<char>, i: int, pat: Seq<char>) -> bool {
    &&& 0 <= i
    &&& i + pat.len() <= s.len()
    &&& s.subrange(i, i + pat.len()) == pat
}

/// Whether `pat` stands anywhere in `s`.
pub open spec fn occurs_in(s: Seq<char>, pat: Seq<char>) -> bool {
    exists|i: int| occurs_at(s, i, pat)
}

/// Whether `i` is the least index at which `pat` stands in `s`.
pub open spec fn is_first_occurrence(s: Seq<char>, pat: Seq<char>, i: int) -> bool {
    &&& occurs_at(s, i, pat)
    &&& forall|j: int| 0 <= j < i ==> !occurs_at(s, j, pat)
}

/// The least index at which `pat` stands in `s`, if it stands anywhere.
pub open spec fn first_occurrence(s: Seq<char>, pat: Seq<char>) -> Option<int> {
    if exists|i: int| is_first_occurrence(s, pat, i) {
        Some(choose|i: int| is_first_occurrence(s, pat, i))
    } else {
        None
    }
}

/// `s` without the `c`s at its start.
pub open spec fn strip_all_start(s: Seq<char>, c: char) -> Seq<char>
    decreases s.len(),
{
    if s.len() > 0 && s[0] == c {
        strip_all_start(s.drop_first(), c)
    } else {
        s
    }
}

/// `s` without the `c`s at its end.
pub open spec fn strip_all_end(s: Seq<char>, c: char) -> Seq<char>
    decreases s.len(),
{
    if s.len() > 0 && s.last() == c {
        strip_all_end(s.drop_last(), c)
    } else {
        s
    }
}

/// `s` without the `c`s at its start and at its end.
pub open spec fn strip_all(s: Seq<char>, c: char) -> Seq<char> {
    strip_all_end(strip_all_start(s, c), c)
}

/// `s` with every occurrence of `pat` removed.  Occurrences are found from
/// left to right and do not overlap; what remains is not searched again.
/// An empty `pat` removes nothing.
pub open spec fn remove_all(s: Seq<char>, pat: Seq<char>) -> Seq<char>
    decreases s.len(),
{
    if pat.len() == 0 || s.len() < pat.len() {
        s
    } else if occurs_at(s, 0, pat) {
        remove_all(s.subrange(pat.len() as int, s.len() as int), pat)
    } else {
        seq![s[0]] + remove_all(s.drop_first(), pat)
    }
}

/// `s` with every `from` replaced by `to`.
pub open spec fn replace_char(s: Seq<char>, from: char, to: char) -> Seq<char> {
    Seq::new(s.len(), |i: int| if s[i] == from { to } else { s[i] })
}

/// `s` without its first character, if that character is `c`.
pub open spec fn strip_leading(s: Seq<char>, c: char) -> Seq<char> {
    if s.len() > 0 && s[0] == c {
        s.drop_first()
    } else {
        s
    }
}

/// `s` without its last character, if that character is `c`.
pub open spec fn strip_trailing(s: Seq<char>, c: char) -> Seq<char> {
    if s.len() > 0 && s.last() == c {
        s.drop_last()
    } else {
        s
    }
}

/// The characters of `s`, in order.
pub fn chars_of(s: &str) -> (v: Vec<char>)
    ensures
        v@ == s@,
{
    let mut v: Vec<char> = Vec::new();
    for c in it: s.chars()
        invariant
            v@ == it.seq().take(it.index()),
    {
        v.push(c);
    }
    v
}

/// The string made of the characters of `v`, in order.
pub fn string_of(v: &Vec<char>) -> (s: String)
    ensures
        s@ == v@,
{
    let mut s = String::new();
    let mut i: usize = 0;
    while i < v.len()
        invariant
            i <= v.len(),
            s@ == v@.take(i as int),
        decreases v.len() - i,
    {
        s.push(v[i]);
        i += 1;
    }
    s
}

/// The lower-case letter for an upper-case letter of `A` to `Z`; any other
/// character as it is.
pub fn to_ascii_lower(c: char) -> (r: char)
    ensures
        r == ascii_lower(c),
{
    let n: u32 = c as u32;
    if 0x41 <= n && n <= 0x5A {
        let b: u8 = c as u8;
        (b + 0x20) as char
    } else {
        c
    }
}

/// `s` in lower case.
pub fn lower_cased(s: &str) -> (r: String)
    ensures
        r@ == lowered(s@),
{
    if s.is_ascii() {
        let v = chars_of(s);
        let mut r = String::new();
        let mut i: usize = 0;
        while i < v.len()
            invariant
                i <= v.len(),
                v@ == s@,
                r@ == lowered(s@).take(i as int),
                is_ascii_chars(s@),
            decreases v.len() - i,
        {
            r.push(to_ascii_lower(v[i]));
            i += 1;
        }
        r
    } else {
        s.to_lowercase()
    }
}

/// The characters of `v` from index `from` up to, not including, `to`.
pub fn slice_of(v: &Vec<char>, from: usize, to: usize) -> (r: Vec<char>)
    requires
        from <= to <= v.len(),
    ensures
        r@ == v@.subrange(from as int, to as int),
{
    let mut r: Vec<char> = Vec::new();
    let mut i: usize = from;
    while i < to
        invariant
            from <= i <= to <= v.len(),
            r@ == v@.subrange(from as int, i as int),
        decreases to - i,
    {
        r.push(v[i]);
        i += 1;
    }
    r
}

/// Whether `c` is white space.
pub fn is_whitespace(c: char) -> (b: bool)
    ensures
        b == is_space(c),
{
    let n: u32 = c as u32;
    (0x09 <= n && n <= 0x0D) || n == 0x20 || n == 0x85 || n == 0xA0 || n == 0x1680 || (0x2000 <= n
        && n <= 0x200A) || n == 0x2028 || n == 0x2029 || n == 0x202F || n == 0x205F || n == 0x3000
}

/// `v` without its leading and trailing white space.
pub fn trimmed(v: &Vec<char>) -> (r: Vec<char>)
    ensures
        r@ == trim(v@),
{
    let n = v.len();
    let mut a: usize = 0;
    assert(v@.subrange(0, n as int) == v@);
    while a < n && is_whitespace(v[a])
        invariant
            a <= n == v.len(),
            trim_start(v@) == trim_start(v@.subrange(a as int, n as int)),
        decreases n - a,
    {
        assert(v@.subrange(a as int, n as int).drop_first() == v@.subrange(a + 1, n as int));
        a += 1;
    }
    assert(trim_start(v@) == v@.subrange(a as int, n as int));
    let mut b: usize = n;
    while b > a && is_whitespace(v[b - 1])
        invariant
            a <= b <= n == v.len(),
            trim(v@) == trim_end(v@.subrange(a as int, b as int)),
        decreases b,
    {
        assert(v@.subrange(a as int, b as int).drop_last() == v@.subrange(a as int, b - 1));
        b -= 1;
    }
    slice_of(v, a, b)
}

/// Whether `pat` stands in `v` at index `i`.
pub fn matches_at(v: &Vec<char>, i: usize, pat: &Vec<char>) -> (b: bool)
    ensures
        b == occurs_at(v@, i as int, pat@),
{
    let m = pat.len();
    if i > v.len() || m > v.len() - i {
        return false;
    }
    let mut k: usize = 0;
    while k < m
        invariant
            k <= m == pat.len(),
            i + m <= v.len(),
            v@.subrange(i as int, i + k) == pat@.take(k as int),
        decreases m - k,
    {
        if v[i + k] != pat[k] {
            assert(v@.subrange(i as int, i + m)[k as int] != pat@[k as int]);
            return false;
        }
        assert(v@.subrange(i as int, i + k + 1) == v@.subrange(i as int, i + k).push(v@[i + k]));
        assert(pat@.take(k + 1) == pat@.take(k as int).push(pat@[k as int]));
        k += 1;
    }
    assert(pat@.take(m as int) == pat@);
    true
}

/// The index of the first occurrence of `pat` in `v`, if it occurs.
pub fn find_first(v: &Vec<char>, pat: &Vec<char>) -> (r: Option<usize>)
    ensures
        match r {
            Some(i) => first_occurrence(v@, pat@) == Some(i as int) && is_first_occurrence(
                v@,
                pat@,
                i as int,
            ),
            None => first_occurrence(v@, pat@) is None,
        },
        r is Some <==> occurs_in(v@, pat@),
{
    let mut i: usize = 0;
    while i < v.len()
        invariant
            forall|j: int| 0 <= j < i ==> !occurs_at(v@, j, pat@),
        decreases v.len() - i,
    {
        if matches_at(v, i, pat) {
            proof {
                lemma_first_occurrence(v@, pat@, i as int);
            }
            return Some(i);
        }
        i += 1;
    }
    if matches_at(v, i, pat) {
        proof {
            lemma_first_occurrence(v@, pat@, i as int);
        }
        Some(i)
    } else {
        None
    }
}

/// `v` without the `c`s at its start and at its end.
pub fn without_surrounding(v: &Vec<char>, c: char) -> (r: Vec<char>)
    ensures
        r@ == strip_all(v@, c),
{
    let n = v.len();
    let mut a: usize = 0;
    assert(v@.subrange(0, n as int) == v@);
    while a < n && v[a] == c
        invariant
            a <= n == v.len(),
            strip_all_start(v@, c) == strip_all_start(v@.subrange(a as int, n as int), c),
        decreases n - a,
    {
        assert(v@.subrange(a as int, n as int).drop_first() == v@.subrange(a + 1, n as int));
        a += 1;
    }
    let mut b: usize = n;
    while b > a && v[b - 1] == c
        invariant
            a <= b <= n == v.len(),
            strip_all(v@, c) == strip_all_end(v@.subrange(a as int, b as int), c),
        decreases b,
    {
        assert(v@.subrange(a as int, b as int).drop_last() == v@.subrange(a as int, b - 1));
        b -= 1;
    }
    slice_of(v, a, b)
}

/// `v` with every occurrence of `pat` removed.
pub fn without(v: &Vec<char>, pat: &Vec<char>) -> (r: Vec<char>)
    ensures
        r@ == remove_all(v@, pat@),
{
    let n = v.len();
    let m = pat.len();
    if m == 0 {
        return slice_of(v, 0, n);
    }
    let mut r: Vec<char> = Vec::new();
    let mut i: usize = 0;
    assert(v@.subrange(0, n as int) == v@);
    assert(r@ + v@ == v@);
    while i < n && n - i >= m
        invariant
            i <= n == v.len(),
            0 < m == pat.len(),
            remove_all(v@, pat@) == r@ + remove_all(v@.subrange(i as int, n as int), pat@),
        decreases n - i,
    {
        let ghost rest = v@.subrange(i as int, n as int);
        assert(rest.subrange(0, m as int) == v@.subrange(i as int, i + m));
        if matches_at(v, i, pat) {
            assert(rest.subrange(m as int, rest.len() as int) == v@.subrange(i + m, n as int));
            i += m;
        } else {
            assert(rest.drop_first() == v@.subrange(i + 1, n as int));
            assert(r@.push(v@[i as int]) + remove_all(rest.drop_first(), pat@) == r@ + (seq![
                rest[0],
            ] + remove_all(rest.drop_first(), pat@)));
            r.push(v[i]);
            i += 1;
        }
    }
    let ghost done = r@;
    let ghost tail = v@.subrange(i as int, n as int);
    assert(remove_all(tail, pat@) == tail);
    while i < n
        invariant
            i <= n == v.len(),
            r@ + v@.subrange(i as int, n as int) == done + tail,
        decreases n - i,
    {
        assert(r@.push(v@[i as int]) + v@.subrange(i + 1, n as int) == r@ + v@.subrange(
            i as int,
            n as int,
        ));
        r.push(v[i]);
        i += 1;
    }
    assert(v@.subrange(n as int, n as int) == Seq::<char>::empty());
    assert(r@ + Seq::<char>::empty() == r@);
    r
}

/// `v` with every `from` replaced by `to`.
pub fn replaced(v: &Vec<char>, from: char, to: char) -> (r: Vec<char>)
    ensures
        r@ == replace_char(v@, from, to),
{
    let mut r: Vec<char> = Vec::new();
    let mut i: usize = 0;
    while i < v.len()
        invariant
            i <= v.len(),
            r@ == replace_char(v@, from, to).take(i as int),
        decreases v.len() - i,
    {
        let c = v[i];
        r.push(if c == from { to } else { c });
        i += 1;
    }
    r
}

/// `v` without its first character, if that character is `c`.
pub fn without_leading(v: &Vec<char>, c: char) -> (r: Vec<char>)
    ensures
        r@ == strip_leading(v@, c),
{
    if v.len() > 0 && v[0] == c {
        slice_of(v, 1, v.len())
    } else {
        slice_of(v, 0, v.len())
    }
}

/// The least index at which `pat` stands in `s` is its first occurrence;
/// where it stands nowhere there is none.
pub proof fn lemma_first_occurrence(s: Seq<char>, pat: Seq<char>, i: int)
    requires
        is_first_occurrence(s, pat, i),
    ensures
        first_occurrence(s, pat) == Some(i),
{
    let k = choose|k: int| is_first_occurrence(s, pat, k);
    assert(k == i) by {
        if k < i {
            assert(!occurs_at(s, k, pat));
        }
        if i < k {
            assert(!occurs_at(s, i, pat));
        }
    }
}

/// Where `pat` does not occur, nothing is removed.
pub proof fn lemma_remove_all_absent(s: Seq<char>, pat: Seq<char>)
    requires
        !occurs_in(s, pat),
    ensures
        remove_all(s, pat) == s,
    decreases s.len(),
{
    if pat.len() == 0 || s.len() < pat.len() {
    } else {
        assert(!occurs_at(s, 0, pat));
        let rest = s.drop_first();
        assert forall|i: int| !occurs_at(rest, i, pat) by {
            if occurs_at(rest, i, pat) {
                assert(s.subrange(i + 1, i + 1 + pat.len()) == rest.subrange(i, i + pat.len()));
                assert(occurs_at(s, i + 1, pat));
            }
        }
        lemma_remove_all_absent(rest, pat);
        assert(seq![s[0]] + rest == s);
    }
}

/// Up to the first occurrence of `pat` everything stays, the occurrence
/// goes, and the removal goes on behind it.
pub proof fn lemma_remove_all_first(s: Seq<char>, pat: Seq<char>, at: int)
    requires
        pat.len() > 0,
        occurs_at(s, at, pat),
        forall|j: int| 0 <= j < at ==> !occurs_at(s, j, pat),
    ensures
        remove_all(s, pat) == s.subrange(0, at) + remove_all(
            s.subrange(at + pat.len(), s.len() as int),
            pat,
        ),
    decreases at,
{
    let m = pat.len() as int;
    let n = s.len() as int;
    if at == 0 {
        assert(s.subrange(0, 0) + remove_all(s.subrange(m, n), pat) == remove_all(
            s.subrange(m, n),
            pat,
        ));
    } else {
        let rest = s.drop_first();
        assert(rest.subrange(at - 1, at - 1 + m) == s.subrange(at, at + m));
        assert forall|j: int| 0 <= j < at - 1 implies !occurs_at(rest, j, pat) by {
            if occurs_at(rest, j, pat) {
                assert(s.subrange(j + 1, j + 1 + m) == rest.subrange(j, j + m));
                assert(occurs_at(s, j + 1, pat));
            }
        }
        lemma_remove_all_first(rest, pat, at - 1);
        assert(rest.subrange(at - 1 + m, rest.len() as int) == s.subrange(at + m, n));
        assert(seq![s[0]] + rest.subrange(0, at - 1) == s.subrange(0, at));
        assert(seq![s[0]] + (rest.subrange(0, at - 1) + remove_all(s.subrange(at + m, n), pat))
            == s.subrange(0, at) + remove_all(s.subrange(at + m, n), pat));
    }
}

/// Text that neither starts nor ends with white space is its own trimming.
pub proof fn lemma_trim_tight(s: Seq<char>)
    requires
        s.len() > 0 ==> !is_space(s[0]) && !is_space(s.last()),
    ensures
        trim(s) == s,
{
}

} // verus!
