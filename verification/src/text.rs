//! Character-level text helpers shared by the library's parsers and
//! classifiers. Strings are modelled as `Seq<char>` (the view of `str` and
//! `String`); every executable helper is tied to its spec counterpart.
use vstd::prelude::*;

verus! {

/// Lower-cases ASCII letters and leaves every other character unchanged.
pub open spec fn spec_ascii_lower(c: char) -> char {
    if 'A' <= c && c <= 'Z' {
        ((c as u32) + 32) as char
    } else {
        c
    }
}

/// Every character of `s` is ASCII.
pub open spec fn spec_all_ascii(s: Seq<char>) -> bool {
    forall|i: int| 0 <= i < s.len() ==> (#[trigger] s[i] as u32) < 0x80
}

pub open spec fn spec_lower_seq(s: Seq<char>) -> Seq<char> {
    s.map_values(|c: char| spec_ascii_lower(c))
}

/// `a` and `b` are equal once ASCII letters are compared without case.
pub open spec fn spec_eq_ignore_ascii_case(a: Seq<char>, b: Seq<char>) -> bool {
    &&& a.len() == b.len()
    &&& forall|i: int| 0 <= i < a.len() ==> spec_ascii_lower(#[trigger] a[i]) == spec_ascii_lower(b[i])
}

pub open spec fn spec_starts_with(s: Seq<char>, prefix: Seq<char>) -> bool {
    prefix.len() <= s.len() && s.subrange(0, prefix.len() as int) == prefix
}

pub open spec fn spec_ends_with(s: Seq<char>, suffix: Seq<char>) -> bool {
    suffix.len() <= s.len() && s.subrange(s.len() - suffix.len(), s.len() as int) == suffix
}

/// `pat` occurs in `s` starting at position `i`.
pub open spec fn spec_occurs_at(s: Seq<char>, pat: Seq<char>, i: int) -> bool {
    0 <= i && i + pat.len() <= s.len() && s.subrange(i, i + pat.len()) == pat
}

pub open spec fn spec_contains(s: Seq<char>, pat: Seq<char>) -> bool {
    exists|i: int| spec_occurs_at(s, pat, i)
}

pub open spec fn spec_is_ascii_digit(c: char) -> bool {
    '0' <= c && c <= '9'
}

pub open spec fn spec_is_ascii_alpha(c: char) -> bool {
    ('a' <= c && c <= 'z') || ('A' <= c && c <= 'Z')
}

pub open spec fn spec_is_ascii_alphanumeric(c: char) -> bool {
    spec_is_ascii_digit(c) || spec_is_ascii_alpha(c)
}

pub open spec fn spec_is_ascii_hexdigit(c: char) -> bool {
    spec_is_ascii_digit(c) || ('a' <= c && c <= 'f') || ('A' <= c && c <= 'F')
}

/// The Unicode `White_Space` property, which is what `char::is_whitespace`
/// and `str::trim` use.
pub open spec fn spec_is_whitespace(c: char) -> bool {
    let u = c as u32;
    ||| (0x9 <= u && u <= 0xd)
    ||| u == 0x20
    ||| u == 0x85
    ||| u == 0xa0
    ||| u == 0x1680
    ||| (0x2000 <= u && u <= 0x200a)
    ||| u == 0x2028
    ||| u == 0x2029
    ||| u == 0x202f
    ||| u == 0x205f
    ||| u == 0x3000
}

/// Number of leading characters of `s` that satisfy `p`.
pub open spec fn spec_leading(s: Seq<char>, p: spec_fn(char) -> bool) -> nat
    decreases s.len(),
{
    if s.len() == 0 {
        0
    } else if p(s[0]) {
        1 + spec_leading(s.drop_first(), p)
    } else {
        0
    }
}

/// Number of trailing characters of `s` that satisfy `p`.
pub open spec fn spec_trailing(s: Seq<char>, p: spec_fn(char) -> bool) -> nat
    decreases s.len(),
{
    if s.len() == 0 {
        0
    } else if p(s.last()) {
        1 + spec_trailing(s.drop_last(), p)
    } else {
        0
    }
}

/// `s` without its leading characters that satisfy `p`.
pub open spec fn spec_trim_start_by(s: Seq<char>, p: spec_fn(char) -> bool) -> Seq<char> {
    s.skip(spec_leading(s, p) as int)
}

/// `s` without its trailing characters that satisfy `p`.
pub open spec fn spec_trim_end_by(s: Seq<char>, p: spec_fn(char) -> bool) -> Seq<char> {
    s.take(s.len() - spec_trailing(s, p))
}

/// `str::trim`: leading and trailing Unicode whitespace removed.
pub open spec fn spec_trim(s: Seq<char>) -> Seq<char> {
    spec_trim_end_by(
        spec_trim_start_by(s, |c: char| spec_is_whitespace(c)),
        |c: char| spec_is_whitespace(c),
    )
}

pub proof fn lemma_leading_bound(s: Seq<char>, p: spec_fn(char) -> bool)
    ensures
        spec_leading(s, p) <= s.len(),
        forall|i: int| 0 <= i < spec_leading(s, p) ==> p(#[trigger] s[i]),
        spec_leading(s, p) < s.len() ==> !p(s[spec_leading(s, p) as int]),
    decreases s.len(),
{
    if s.len() > 0 && p(s[0]) {
        lemma_leading_bound(s.drop_first(), p);
        assert forall|i: int| 0 <= i < spec_leading(s, p) implies p(#[trigger] s[i]) by {
            if i > 0 {
                assert(s[i] == s.drop_first()[i - 1]);
            }
        }
    }
}

pub proof fn lemma_trailing_bound(s: Seq<char>, p: spec_fn(char) -> bool)
    ensures
        spec_trailing(s, p) <= s.len(),
        forall|i: int| s.len() - spec_trailing(s, p) <= i < s.len() ==> p(#[trigger] s[i]),
        spec_trailing(s, p) < s.len() ==> !p(s[s.len() - spec_trailing(s, p) - 1]),
    decreases s.len(),
{
    if s.len() > 0 && p(s.last()) {
        lemma_trailing_bound(s.drop_last(), p);
        assert forall|i: int| s.len() - spec_trailing(s, p) <= i < s.len() implies p(#[trigger] s[i]) by {
            if i < s.len() - 1 {
                assert(s[i] == s.drop_last()[i]);
            }
        }
    }
}

pub proof fn lemma_leading_exact(s: Seq<char>, p: spec_fn(char) -> bool, n: int)
    requires
        0 <= n <= s.len(),
        forall|i: int| 0 <= i < n ==> p(#[trigger] s[i]),
        n < s.len() ==> !p(s[n]),
    ensures
        spec_leading(s, p) == n,
    decreases s.len(),
{
    if n > 0 {
        assert forall|i: int| 0 <= i < n - 1 implies p(#[trigger] s.drop_first()[i]) by {
            assert(s.drop_first()[i] == s[i + 1]);
        }
        if n - 1 < s.drop_first().len() {
            assert(s.drop_first()[n - 1] == s[n]);
        }
        lemma_leading_exact(s.drop_first(), p, n - 1);
    }
}

pub proof fn lemma_trailing_exact(s: Seq<char>, p: spec_fn(char) -> bool, n: int)
    requires
        0 <= n <= s.len(),
        forall|i: int| s.len() - n <= i < s.len() ==> p(#[trigger] s[i]),
        n < s.len() ==> !p(s[s.len() - n - 1]),
    ensures
        spec_trailing(s, p) == n,
    decreases s.len(),
{
    if n > 0 {
        let t = s.drop_last();
        assert forall|i: int| t.len() - (n - 1) <= i < t.len() implies p(#[trigger] t[i]) by {
            assert(t[i] == s[i]);
        }
        if n - 1 < t.len() {
            assert(t[t.len() - (n - 1) - 1] == s[s.len() - n - 1]);
        }
        lemma_trailing_exact(t, p, n - 1);
    }
}

/// Appends one character to a `String` (`String::push`).
#[verifier::external_body]
fn push_char(s: &mut String, c: char)
    ensures
        final(s)@ == old(s)@.push(c),
{
    s.push(c);
}

/// The characters of a string slice, in order.
pub fn chars_of(s: &str) -> (v: Vec<char>)
    ensures
        v@ == s@,
{
    let mut v: Vec<char> = Vec::new();
    for c in it: s.chars()
        invariant
            v@ == it.seq().take(it.index() as int),
    {
        v.push(c);
    }
    v
}

/// The characters `v[from..to]` collected into a `String`.
pub fn string_from_range(v: &Vec<char>, from: usize, to: usize) -> (s: String)
    requires
        from <= to <= v.len(),
    ensures
        s@ == v@.subrange(from as int, to as int),
{
    let mut s = String::new();
    let mut i = from;
    while i < to
        invariant
            from <= i <= to <= v.len(),
            s@ == v@.subrange(from as int, i as int),
        decreases to - i,
    {
        push_char(&mut s, v[i]);
        assert(v@.subrange(from as int, i + 1) == v@.subrange(from as int, i as int).push(v@[i as int]));
        i += 1;
    }
    s
}

/// All characters of `v` collected into a `String`.
pub fn string_from(v: &Vec<char>) -> (s: String)
    ensures
        s@ == v@,
{
    let s = string_from_range(v, 0, v.len());
    assert(v@.subrange(0, v@.len() as int) == v@);
    s
}

/// A `String` holding the characters of `s`.
pub fn to_owned(s: &str) -> (r: String)
    ensures
        r@ == s@,
{
    let v = chars_of(s);
    string_from(&v)
}

/// `String` concatenation.
pub fn concat(a: &str, b: &str) -> (r: String)
    ensures
        r@ == a@ + b@,
{
    let mut v = chars_of(a);
    let w = chars_of(b);
    let mut i: usize = 0;
    let ghost a0 = v@;
    while i < w.len()
        invariant
            i <= w.len(),
            w@ == b@,
            v@ == a0 + w@.subrange(0, i as int),
        decreases w.len() - i,
    {
        v.push(w[i]);
        assert(w@.subrange(0, i + 1) == w@.subrange(0, i as int).push(w@[i as int]));
        i += 1;
    }
    assert(w@.subrange(0, w@.len() as int) == w@);
    string_from(&v)
}

pub fn ascii_lower(c: char) -> (r: char)
    ensures
        r == spec_ascii_lower(c),
{
    if 'A' <= c && c <= 'Z' {
        let u = (c as u32) + 32;
        assert(0x61 <= u <= 0x7a);
        let r = char_from_ascii_code(u);
        r
    } else {
        c
    }
}

/// The character with the given code point, for a code point in the ASCII
/// range.
fn char_from_ascii_code(u: u32) -> (c: char)
    requires
        u < 0x80,
    ensures
        c == u as char,
        c as u32 == u,
{
    let b = u as u8;
    b as char
}

pub fn is_ascii_digit(c: char) -> (r: bool)
    ensures
        r == spec_is_ascii_digit(c),
{
    '0' <= c && c <= '9'
}

pub fn is_ascii_alphanumeric(c: char) -> (r: bool)
    ensures
        r == spec_is_ascii_alphanumeric(c),
{
    ('0' <= c && c <= '9') || ('a' <= c && c <= 'z') || ('A' <= c && c <= 'Z')
}

pub fn is_ascii_hexdigit(c: char) -> (r: bool)
    ensures
        r == spec_is_ascii_hexdigit(c),
{
    ('0' <= c && c <= '9') || ('a' <= c && c <= 'f') || ('A' <= c && c <= 'F')
}

pub fn is_whitespace(c: char) -> (r: bool)
    ensures
        r == spec_is_whitespace(c),
{
    let u = c as u32;
    (0x9 <= u && u <= 0xd) || u == 0x20 || u == 0x85 || u == 0xa0 || u == 0x1680 || (0x2000
        <= u && u <= 0x200a) || u == 0x2028 || u == 0x2029 || u == 0x202f || u == 0x205f || u
        == 0x3000
}

pub fn eq_ignore_ascii_case(a: &Vec<char>, b: &Vec<char>) -> (r: bool)
    ensures
        r == spec_eq_ignore_ascii_case(a@, b@),
{
    if a.len() != b.len() {
        return false;
    }
    let mut i: usize = 0;
    while i < a.len()
        invariant
            a.len() == b.len(),
            i <= a.len(),
            forall|j: int| 0 <= j < i ==> spec_ascii_lower(#[trigger] a@[j]) == spec_ascii_lower(b@[j]),
        decreases a.len() - i,
    {
        if ascii_lower(a[i]) != ascii_lower(b[i]) {
            return false;
        }
        i += 1;
    }
    true
}

pub fn str_eq_ignore_ascii_case(a: &str, b: &str) -> (r: bool)
    ensures
        r == spec_eq_ignore_ascii_case(a@, b@),
{
    let x = chars_of(a);
    let y = chars_of(b);
    eq_ignore_ascii_case(&x, &y)
}

/// Whether `pat` occurs in `s` at position `i`.
pub fn occurs_at(s: &Vec<char>, pat: &Vec<char>, i: usize) -> (r: bool)
    ensures
        r == spec_occurs_at(s@, pat@, i as int),
{
    if i > s.len() || pat.len() > s.len() - i {
        return false;
    }
    let mut j: usize = 0;
    while j < pat.len()
        invariant
            i + pat.len() <= s.len(),
            j <= pat.len(),
            forall|k: int| 0 <= k < j ==> s@[i + k] == pat@[k],
        decreases pat.len() - j,
    {
        if s[i + j] != pat[j] {
            assert(s@.subrange(i as int, i + pat.len())[j as int] != pat@[j as int]);
            return false;
        }
        j += 1;
    }
    assert(s@.subrange(i as int, i + pat.len()) =~= pat@);
    true
}

pub fn starts_with(s: &Vec<char>, prefix: &Vec<char>) -> (r: bool)
    ensures
        r == spec_starts_with(s@, prefix@),
{
    occurs_at(s, prefix, 0)
}

pub fn ends_with(s: &Vec<char>, suffix: &Vec<char>) -> (r: bool)
    ensures
        r == spec_ends_with(s@, suffix@),
{
    if suffix.len() > s.len() {
        return false;
    }
    occurs_at(s, suffix, s.len() - suffix.len())
}

pub fn contains(s: &Vec<char>, pat: &Vec<char>) -> (r: bool)
    ensures
        r == spec_contains(s@, pat@),
{
    let mut i: usize = 0;
    while i < s.len()
        invariant
            i <= s.len(),
            forall|k: int| 0 <= k < i ==> !spec_occurs_at(s@, pat@, k),
        decreases s.len() - i,
    {
        if occurs_at(s, pat, i) {
            return true;
        }
        i += 1;
    }
    if occurs_at(s, pat, s.len()) {
        return true;
    }
    assert forall|k: int| !spec_occurs_at(s@, pat@, k) by {
        if 0 <= k && k < i {
        }
    }
    false
}

pub fn str_contains(s: &str, pat: &str) -> (r: bool)
    ensures
        r == spec_contains(s@, pat@),
{
    let a = chars_of(s);
    let b = chars_of(pat);
    contains(&a, &b)
}

pub fn str_ends_with(s: &str, suffix: &str) -> (r: bool)
    ensures
        r == spec_ends_with(s@, suffix@),
{
    let a = chars_of(s);
    let b = chars_of(suffix);
    ends_with(&a, &b)
}

pub fn str_starts_with(s: &str, prefix: &str) -> (r: bool)
    ensures
        r == spec_starts_with(s@, prefix@),
{
    let a = chars_of(s);
    let b = chars_of(prefix);
    starts_with(&a, &b)
}

/// Bounds `[lo, hi)` of `v` after removing leading and trailing whitespace.
pub fn trim_bounds(v: &Vec<char>, from: usize, to: usize) -> (r: (usize, usize))
    requires
        from <= to <= v.len(),
    ensures
        from <= r.0 <= r.1 <= to,
        v@.subrange(r.0 as int, r.1 as int) == spec_trim(v@.subrange(from as int, to as int)),
{
    let ghost s = v@.subrange(from as int, to as int);
    let ghost p = |c: char| spec_is_whitespace(c);
    let mut lo = from;
    while lo < to && is_whitespace(v[lo])
        invariant
            from <= lo <= to <= v.len(),
            forall|k: int| from <= k < lo ==> spec_is_whitespace(#[trigger] v@[k]),
        decreases to - lo,
    {
        lo += 1;
    }
    proof {
        assert forall|i: int| 0 <= i < lo - from implies p(#[trigger] s[i]) by {
            assert(s[i] == v@[from + i]);
        }
        if lo < to {
            assert(s[lo - from] == v@[lo as int]);
        }
        lemma_leading_exact(s, p, lo - from);
    }
    let ghost t = s.skip(lo - from);
    let mut hi = to;
    while hi > lo && is_whitespace(v[hi - 1])
        invariant
            lo <= hi <= to <= v.len(),
            forall|k: int| hi <= k < to ==> spec_is_whitespace(#[trigger] v@[k]),
        decreases hi - lo,
    {
        hi -= 1;
    }
    proof {
        assert(t =~= v@.subrange(lo as int, to as int));
        assert forall|i: int| t.len() - (to - hi) <= i < t.len() implies p(#[trigger] t[i]) by {
            assert(t[i] == v@[lo + i]);
        }
        if to - hi < t.len() {
            assert(t[t.len() - (to - hi) - 1] == v@[hi - 1]);
        }
        lemma_trailing_exact(t, p, to - hi);
        assert(spec_trim(s) =~= v@.subrange(lo as int, hi as int));
    }
    (lo, hi)
}

/// `str::trim` of `v[from..to]`, as characters.
pub fn trimmed(v: &Vec<char>) -> (r: Vec<char>)
    ensures
        r@ == spec_trim(v@),
{
    let (lo, hi) = trim_bounds(v, 0, v.len());
    assert(v@.subrange(0, v@.len() as int) == v@);
    slice_vec(v, lo, hi)
}

pub fn slice_vec(v: &Vec<char>, from: usize, to: usize) -> (r: Vec<char>)
    requires
        from <= to <= v.len(),
    ensures
        r@ == v@.subrange(from as int, to as int),
{
    let mut r: Vec<char> = Vec::new();
    let mut i = from;
    while i < to
        invariant
            from <= i <= to <= v.len(),
            r@ == v@.subrange(from as int, i as int),
        decreases to - i,
    {
        r.push(v[i]);
        assert(v@.subrange(from as int, i + 1) == v@.subrange(from as int, i as int).push(v@[i as int]));
        i += 1;
    }
    r
}


/// `str::split` on one separator character: the pieces between separators,
/// with an empty piece wherever two separators meet or the text starts or
/// ends with one.
pub open spec fn spec_split(s: Seq<char>, sep: char) -> Seq<Seq<char>>
    decreases s.len(),
{
    if s.len() == 0 {
        seq![Seq::<char>::empty()]
    } else {
        let prev = spec_split(s.drop_last(), sep);
        if s.last() == sep {
            prev.push(Seq::<char>::empty())
        } else {
            prev.update(prev.len() - 1, prev.last().push(s.last()))
        }
    }
}

pub proof fn lemma_split_nonempty(s: Seq<char>, sep: char)
    ensures
        spec_split(s, sep).len() >= 1,
    decreases s.len(),
{
    if s.len() > 0 {
        lemma_split_nonempty(s.drop_last(), sep);
    }
}

/// Every occurrence of `from` replaced by `to`.
pub open spec fn spec_replace_char(s: Seq<char>, from: char, to: char) -> Seq<char> {
    s.map_values(|c: char| if c == from { to } else { c })
}

/// The pieces of `v` between occurrences of `sep`.
pub fn split_chars(v: &Vec<char>, sep: char) -> (r: Vec<Vec<char>>)
    ensures
        r@.len() == spec_split(v@, sep).len(),
        forall|i: int| 0 <= i < r@.len() ==> (#[trigger] r@[i])@ == spec_split(v@, sep)[i],
{
    let mut parts: Vec<Vec<char>> = Vec::new();
    let mut current: Vec<char> = Vec::new();
    let mut i: usize = 0;
    assert(v@.subrange(0, 0) =~= Seq::<char>::empty());
    while i < v.len()
        invariant
            i <= v.len(),
            parts@.len() + 1 == spec_split(v@.subrange(0, i as int), sep).len(),
            forall|k: int| 0 <= k < parts@.len() ==> (#[trigger] parts@[k])@ == spec_split(
                v@.subrange(0, i as int),
                sep,
            )[k],
            current@ == spec_split(v@.subrange(0, i as int), sep).last(),
        decreases v.len() - i,
    {
        let ghost pre = v@.subrange(0, i as int);
        let ghost next = v@.subrange(0, i + 1);
        assert(next.drop_last() =~= pre);
        proof {
            lemma_split_nonempty(pre, sep);
        }
        if v[i] == sep {
            let done = current;
            parts.push(done);
            current = Vec::new();
            assert(current@ =~= Seq::<char>::empty());
        } else {
            current.push(v[i]);
        }
        i += 1;
    }
    assert(v@.subrange(0, v@.len() as int) =~= v@);
    parts.push(current);
    parts
}

/// `v` with every `from` replaced by `to`.
pub fn replace_char(v: &Vec<char>, from: char, to: char) -> (r: Vec<char>)
    ensures
        r@ == spec_replace_char(v@, from, to),
{
    let mut r: Vec<char> = Vec::new();
    let mut i: usize = 0;
    while i < v.len()
        invariant
            i <= v.len(),
            r@ == spec_replace_char(v@.subrange(0, i as int), from, to),
        decreases v.len() - i,
    {
        let c = if v[i] == from {
            to
        } else {
            v[i]
        };
        r.push(c);
        assert(spec_replace_char(v@.subrange(0, i + 1), from, to) =~= spec_replace_char(
            v@.subrange(0, i as int),
            from,
            to,
        ).push(c));
        i += 1;
    }
    assert(v@.subrange(0, v@.len() as int) =~= v@);
    r
}

/// `v` with ASCII letters lower-cased.
pub fn lower_vec(v: &Vec<char>) -> (r: Vec<char>)
    ensures
        r@ == spec_lower_seq(v@),
{
    let mut r: Vec<char> = Vec::new();
    let mut i: usize = 0;
    while i < v.len()
        invariant
            i <= v.len(),
            r@ == spec_lower_seq(v@.subrange(0, i as int)),
        decreases v.len() - i,
    {
        let c = ascii_lower(v[i]);
        r.push(c);
        assert(spec_lower_seq(v@.subrange(0, i + 1)) =~= spec_lower_seq(v@.subrange(0, i as int)).push(c));
        i += 1;
    }
    assert(v@.subrange(0, v@.len() as int) =~= v@);
    r
}

/// Whether `v` holds exactly the characters of `s`.
pub fn eq_str(v: &Vec<char>, s: &str) -> (r: bool)
    ensures
        r == (v@ == s@),
{
    let w = chars_of(s);
    if v.len() != w.len() {
        return false;
    }
    let mut i: usize = 0;
    while i < v.len()
        invariant
            i <= v.len(),
            v.len() == w.len(),
            w@ == s@,
            forall|k: int| 0 <= k < i ==> v@[k] == w@[k],
        decreases v.len() - i,
    {
        if v[i] != w[i] {
            return false;
        }
        i += 1;
    }
    assert(v@ =~= w@);
    true
}


pub open spec fn spec_digit(d: nat) -> char {
    (d + 48) as char
}

/// The decimal numeral of `n` (as `u64::to_string` writes it).
pub open spec fn spec_decimal(n: nat) -> Seq<char>
    decreases n,
{
    if n < 10 {
        seq![spec_digit(n)]
    } else {
        spec_decimal(n / 10).push(spec_digit(n % 10))
    }
}

/// `n` written in decimal.
pub fn decimal(n: u64) -> (r: String)
    ensures
        r@ == spec_decimal(n as nat),
{
    let mut digits: Vec<char> = Vec::new();
    let mut m = n;
    while m >= 10
        invariant
            spec_decimal(n as nat) == spec_decimal(m as nat) + digits@.reverse(),
        decreases m,
    {
        let d = m % 10;
        let c = char_from_ascii_code((d + 48) as u32);
        let ghost before = digits@;
        digits.push(c);
        assert(spec_decimal(m as nat) == spec_decimal((m / 10) as nat).push(spec_digit((m % 10) as nat)));
        assert(digits@.reverse() =~= seq![c] + before.reverse());
        assert(spec_decimal((m / 10) as nat).push(c) + before.reverse() =~= spec_decimal((m / 10) as nat) + (seq![c] + before.reverse()));
        m = m / 10;
    }
    let c = char_from_ascii_code((m + 48) as u32);
    let mut out: Vec<char> = Vec::new();
    out.push(c);
    let mut k = digits.len();
    let ghost rev = digits@.reverse();
    assert(out@ =~= spec_decimal(m as nat));
    while k > 0
        invariant
            k <= digits@.len(),
            rev == digits@.reverse(),
            out@ == spec_decimal(m as nat) + rev.subrange(0, (digits@.len() - k) as int),
        decreases k,
    {
        k -= 1;
        let x = digits[k];
        assert(rev[(digits@.len() - k - 1) as int] == digits@[k as int]);
        out.push(x);
        assert(rev.subrange(0, (digits@.len() - k) as int) =~= rev.subrange(0, (digits@.len() - k - 1) as int).push(x));
    }
    assert(rev.subrange(0, digits@.len() as int) =~= rev);
    string_from(&out)
}


/// Whether the text has no characters.
pub fn is_empty_str(s: &str) -> (r: bool)
    ensures
        r == (s@.len() == 0),
{
    let v = chars_of(s);
    v.len() == 0
}


/// The value of a run of decimal digits.
pub open spec fn digits_value(s: Seq<char>) -> nat
    decreases s.len(),
{
    if s.len() == 0 {
        0
    } else {
        digits_value(s.drop_last()) * 10 + ((s.last() as u32) - 48) as nat
    }
}

/// A non-empty run of decimal digits whose value is at most `max`.
pub open spec fn spec_digits_at_most(d: Seq<char>, max: nat) -> Option<nat> {
    if d.len() > 0 && (forall|i: int| 0 <= i < d.len() ==> spec_is_ascii_digit(#[trigger] d[i]))
        && digits_value(d) <= max {
        Some(digits_value(d))
    } else {
        None
    }
}

/// `FromStr` of an unsigned integer type whose largest value is `max`: an
/// optional `+`, then at least one decimal digit and nothing else.
pub open spec fn spec_parse_uint(s: Seq<char>, max: nat) -> Option<nat> {
    if s.len() > 0 && s[0] == '+' {
        spec_digits_at_most(s.drop_first(), max)
    } else {
        spec_digits_at_most(s, max)
    }
}

proof fn lemma_digits_mono(d: Seq<char>, n: int)
    requires
        0 <= n <= d.len(),
    ensures
        digits_value(d.subrange(0, n)) <= digits_value(d),
    decreases d.len(),
{
    if n < d.len() {
        assert(d.drop_last().subrange(0, n) =~= d.subrange(0, n));
        lemma_digits_mono(d.drop_last(), n);
    } else {
        assert(d.subrange(0, n) =~= d);
    }
}

fn parse_digits_from(s: &Vec<char>, start: usize, max: u64) -> (r: Option<u64>)
    requires
        start <= s.len(),
    ensures
        r matches Some(v) ==> spec_digits_at_most(s@.subrange(start as int, s@.len() as int), max as nat)
            == Some(v as nat),
        r is None ==> spec_digits_at_most(s@.subrange(start as int, s@.len() as int), max as nat) is None,
{
    let ghost d = s@.subrange(start as int, s@.len() as int);
    if start == s.len() {
        return None;
    }
    let mut value: u128 = 0;
    let mut i = start;
    while i < s.len()
        invariant
            start < s.len(),
            start <= i <= s.len(),
            d == s@.subrange(start as int, s@.len() as int),
            forall|k: int| start <= k < i ==> spec_is_ascii_digit(#[trigger] s@[k]),
            value == digits_value(s@.subrange(start as int, i as int)),
            value <= max,
        decreases s.len() - i,
    {
        let c = s[i];
        if !is_ascii_digit(c) {
            proof {
                assert(d[i - start] == s@[i as int]);
            }
            return None;
        }
        assert(s@.subrange(start as int, i + 1).drop_last() =~= s@.subrange(start as int, i as int));
        let next = value * 10 + ((c as u128) - 48);
        if next > max as u128 {
            proof {
                assert(d.subrange(0, i + 1 - start) =~= s@.subrange(start as int, i + 1));
                lemma_digits_mono(d, (i + 1 - start) as int);
            }
            return None;
        }
        value = next;
        i += 1;
    }
    proof {
        assert(s@.subrange(start as int, i as int) == d);
        assert forall|k: int| 0 <= k < d.len() implies spec_is_ascii_digit(#[trigger] d[k]) by {
            assert(d[k] == s@[start + k]);
        }
    }
    Some(value as u64)
}

/// Parses an unsigned integer of at most `max`, as `u8`, `u16` and `u32`
/// parse from a string.
pub fn parse_uint(s: &Vec<char>, max: u64) -> (r: Option<u64>)
    ensures
        r matches Some(v) ==> spec_parse_uint(s@, max as nat) == Some(v as nat),
        r is None ==> spec_parse_uint(s@, max as nat) is None,
{
    if s.len() > 0 && s[0] == '+' {
        assert(s@.drop_first() =~= s@.subrange(1, s@.len() as int));
        parse_digits_from(s, 1, max)
    } else {
        assert(s@ =~= s@.subrange(0, s@.len() as int));
        parse_digits_from(s, 0, max)
    }
}


/// The characters that are not whitespace.
pub open spec fn non_whitespace() -> spec_fn(char) -> bool {
    |c: char| !spec_is_whitespace(c)
}

/// `str::split_whitespace`: the maximal runs of non-whitespace characters.
pub open spec fn spec_words(s: Seq<char>) -> Seq<Seq<char>>
    decreases s.len(),
{
    if s.len() == 0 {
        Seq::empty()
    } else if spec_is_whitespace(s[0]) {
        spec_words(s.drop_first())
    } else {
        let n = spec_leading(s, non_whitespace());
        proof {
            lemma_leading_bound(s, non_whitespace());
        }
        if 0 < n <= s.len() {
            seq![s.take(n as int)] + spec_words(s.skip(n as int))
        } else {
            Seq::empty()
        }
    }
}

/// The whitespace-separated words of `v`, as `str::split_whitespace` gives them.
pub fn words(v: &Vec<char>) -> (r: Vec<Vec<char>>)
    ensures
        r@.len() == spec_words(v@).len(),
        forall|k: int| 0 <= k < r@.len() ==> (#[trigger] r@[k])@ == spec_words(v@)[k],
{
    let mut out: Vec<Vec<char>> = Vec::new();
    let ghost mut acc: Seq<Seq<char>> = Seq::empty();
    let mut i: usize = 0;
    assert(v@.skip(0) =~= v@);
    while i < v.len()
        invariant
            i <= v.len(),
            acc + spec_words(v@.skip(i as int)) == spec_words(v@),
            out@.len() == acc.len(),
            forall|k: int| 0 <= k < out@.len() ==> (#[trigger] out@[k])@ == acc[k],
        decreases v.len() - i,
    {
        let ghost rest = v@.skip(i as int);
        if is_whitespace(v[i]) {
            assert(rest.drop_first() =~= v@.skip(i + 1));
            i += 1;
        } else {
            let mut j = i;
            while j < v.len() && !is_whitespace(v[j])
                invariant
                    i <= j <= v.len(),
                    forall|k: int| i <= k < j ==> !spec_is_whitespace(#[trigger] v@[k]),
                decreases v.len() - j,
            {
                j += 1;
            }
            proof {
                assert forall|k: int| 0 <= k < j - i implies (non_whitespace())(#[trigger] rest[k]) by {
                    assert(rest[k] == v@[i + k]);
                }
                if j < v.len() {
                    assert(rest[j - i] == v@[j as int]);
                }
                lemma_leading_exact(rest, non_whitespace(), j - i);
                assert(rest.take(j - i) =~= v@.subrange(i as int, j as int));
                assert(rest.skip(j - i) =~= v@.skip(j as int));
                assert(spec_words(rest) == seq![v@.subrange(i as int, j as int)] + spec_words(v@.skip(j as int)));
                assert(acc.push(v@.subrange(i as int, j as int)) + spec_words(v@.skip(j as int)) =~= acc + spec_words(rest));
            }
            let w = slice_vec(v, i, j);
            out.push(w);
            proof {
                acc = acc.push(v@.subrange(i as int, j as int));
            }
            i = j;
        }
    }
    proof {
        assert(v@.skip(i as int) =~= Seq::<char>::empty());
        assert(acc + Seq::<Seq<char>>::empty() =~= acc);
    }
    out
}


/// What follows the last `c` in `s` (all of `s` where no `c` occurs): the
/// first piece that `str::rsplit` yields.
pub open spec fn spec_after_last(s: Seq<char>, c: char) -> Seq<char>
    decreases s.len(),
{
    if s.len() == 0 {
        s
    } else if s.last() == c {
        Seq::empty()
    } else {
        spec_after_last(s.drop_last(), c).push(s.last())
    }
}

pub fn after_last(v: &Vec<char>, c: char) -> (r: Vec<char>)
    ensures
        r@ == spec_after_last(v@, c),
{
    let mut k = v.len();
    assert(v@.subrange(0, v@.len() as int) =~= v@);
    assert(v@ + v@.subrange(v@.len() as int, v@.len() as int) =~= v@);
    while k > 0 && v[k - 1] != c
        invariant
            k <= v.len(),
            spec_after_last(v@, c) == spec_after_last(v@.subrange(0, k as int), c) + v@.subrange(k as int, v@.len() as int),
        decreases k,
    {
        let ghost pre = v@.subrange(0, k as int);
        assert(pre.drop_last() =~= v@.subrange(0, k - 1));
        assert(spec_after_last(v@.subrange(0, k - 1), c) + v@.subrange(k - 1, v@.len() as int) =~= spec_after_last(
            v@.subrange(0, k - 1),
            c,
        ).push(pre.last()) + v@.subrange(k as int, v@.len() as int));
        k -= 1;
    }
    proof {
        let pre = v@.subrange(0, k as int);
        if k > 0 {
            assert(pre.last() == c);
        }
        assert(spec_after_last(pre, c) =~= Seq::<char>::empty());
        assert(Seq::<char>::empty() + v@.subrange(k as int, v@.len() as int) =~= v@.subrange(k as int, v@.len() as int));
    }
    slice_vec(v, k, v.len())
}


/// The first position at or after `i` where `pat` occurs in `s`.
pub open spec fn spec_find_from(s: Seq<char>, pat: Seq<char>, i: int) -> Option<int>
    decreases s.len() + 1 - i,
{
    if i < 0 || i > s.len() {
        None
    } else if spec_occurs_at(s, pat, i) {
        Some(i)
    } else {
        spec_find_from(s, pat, i + 1)
    }
}

/// `str::find`: the first position where `pat` occurs in `s`.
pub open spec fn spec_find(s: Seq<char>, pat: Seq<char>) -> Option<int> {
    spec_find_from(s, pat, 0)
}

pub fn find(s: &Vec<char>, pat: &Vec<char>) -> (r: Option<usize>)
    ensures
        r matches Some(i) ==> spec_find(s@, pat@) == Some(i as int) && spec_occurs_at(s@, pat@, i as int),
        r is None ==> spec_find(s@, pat@) is None,
{
    let mut i: usize = 0;
    while i < s.len()
        invariant
            i <= s.len(),
            spec_find(s@, pat@) == spec_find_from(s@, pat@, i as int),
        decreases s.len() - i,
    {
        if occurs_at(s, pat, i) {
            return Some(i);
        }
        i += 1;
    }
    if occurs_at(s, pat, i) {
        return Some(i);
    }
    assert(spec_find_from(s@, pat@, i + 1) is None);
    None
}


/// `u32::from_str`.
pub open spec fn spec_parse_u32(s: Seq<char>) -> Option<u32> {
    match spec_parse_uint(s, 0xffff_ffff) {
        Some(v) => Some(v as u32),
        None => None,
    }
}

/// `u64::from_str`.
pub open spec fn spec_parse_u64(s: Seq<char>) -> Option<u64> {
    match spec_parse_uint(s, 0xffff_ffff_ffff_ffff) {
        Some(v) => Some(v as u64),
        None => None,
    }
}

pub fn parse_u32(s: &Vec<char>) -> (r: Option<u32>)
    ensures
        r == spec_parse_u32(s@),
{
    match parse_uint(s, 0xffff_ffff) {
        Some(v) => Some(v as u32),
        None => None,
    }
}

pub fn parse_u64(s: &Vec<char>) -> (r: Option<u64>)
    ensures
        r == spec_parse_u64(s@),
{
    parse_uint(s, 0xffff_ffff_ffff_ffff)
}

/// Whether two character vectors are equal.
pub fn chars_eq(a: &Vec<char>, b: &Vec<char>) -> (r: bool)
    ensures
        r == (a@ == b@),
{
    if a.len() != b.len() {
        return false;
    }
    let mut i: usize = 0;
    while i < a.len()
        invariant
            i <= a.len(),
            a.len() == b.len(),
            forall|k: int| 0 <= k < i ==> a@[k] == b@[k],
        decreases a.len() - i,
    {
        if a[i] != b[i] {
            return false;
        }
        i += 1;
    }
    assert(a@ =~= b@);
    true
}


/// Whether two strings are equal.
pub fn same_text(a: &str, b: &str) -> (r: bool)
    ensures
        r == (a@ == b@),
{
    let x = chars_of(a);
    let y = chars_of(b);
    chars_eq(&x, &y)
}

} // verus!
