//! Recognising a file the browser downloaded: unfinished downloads, and the
//! `name (1).ext` copies a browser makes of a name it already has.
use vstd::prelude::*;
use crate::text::{spec_after_last, spec_all_ascii, spec_ends_with, spec_eq_ignore_ascii_case, spec_is_ascii_digit, spec_lower_seq, spec_split, spec_starts_with, spec_trim};

verus! {

/// The endings of files that a browser is still writing.
pub open spec fn spec_is_incomplete_browser_download(name: Seq<char>) -> bool {
    let lower = spec_lower_seq(name);
    ||| spec_ends_with(lower, ".crdownload"@)
    ||| spec_ends_with(lower, ".part"@)
    ||| spec_ends_with(lower, ".partial"@)
    ||| spec_ends_with(lower, ".tmp"@)
    ||| spec_ends_with(lower, ".download"@)
}

pub fn is_incomplete_browser_download(file_name: &str) -> (r: bool)
    ensures
        r == spec_is_incomplete_browser_download(file_name@),
{
    let v = crate::text::chars_of(file_name);
    let lower = crate::text::lower_vec(&v);
    let s = crate::text::string_from(&lower);
    crate::text::str_ends_with(s.as_str(), ".crdownload") || crate::text::str_ends_with(s.as_str(), ".part")
        || crate::text::str_ends_with(s.as_str(), ".partial") || crate::text::str_ends_with(s.as_str(), ".tmp")
        || crate::text::str_ends_with(s.as_str(), ".download")
}

/// The components of a `/`-separated path that name something: neither
/// empty nor `.`.
pub open spec fn spec_path_parts(path: Seq<char>) -> Seq<Seq<char>> {
    spec_split(path, '/').filter(|p: Seq<char>| p.len() > 0 && p != "."@)
}

/// `Path::file_name` of a `/`-separated path: its last component, unless it
/// is `..` or there is none.
pub open spec fn spec_file_name(path: Seq<char>) -> Option<Seq<char>> {
    let parts = spec_path_parts(path);
    if parts.len() == 0 || parts.last() == ".."@ {
        None
    } else {
        Some(parts.last())
    }
}

/// A file name split at its last `.` as `Path::file_stem` and
/// `Path::extension` split it: no extension where there is no `.` or the
/// only one starts the name.
pub open spec fn spec_stem_and_extension(name: Seq<char>) -> (Seq<char>, Option<Seq<char>>) {
    if exists|i: int| 0 <= i < name.len() && name[i] == '.' {
        let ext = spec_after_last(name, '.');
        let before = name.take(name.len() - ext.len() - 1);
        if before.len() == 0 {
            (name, None)
        } else {
            (before, Some(ext))
        }
    } else {
        (name, None)
    }
}

/// What `str::to_lowercase` returns: the Unicode lowercase of the text.
pub uninterp spec fn lowercase_spec(s: Seq<char>) -> Seq<char>;

/// `str::to_lowercase`; the contract names its result and states what it
/// is for ASCII text: Unicode's lowercase of `A` to `Z` is `a` to `z`, and
/// every other ASCII character is its own lowercase.
#[verifier::external_body]
pub(crate) fn to_lowercase(s: &str) -> (r: String)
    ensures
        r@ == lowercase_spec(s@),
        spec_all_ascii(s@) ==> r@ == spec_lower_seq(s@),
{
    s.to_lowercase()
}

/// `( digits )`, at least one ASCII digit.
pub open spec fn spec_is_copy_number(s: Seq<char>) -> bool {
    &&& s.len() >= 3
    &&& s[0] == '('
    &&& s.last() == ')'
    &&& forall|i: int| 1 <= i < s.len() - 1 ==> spec_is_ascii_digit(#[trigger] s[i])
}

/// Whether `actual` is the downloaded file `expected`: not an unfinished
/// download, and the same name up to ASCII case, or a browser's numbered
/// copy of it (`name (1).ext`: same extension up to ASCII case, and a stem
/// that, lowercased, is the expected stem followed by a number in
/// parentheses, spaces around allowed).
pub open spec fn spec_browser_name_matches(actual: Seq<char>, expected: Seq<char>) -> bool {
    if spec_is_incomplete_browser_download(actual) {
        false
    } else if spec_eq_ignore_ascii_case(actual, expected) {
        true
    } else {
        match (spec_file_name(actual), spec_file_name(expected)) {
            (Some(a), Some(e)) => {
                let (a_stem, a_ext) = spec_stem_and_extension(a);
                let (e_stem, e_ext) = spec_stem_and_extension(e);
                match (a_ext, e_ext) {
                    (Some(x), Some(y)) => {
                        let la = lowercase_spec(a_stem);
                        let le = lowercase_spec(e_stem);
                        &&& spec_eq_ignore_ascii_case(x, y)
                        &&& spec_starts_with(la, le)
                        &&& spec_is_copy_number(spec_trim(la.skip(le.len() as int)))
                    },
                    _ => false,
                }
            },
            _ => false,
        }
    }
}

/// `spec_browser_name_matches` for ASCII names, where lowercasing is
/// ASCII's.
pub open spec fn spec_browser_name_matches_ascii(actual: Seq<char>, expected: Seq<char>) -> bool {
    if spec_is_incomplete_browser_download(actual) {
        false
    } else if spec_eq_ignore_ascii_case(actual, expected) {
        true
    } else {
        match (spec_file_name(actual), spec_file_name(expected)) {
            (Some(a), Some(e)) => {
                let (a_stem, a_ext) = spec_stem_and_extension(a);
                let (e_stem, e_ext) = spec_stem_and_extension(e);
                match (a_ext, e_ext) {
                    (Some(x), Some(y)) => {
                        let la = spec_lower_seq(a_stem);
                        let le = spec_lower_seq(e_stem);
                        &&& spec_eq_ignore_ascii_case(x, y)
                        &&& spec_starts_with(la, le)
                        &&& spec_is_copy_number(spec_trim(la.skip(le.len() as int)))
                    },
                    _ => false,
                }
            },
            _ => false,
        }
    }
}

proof fn lemma_split_ascii(s: Seq<char>, sep: char)
    requires
        spec_all_ascii(s),
    ensures
        forall|k: int| 0 <= k < spec_split(s, sep).len() ==> spec_all_ascii(#[trigger] spec_split(s, sep)[k]),
    decreases s.len(),
{
    if s.len() > 0 {
        let d = s.drop_last();
        assert forall|i: int| 0 <= i < d.len() implies (#[trigger] d[i] as u32) < 0x80 by {
            assert(d[i] == s[i]);
        }
        lemma_split_ascii(d, sep);
        crate::text::lemma_split_nonempty(d, sep);
        let prev = spec_split(d, sep);
        assert((s.last() as u32) < 0x80) by {
            assert(s.last() == s[s.len() - 1]);
        }
        if s.last() != sep {
            let l = prev.last().push(s.last());
            assert(spec_all_ascii(prev[prev.len() - 1]));
            assert forall|i: int| 0 <= i < l.len() implies (#[trigger] l[i] as u32) < 0x80 by {
                if i < l.len() - 1 {
                    assert(l[i] == prev.last()[i]);
                }
            }
        }
    }
}

proof fn lemma_filter_ascii(s: Seq<Seq<char>>, p: spec_fn(Seq<char>) -> bool)
    requires
        forall|k: int| 0 <= k < s.len() ==> spec_all_ascii(#[trigger] s[k]),
    ensures
        forall|k: int| 0 <= k < s.filter(p).len() ==> spec_all_ascii(#[trigger] s.filter(p)[k]),
    decreases s.len(),
{
    reveal(Seq::filter);
    if s.len() > 0 {
        let d = s.drop_last();
        assert forall|k: int| 0 <= k < d.len() implies spec_all_ascii(#[trigger] d[k]) by {
            assert(d[k] == s[k]);
        }
        lemma_filter_ascii(d, p);
        let f = d.filter(p);
        assert(spec_all_ascii(s[s.len() - 1]));
        if p(s.last()) {
            assert(s.filter(p) == f.push(s.last()));
            assert forall|k: int| 0 <= k < s.filter(p).len() implies spec_all_ascii(#[trigger] s.filter(p)[k]) by {
                if k < f.len() {
                    assert(s.filter(p)[k] == f[k]);
                }
            }
        } else {
            assert(s.filter(p) == f);
        }
    }
}

proof fn lemma_after_last_shorter(s: Seq<char>, c: char)
    requires
        exists|i: int| 0 <= i < s.len() && s[i] == c,
    ensures
        spec_after_last(s, c).len() < s.len(),
    decreases s.len(),
{
    if s.last() != c {
        let i = choose|i: int| 0 <= i < s.len() && s[i] == c;
        assert(s.drop_last()[i] == c);
        lemma_after_last_shorter(s.drop_last(), c);
    }
}

/// The stem of an ASCII path's file name is ASCII.
proof fn lemma_stem_ascii(path: Seq<char>)
    requires
        spec_all_ascii(path),
        spec_file_name(path) is Some,
    ensures
        spec_all_ascii(spec_stem_and_extension(spec_file_name(path)->0).0),
{
    lemma_split_ascii(path, '/');
    lemma_filter_ascii(spec_split(path, '/'), |p: Seq<char>| p.len() > 0 && p != "."@);
    let parts = spec_path_parts(path);
    let name = parts.last();
    assert(spec_all_ascii(parts[parts.len() - 1]));
    let stem = spec_stem_and_extension(name).0;
    if exists|i: int| 0 <= i < name.len() && name[i] == '.' {
        lemma_after_last_shorter(name, '.');
    }
    assert(stem.len() <= name.len());
    assert forall|i: int| 0 <= i < stem.len() implies (#[trigger] stem[i] as u32) < 0x80 by {
        assert(stem[i] == name[i]);
    }
}

pub fn file_name(path: &Vec<char>) -> (r: Option<Vec<char>>)
    ensures
        match spec_file_name(path@) {
            Some(n) => r matches Some(v) && v@ == n,
            None => r is None,
        },
{
    let pieces = crate::text::split_chars(path, '/');
    let ghost ps = spec_split(path@, '/');
    let ghost keep = |p: Seq<char>| p.len() > 0 && p != "."@;
    let mut last: Option<usize> = None;
    let mut i: usize = 0;
    proof {
        reveal_strlit(".");
        reveal_strlit("..");
        assert(ps.subrange(0, 0).filter(keep) =~= Seq::<Seq<char>>::empty());
    }
    while i < pieces.len()
        invariant
            i <= pieces@.len(),
            pieces@.len() == ps.len(),
            ps == spec_split(path@, '/'),
            keep == (|p: Seq<char>| p.len() > 0 && p != "."@),
            forall|k: int| 0 <= k < pieces@.len() ==> (#[trigger] pieces@[k])@ == ps[k],
            match last {
                Some(j) => j < i && ps.subrange(0, i as int).filter(keep).len() > 0 && ps.subrange(0, i as int).filter(keep).last() == ps[j as int],
                None => ps.subrange(0, i as int).filter(keep).len() == 0,
            },
        decreases pieces@.len() - i,
    {
        let p = &pieces[i];
        let dot = p.len() == 1 && p[0] == '.';
        proof {
            assert(ps.subrange(0, i + 1).drop_last() =~= ps.subrange(0, i as int));
            assert(ps.subrange(0, i + 1).last() == ps[i as int]);
            reveal(Seq::filter);
            reveal_strlit(".");
            if p@.len() == 1 {
                assert(dot == (p@ =~= "."@));
            } else {
                assert(p@ != "."@);
            }
        }
        if p.len() > 0 && !dot {
            last = Some(i);
        }
        i += 1;
    }
    assert(ps.subrange(0, pieces@.len() as int) =~= ps);
    match last {
        Some(j) => {
            let q = &pieces[j];
            let dotdot = q.len() == 2 && q[0] == '.' && q[1] == '.';
            proof {
                reveal_strlit("..");
                if q@.len() == 2 {
                    assert(dotdot == (q@ =~= ".."@));
                } else {
                    assert(q@ != ".."@);
                }
            }
            if dotdot {
                None
            } else {
                Some(crate::text::slice_vec(q, 0, q.len()))
            }
        },
        None => None,
    }
}

proof fn lemma_after_last_split(s: Seq<char>, c: char)
    ensures
        spec_after_last(s, c).len() <= s.len(),
        (exists|i: int| 0 <= i < s.len() && s[i] == c) ==> spec_after_last(s, c).len() < s.len(),
    decreases s.len(),
{
    if s.len() > 0 {
        lemma_after_last_split(s.drop_last(), c);
        if s.last() != c && (exists|i: int| 0 <= i < s.len() && s[i] == c) {
            let i = choose|i: int| 0 <= i < s.len() && s[i] == c;
            assert(s.drop_last()[i] == c);
        }
    }
}

pub fn stem_and_extension(name: &Vec<char>) -> (r: (Vec<char>, Option<Vec<char>>))
    ensures
        r.0@ == spec_stem_and_extension(name@).0,
        match spec_stem_and_extension(name@).1 {
            Some(e) => r.1 matches Some(v) && v@ == e,
            None => r.1 is None,
        },
{
    let mut has_dot = false;
    let mut i: usize = 0;
    while i < name.len()
        invariant
            i <= name.len(),
            has_dot == exists|k: int| 0 <= k < i && name@[k] == '.',
        decreases name.len() - i,
    {
        if name[i] == '.' {
            has_dot = true;
        }
        i += 1;
    }
    let whole = crate::text::slice_vec(name, 0, name.len());
    assert(whole@ =~= name@);
    if !has_dot {
        return (whole, None);
    }
    let ext = crate::text::after_last(name, '.');
    proof {
        lemma_after_last_split(name@, '.');
    }
    let before = crate::text::slice_vec(name, 0, name.len() - ext.len() - 1);
    assert(before@ =~= name@.take(name@.len() - ext@.len() - 1));
    if before.len() == 0 {
        (whole, None)
    } else {
        (before, Some(ext))
    }
}

fn is_copy_number(s: &Vec<char>) -> (r: bool)
    ensures
        r == spec_is_copy_number(s@),
{
    if s.len() < 3 || s[0] != '(' || s[s.len() - 1] != ')' {
        return false;
    }
    let mut i: usize = 1;
    while i < s.len() - 1
        invariant
            1 <= i <= s.len() - 1,
            s.len() >= 3,
            forall|k: int| 1 <= k < i ==> spec_is_ascii_digit(#[trigger] s@[k]),
        decreases s.len() - i,
    {
        if !crate::text::is_ascii_digit(s[i]) {
            return false;
        }
        i += 1;
    }
    true
}

/// Whether the file `actual` that the browser saved is the download
/// `expected` (see `spec_browser_name_matches`).
pub fn browser_download_file_name_matches(actual: &str, expected: &str) -> (r: bool)
    ensures
        r == spec_browser_name_matches(actual@, expected@),
        spec_all_ascii(actual@) && spec_all_ascii(expected@) ==> r == spec_browser_name_matches_ascii(
            actual@,
            expected@,
        ),
{
    if is_incomplete_browser_download(actual) {
        return false;
    }
    if crate::text::str_eq_ignore_ascii_case(actual, expected) {
        return true;
    }
    let av = crate::text::chars_of(actual);
    let ev = crate::text::chars_of(expected);
    let an = match file_name(&av) {
        Some(n) => n,
        None => return false,
    };
    let en = match file_name(&ev) {
        Some(n) => n,
        None => return false,
    };
    let (a_stem, a_ext) = stem_and_extension(&an);
    let (e_stem, e_ext) = stem_and_extension(&en);
    let (x, y) = match (a_ext, e_ext) {
        (Some(x), Some(y)) => (x, y),
        _ => return false,
    };
    if !crate::text::eq_ignore_ascii_case(&x, &y) {
        return false;
    }
    let a_stem_text = crate::text::string_from(&a_stem);
    let e_stem_text = crate::text::string_from(&e_stem);
    proof {
        if spec_all_ascii(actual@) && spec_all_ascii(expected@) {
            lemma_stem_ascii(actual@);
            lemma_stem_ascii(expected@);
        }
    }
    let la_text = to_lowercase(a_stem_text.as_str());
    let le_text = to_lowercase(e_stem_text.as_str());
    let la = crate::text::chars_of(la_text.as_str());
    let le = crate::text::chars_of(le_text.as_str());
    if !crate::text::starts_with(&la, &le) {
        return false;
    }
    let n = la.len();
    let suffix = crate::text::slice_vec(&la, le.len(), n);
    assert(suffix@ =~= la@.skip(le@.len() as int));
    let t = crate::text::trimmed(&suffix);
    is_copy_number(&t)
}

/// A file the browser is still writing never counts as the download, and
/// a finished file whose name is the expected one up to ASCII case always
/// does.
pub proof fn incomplete_downloads_never_match(actual: Seq<char>, expected: Seq<char>)
    ensures
        spec_is_incomplete_browser_download(actual) ==> !spec_browser_name_matches(actual, expected),
        !spec_is_incomplete_browser_download(actual) && spec_eq_ignore_ascii_case(actual, expected)
            ==> spec_browser_name_matches(actual, expected),
{
}

} // verus!
