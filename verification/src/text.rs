//! Character-level string helpers: conversion between `String` and
//! `Vec<char>`, whitespace trimming, and URL-scheme prefix tests.
use vstd::prelude::*;

verus! {

/// Relies on str::chars and Iterator::collect: the characters of the
/// string, in order.
#[verifier::external_body]
pub fn string_to_chars(s: &str) -> (r: Vec<char>)
    ensures
        r@ == s@,
{
    s.chars().collect()
}

/// Relies on Iterator::collect for String: the string made of exactly
/// these characters, in order.
#[verifier::external_body]
pub fn chars_to_string(v: &Vec<char>) -> (r: String)
    ensures
        r@ == v@,
{
    v.iter().collect()
}

/// The Unicode `White_Space` characters, as listed for
/// `char::is_whitespace` in the standard library's documentation.
pub open spec fn is_space(c: char) -> bool {
    ||| c == ' '
    ||| c == '\t'
    ||| c == '\n'
    ||| c == '\r'
    ||| c == '\u{0B}'
    ||| c == '\u{0C}'
    ||| c == '\u{85}'
    ||| c == '\u{A0}'
    ||| c == '\u{1680}'
    ||| ('\u{2000}' <= c && c <= '\u{200A}')
    ||| c == '\u{2028}'
    ||| c == '\u{2029}'
    ||| c == '\u{202F}'
    ||| c == '\u{205F}'
    ||| c == '\u{3000}'
}

pub fn is_space_char(c: char) -> (r: bool)
    ensures
        r == is_space(c),
{
    c == ' ' || c == '\t' || c == '\n' || c == '\r' || c == '\u{0B}' || c == '\u{0C}' || c
        == '\u{85}' || c == '\u{A0}' || c == '\u{1680}' || ('\u{2000}' <= c && c <= '\u{200A}') || c
        == '\u{2028}' || c == '\u{2029}' || c == '\u{202F}' || c == '\u{205F}' || c == '\u{3000}'
}

/// `s` with leading whitespace removed.
pub open spec fn trim_front(s: Seq<char>) -> Seq<char>
    decreases s.len(),
{
    if s.len() > 0 && is_space(s[0]) {
        trim_front(s.drop_first())
    } else {
        s
    }
}

/// `s` with trailing whitespace removed.
pub open spec fn trim_back(s: Seq<char>) -> Seq<char>
    decreases s.len(),
{
    if s.len() > 0 && is_space(s.last()) {
        trim_back(s.drop_last())
    } else {
        s
    }
}

/// `s` with surrounding whitespace removed, as `str::trim` leaves it.
pub open spec fn trim_spec(s: Seq<char>) -> Seq<char> {
    trim_back(trim_front(s))
}

proof fn lemma_trim_front_skip(s: Seq<char>, i: int)
    requires
        0 <= i <= s.len(),
        forall|k: int| 0 <= k < i ==> is_space(#[trigger] s[k]),
    ensures
        trim_front(s) == trim_front(s.subrange(i, s.len() as int)),
    decreases i,
{
    if i == 0 {
        assert(s.subrange(0, s.len() as int) =~= s);
    } else {
        assert(is_space(s[0]));
        assert(trim_front(s) == trim_front(s.drop_first()));
        let t = s.drop_first();
        assert(forall|k: int| 0 <= k < i - 1 ==> is_space(#[trigger] t[k])) by {
            assert(forall|k: int| 0 <= k < i - 1 ==> t[k] == #[trigger] s[k + 1]);
        }
        lemma_trim_front_skip(t, i - 1);
        assert(t.subrange(i - 1, t.len() as int) =~= s.subrange(i, s.len() as int));
    }
}

proof fn lemma_trim_back_skip(s: Seq<char>, j: int)
    requires
        0 <= j <= s.len(),
        forall|k: int| j <= k < s.len() ==> is_space(#[trigger] s[k]),
    ensures
        trim_back(s) == trim_back(s.subrange(0, j)),
    decreases s.len() - j,
{
    if j == s.len() {
        assert(s.subrange(0, j) =~= s);
    } else {
        assert(is_space(s.last()));
        assert(trim_back(s) == trim_back(s.drop_last()));
        let t = s.drop_last();
        lemma_trim_back_skip(t, j);
        assert(t.subrange(0, j) =~= s.subrange(0, j));
    }
}

/// Removes surrounding whitespace, like `str::trim`.
pub fn trim_chars(v: &Vec<char>) -> (r: Vec<char>)
    ensures
        r@ == trim_spec(v@),
{
    let n = v.len();
    let mut i: usize = 0;
    while i < n && is_space_char(v[i])
        invariant
            0 <= i <= n == v@.len(),
            forall|k: int| 0 <= k < i ==> is_space(#[trigger] v@[k]),
        decreases n - i,
    {
        i = i + 1;
    }
    let mut j: usize = n;
    while j > i && is_space_char(v[j - 1])
        invariant
            i <= j <= n == v@.len(),
            forall|k: int| j <= k < n ==> is_space(#[trigger] v@[k]),
        decreases j,
    {
        j = j - 1;
    }
    let mut out: Vec<char> = Vec::new();
    let mut k: usize = i;
    while k < j
        invariant
            i <= k <= j <= v@.len(),
            out@ == v@.subrange(i as int, k as int),
        decreases j - k,
    {
        out.push(v[k]);
        proof {
            assert(out@ =~= v@.subrange(i as int, k + 1));
        }
        k = k + 1;
    }
    proof {
        let s = v@;
        lemma_trim_front_skip(s, i as int);
        let t = s.subrange(i as int, s.len() as int);
        if i == n {
            assert(t.len() == 0);
            assert(trim_front(s) == t);
            assert(trim_back(t) == t);
            assert(out@ =~= t);
        } else {
            assert(!is_space(s[i as int]));
            assert(t[0] == s[i as int]);
            assert(trim_front(s) == t);
            // trailing spaces of t are the trailing spaces of s
            assert(forall|k2: int| j - i <= k2 < t.len() ==> is_space(#[trigger] t[k2])) by {
                assert(forall|k2: int|
                    j - i <= k2 < t.len() ==> t[k2] == #[trigger] s[k2 + i]);
            }
            lemma_trim_back_skip(t, j - i);
            let u = t.subrange(0, j - i);
            assert(u =~= s.subrange(i as int, j as int));
            if j > i {
                assert(!is_space(s[j - 1]));
                assert(u.len() > 0 && u.last() == s[j - 1]);
                assert(trim_back(u) == u);
            } else {
                assert(u.len() == 0);
                assert(trim_back(u) == u);
            }
            assert(out@ =~= u);
        }
    }
    out
}

pub open spec fn scheme_http() -> Seq<char> {
    seq!['h', 't', 't', 'p', ':', '/', '/']
}

pub open spec fn scheme_https() -> Seq<char> {
    seq!['h', 't', 't', 'p', 's', ':', '/', '/']
}

pub open spec fn has_prefix(s: Seq<char>, p: Seq<char>) -> bool {
    s.len() >= p.len() && s.subrange(0, p.len() as int) == p
}

/// Whether `s` already begins with `http://` or `https://`.
pub open spec fn has_url_scheme(s: Seq<char>) -> bool {
    has_prefix(s, scheme_http()) || has_prefix(s, scheme_https())
}

pub fn starts_with_url_scheme(v: &Vec<char>) -> (r: bool)
    ensures
        r == has_url_scheme(v@),
{
    let http_ok = v.len() >= 7 && v[0] == 'h' && v[1] == 't' && v[2] == 't' && v[3] == 'p' && v[4]
        == ':' && v[5] == '/' && v[6] == '/';
    let https_ok = v.len() >= 8 && v[0] == 'h' && v[1] == 't' && v[2] == 't' && v[3] == 'p' && v[4]
        == 's' && v[5] == ':' && v[6] == '/' && v[7] == '/';
    proof {
        if http_ok {
            assert(v@.subrange(0, 7) =~= scheme_http());
        } else if v@.len() >= 7 && v@.subrange(0, 7) == scheme_http() {
            assert(forall|k: int|
                0 <= k < 7 ==> v@[k] == #[trigger] scheme_http()[k]);
            assert(false);
        }
        if https_ok {
            assert(v@.subrange(0, 8) =~= scheme_https());
        } else if v@.len() >= 8 && v@.subrange(0, 8) == scheme_https() {
            assert(forall|k: int|
                0 <= k < 8 ==> v@[k] == #[trigger] scheme_https()[k]);
            assert(false);
        }
    }
    http_ok || https_ok
}

} // verus!
