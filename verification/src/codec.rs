//! The persisted history format: a compact JSON rendering of the
//! history list, written and read entirely by verified code, with the
//! round-trip laws that make reloading faithful.
//!
//! Strings are quoted with `"`, `\`, newline, carriage return and tab
//! escaped by name and every other control character as `\u00XX`;
//! numbers are plain decimals; the layout carries no whitespace.
use vstd::prelude::*;
use crate::model::{
    rows_view, pairs_view, BodyType, HTTPMethod, HistoryItem, HistoryItemView, HttpRequest,
    HttpResponse, KeyValue, KeyValueView, RequestView, ResponseView,
};
use crate::num::{dec_rep, dec_val, digit_val, is_dec_digit, push_decimal, scan_u128_s};
use crate::text::{chars_to_string, string_to_chars};

verus! {

/// The character for one hexadecimal digit, lower case.
pub open spec fn hex_char(d: int) -> char {
    if d < 10 {
        crate::num::digit_char(d)
    } else if d == 10 {
        'a'
    } else if d == 11 {
        'b'
    } else if d == 12 {
        'c'
    } else if d == 13 {
        'd'
    } else if d == 14 {
        'e'
    } else {
        'f'
    }
}

pub open spec fn is_hex_digit(c: char) -> bool {
    is_dec_digit(c) || ('a' <= c && c <= 'f') || ('A' <= c && c <= 'F')
}

pub open spec fn hex_val(c: char) -> int {
    if is_dec_digit(c) {
        digit_val(c)
    } else if 'a' <= c && c <= 'f' {
        c as int - 'a' as int + 10
    } else {
        c as int - 'A' as int + 10
    }
}

/// A `char` parameter carries its typing invariant: its scalar value
/// is in range, and the narrowing cast to `u32` keeps it.
pub proof fn lemma_char_range(c: char)
    ensures
        0 <= (c as int) && (c as int) < 0x110000,
        c as int == c as u32 as int,
{
}

pub proof fn lemma_hex_char_val(d: int)
    requires
        0 <= d < 16,
    ensures
        is_hex_digit(hex_char(d)),
        hex_val(hex_char(d)) == d,
        !is_dec_digit(hex_char(d)) || digit_val(hex_char(d)) == d,
{
}

/// The escape of one character inside a quoted string.
pub open spec fn esc_char(c: char) -> Seq<char> {
    if c == '"' {
        seq!['\\', '"']
    } else if c == '\\' {
        seq!['\\', '\\']
    } else if c == '\n' {
        seq!['\\', 'n']
    } else if c == '\r' {
        seq!['\\', 'r']
    } else if c == '\t' {
        seq!['\\', 't']
    } else if (c as int) < 32 {
        seq!['\\', 'u', '0', '0', hex_char(c as int / 16), hex_char(c as int % 16)]
    } else {
        seq![c]
    }
}

/// The escaped body of a quoted string.
pub open spec fn esc_chars(s: Seq<char>) -> Seq<char>
    decreases s.len(),
{
    if s.len() == 0 {
        Seq::empty()
    } else {
        esc_char(s[0]) + esc_chars(s.drop_first())
    }
}

/// A whole quoted string.
pub open spec fn enc_string(s: Seq<char>) -> Seq<char> {
    seq!['"'] + esc_chars(s) + seq!['"']
}

pub proof fn lemma_esc_chars_snoc(s: Seq<char>, c: char)
    ensures
        esc_chars(s.push(c)) == esc_chars(s) + esc_char(c),
    decreases s.len(),
{
    let t = s.push(c);
    if s.len() == 0 {
        assert(t.drop_first() =~= Seq::<char>::empty());
        assert(t[0] == c);
        assert(esc_chars(t.drop_first()) == Seq::<char>::empty());
        assert(esc_chars(t) == esc_char(c) + Seq::<char>::empty());
        assert(esc_char(c) + Seq::<char>::empty() =~= esc_char(c));
        assert(esc_chars(s) == Seq::<char>::empty());
        assert(esc_chars(s) + esc_char(c) =~= esc_char(c));
    } else {
        assert(t.drop_first() =~= s.drop_first().push(c));
        assert(t[0] == s[0]);
        lemma_esc_chars_snoc(s.drop_first(), c);
        assert(esc_char(s[0]) + (esc_chars(s.drop_first()) + esc_char(c)) =~= (esc_char(s[0])
            + esc_chars(s.drop_first())) + esc_char(c));
    }
}

/// The string-body parser: consumes escaped characters up to the
/// closing quote, which it also consumes.
pub open spec fn p_str_body(s: Seq<char>, i: int) -> Option<(Seq<char>, int)>
    decreases s.len() - i,
{
    if i < 0 || i >= s.len() {
        None
    } else if s[i] == '"' {
        Some((Seq::empty(), i + 1))
    } else if s[i] == '\\' {
        if i + 1 >= s.len() {
            None
        } else if s[i + 1] == '"' || s[i + 1] == '\\' || s[i + 1] == 'n' || s[i + 1] == 'r' || s[i
            + 1] == 't' {
            let c = if s[i + 1] == '"' {
                '"'
            } else if s[i + 1] == '\\' {
                '\\'
            } else if s[i + 1] == 'n' {
                '\n'
            } else if s[i + 1] == 'r' {
                '\r'
            } else {
                '\t'
            };
            match p_str_body(s, i + 2) {
                Some((w, j)) => Some((seq![c] + w, j)),
                None => None,
            }
        } else if s[i + 1] == 'u' {
            if i + 6 <= s.len() && is_hex_digit(s[i + 2]) && is_hex_digit(s[i + 3]) && is_hex_digit(
                s[i + 4],
            ) && is_hex_digit(s[i + 5]) {
                let v = hex_val(s[i + 2]) * 4096 + hex_val(s[i + 3]) * 256 + hex_val(s[i + 4]) * 16
                    + hex_val(s[i + 5]);
                if 0xD800 <= v < 0xE000 {
                    None
                } else {
                    match p_str_body(s, i + 6) {
                        Some((w, j)) => Some((seq![v as char] + w, j)),
                        None => None,
                    }
                }
            } else {
                None
            }
        } else {
            None
        }
    } else {
        match p_str_body(s, i + 1) {
            Some((w, j)) => Some((seq![s[i]] + w, j)),
            None => None,
        }
    }
}

/// The quoted-string parser.
pub open spec fn p_string(s: Seq<char>, i: int) -> Option<(Seq<char>, int)> {
    if 0 <= i < s.len() && s[i] == '"' {
        p_str_body(s, i + 1)
    } else {
        None
    }
}

/// The escaped body followed by a closing quote parses back to
/// exactly the original characters.
pub proof fn lemma_p_str_body_of_esc(v: Seq<char>, s: Seq<char>, i: int)
    requires
        0 <= i,
        i + esc_chars(v).len() < s.len(),
        s.subrange(i, i + esc_chars(v).len() as int) == esc_chars(v),
        s[i + esc_chars(v).len()] == '"',
    ensures
        p_str_body(s, i) == Some((v, i + esc_chars(v).len() + 1)),
    decreases v.len(),
{
    let e = esc_chars(v);
    if v.len() == 0 {
        assert(e.len() == 0);
        assert(s[i] == '"');
        assert(p_str_body(s, i) == Some((Seq::<char>::empty(), i + 1)));
        assert(v =~= Seq::<char>::empty());
    } else {
        let c = v[0];
        let e0 = esc_char(c);
        let erest = esc_chars(v.drop_first());
        assert(e == e0 + erest);
        assert forall|k: int| 0 <= k < e.len() implies s[i + k] == #[trigger] e[k] by {
            assert(e[k] == s.subrange(i, i + e.len() as int)[k]);
        }
        assert forall|k: int| 0 <= k < e0.len() implies s[i + k] == #[trigger] e0[k] by {
            assert(e[k] == e0[k]);
        }
        let i2 = i + e0.len() as int;
        assert(s.subrange(i2, i2 + erest.len() as int) =~= erest) by {
            assert forall|k: int|
                0 <= k < erest.len() implies s.subrange(i2, i2 + erest.len() as int)[k]
                == #[trigger] erest[k] by {
                assert(s.subrange(i2, i2 + erest.len() as int)[k] == s[i2 + k]);
                assert(e[e0.len() + k] == erest[k]);
                assert(s[i + (e0.len() + k)] == e[e0.len() + k]);
            }
        }
        lemma_p_str_body_of_esc(v.drop_first(), s, i2);
        assert(p_str_body(s, i2) == Some((v.drop_first(), i + e.len() + 1)));
        if c == '"' || c == '\\' || c == '\n' || c == '\r' || c == '\t' {
            assert(s[i] == '\\');
            assert(p_str_body(s, i) == Some((seq![c] + v.drop_first(), i + e.len() + 1)));
        } else if (c as int) < 32 {
            assert(s[i] == '\\' && s[i + 1] == 'u' && s[i + 2] == '0' && s[i + 3] == '0');
            assert(s[i + 4] == hex_char(c as int / 16) && s[i + 5] == hex_char(c as int % 16));
            lemma_char_range(c);
            assert(0 <= (c as int) && (c as int) < 32);
            lemma_hex_char_val(c as int / 16);
            lemma_hex_char_val(c as int % 16);
            assert(hex_val(s[i + 2]) == 0 && hex_val(s[i + 3]) == 0);
            let val = hex_val(s[i + 2]) * 4096 + hex_val(s[i + 3]) * 256 + hex_val(s[i + 4]) * 16
                + hex_val(s[i + 5]);
            assert(val == (c as int / 16) * 16 + (c as int % 16));
            assert(val == c as int);
            assert(0 <= val < 32);
            assert((val as char) == c);
            assert(p_str_body(s, i) == Some((seq![c] + v.drop_first(), i + e.len() + 1)));
        } else {
            assert(e0 =~= seq![c]);
            assert(e0[0] == c);
            assert(s[i + 0] == e0[0]);
            assert(s[i] == c);
            assert(s[i] != '"' && s[i] != '\\');
            assert(p_str_body(s, i) == Some((seq![c] + v.drop_first(), i + e.len() + 1)));
        }
        assert(seq![c] + v.drop_first() =~= v);
    }
}

/// A signed decimal: a minus sign for negative values, then the
/// magnitude's digits.
pub open spec fn enc_i64(n: i64) -> Seq<char> {
    if n < 0 {
        seq!['-'] + dec_rep((-(n as int)) as nat)
    } else {
        dec_rep(n as nat)
    }
}

pub open spec fn enc_bool(b: bool) -> Seq<char> {
    if b {
        seq!['t', 'r', 'u', 'e']
    } else {
        seq!['f', 'a', 'l', 's', 'e']
    }
}

/// Expects the exact characters of `lit` at `i`.
pub open spec fn p_lit(s: Seq<char>, i: int, lit: Seq<char>) -> Option<int> {
    if 0 <= i && i + lit.len() <= s.len() && s.subrange(i, i + lit.len() as int) == lit {
        Some(i + lit.len() as int)
    } else {
        None
    }
}

/// An unsigned decimal run; fails on no digit or on overflow.
pub open spec fn p_u128(s: Seq<char>, i: int) -> Option<(u128, int)> {
    if 0 <= i < s.len() && is_dec_digit(s[i]) {
        scan_u128_s(s, i, 0)
    } else {
        None
    }
}

pub open spec fn p_u64(s: Seq<char>, i: int) -> Option<(u64, int)> {
    match p_u128(s, i) {
        Some((v, j)) => if v <= u64::MAX as u128 {
            Some((v as u64, j))
        } else {
            None
        },
        None => None,
    }
}

pub open spec fn p_u16(s: Seq<char>, i: int) -> Option<(u16, int)> {
    match p_u128(s, i) {
        Some((v, j)) => if v <= u16::MAX as u128 {
            Some((v as u16, j))
        } else {
            None
        },
        None => None,
    }
}

pub open spec fn p_i64(s: Seq<char>, i: int) -> Option<(i64, int)> {
    if 0 <= i < s.len() && s[i] == '-' {
        match p_u128(s, i + 1) {
            Some((v, j)) => if v <= 0x8000000000000000u128 {
                Some(((-(v as int)) as i64, j))
            } else {
                None
            },
            None => None,
        }
    } else {
        match p_u128(s, i) {
            Some((v, j)) => if v <= i64::MAX as u128 {
                Some((v as i64, j))
            } else {
                None
            },
            None => None,
        }
    }
}

pub open spec fn p_bool(s: Seq<char>, i: int) -> Option<(bool, int)> {
    if p_lit(s, i, enc_bool(true)) is Some {
        Some((true, i + 4))
    } else if p_lit(s, i, enc_bool(false)) is Some {
        Some((false, i + 5))
    } else {
        None
    }
}

/// A method name, quoted.
pub open spec fn enc_method(m: HTTPMethod) -> Seq<char> {
    seq!['"'] + m.label_spec() + seq!['"']
}

pub open spec fn p_method(s: Seq<char>, i: int) -> Option<(HTTPMethod, int)> {
    if p_lit(s, i, enc_method(HTTPMethod::GET)) is Some {
        Some((HTTPMethod::GET, i + 5))
    } else if p_lit(s, i, enc_method(HTTPMethod::POST)) is Some {
        Some((HTTPMethod::POST, i + 6))
    } else if p_lit(s, i, enc_method(HTTPMethod::PUT)) is Some {
        Some((HTTPMethod::PUT, i + 5))
    } else if p_lit(s, i, enc_method(HTTPMethod::PATCH)) is Some {
        Some((HTTPMethod::PATCH, i + 7))
    } else if p_lit(s, i, enc_method(HTTPMethod::DELETE)) is Some {
        Some((HTTPMethod::DELETE, i + 8))
    } else {
        None
    }
}

/// A body-type name, quoted, as its on-screen label.
pub open spec fn enc_body_type(b: BodyType) -> Seq<char> {
    seq!['"'] + b.label_spec() + seq!['"']
}

pub open spec fn p_body_type(s: Seq<char>, i: int) -> Option<(BodyType, int)> {
    if p_lit(s, i, enc_body_type(BodyType::NoBody)) is Some {
        Some((BodyType::NoBody, i + 6))
    } else if p_lit(s, i, enc_body_type(BodyType::Raw)) is Some {
        Some((BodyType::Raw, i + 5))
    } else if p_lit(s, i, enc_body_type(BodyType::Json)) is Some {
        Some((BodyType::Json, i + 6))
    } else {
        None
    }
}

/// Splitting a matched concatenation: where a stretch of `s` reads
/// `a + b`, its two halves read `a` and `b`.
pub proof fn lemma_subrange_cat(s: Seq<char>, i: int, a: Seq<char>, b: Seq<char>)
    requires
        0 <= i,
        i + a.len() + b.len() <= s.len(),
        s.subrange(i, i + a.len() + b.len()) == a + b,
    ensures
        s.subrange(i, i + a.len() as int) == a,
        s.subrange(i + a.len() as int, i + a.len() + b.len()) == b,
{
    let ab = a + b;
    assert forall|k: int| 0 <= k < ab.len() implies s[i + k] == #[trigger] ab[k] by {
        assert(ab[k] == s.subrange(i, i + ab.len() as int)[k]);
    }
    assert(s.subrange(i, i + a.len() as int) =~= a) by {
        assert forall|k: int| 0 <= k < a.len() implies s.subrange(i, i + a.len() as int)[k]
            == #[trigger] a[k] by {
            assert(s.subrange(i, i + a.len() as int)[k] == s[i + k]);
            assert(ab[k] == a[k]);
        }
    }
    assert(s.subrange(i + a.len() as int, i + a.len() + b.len()) =~= b) by {
        assert forall|k: int|
            0 <= k < b.len() implies s.subrange(i + a.len() as int, i + a.len() + b.len())[k]
            == #[trigger] b[k] by {
            assert(s.subrange(i + a.len() as int, i + a.len() + b.len())[k] == s[i + a.len() + k]);
            assert(ab[a.len() + k] == b[k]);
        }
    }
}

pub proof fn lemma_p_lit_of(s: Seq<char>, i: int, lit: Seq<char>)
    requires
        0 <= i,
        i + lit.len() <= s.len(),
        s.subrange(i, i + lit.len() as int) == lit,
    ensures
        p_lit(s, i, lit) == Some(i + lit.len() as int),
{
}

/// A rendered unsigned number, followed by a non-digit, parses back
/// to itself.
pub proof fn lemma_p_u128_of_enc(n: u128, s: Seq<char>, i: int)
    requires
        0 <= i,
        i + dec_rep(n as nat).len() <= s.len(),
        s.subrange(i, i + dec_rep(n as nat).len() as int) == dec_rep(n as nat),
        i + dec_rep(n as nat).len() == s.len() || !is_dec_digit(s[i + dec_rep(n as nat).len()]),
    ensures
        p_u128(s, i) == Some((n, i + dec_rep(n as nat).len())),
{
    let d = dec_rep(n as nat);
    let j = i + d.len() as int;
    crate::num::lemma_dec_rep_digits(n as nat);
    crate::num::lemma_dec_val_rep(n as nat);
    assert forall|k: int| 0 <= k < d.len() implies s[i + k] == #[trigger] d[k] by {
        assert(d[k] == s.subrange(i, i + d.len() as int)[k]);
    }
    assert(s.subrange(i, j) == d);
    assert(all_digits_range(s, i, j)) by {
        assert forall|k: int| i <= k < j implies is_dec_digit(#[trigger] s[k]) by {
            assert(s[k] == d[k - i]);
        }
    }
    assert(crate::num::all_digits(s.subrange(i, j))) by {
        assert forall|k: int|
            0 <= k < s.subrange(i, j).len() implies is_dec_digit(#[trigger] s.subrange(i, j)[k]) by {
            assert(s.subrange(i, j)[k] == s[i + k]);
            assert(s[i + k] == d[k]);
        }
    }
    assert(dec_val(s.subrange(i, j)) == n);
    crate::num::lemma_pow10_pos(((j - i)) as nat);
    assert(0 * crate::num::pow10((j - i) as nat) == 0) by (nonlinear_arith);
    crate::num::lemma_scan_digits(s, i, j, 0);
    assert(is_dec_digit(s[i])) by {
        assert(d.len() >= 1);
        assert(s[i + 0] == d[0]);
    }
}

pub open spec fn all_digits_range(s: Seq<char>, i: int, j: int) -> bool {
    forall|k: int| i <= k < j ==> is_dec_digit(#[trigger] s[k])
}

pub proof fn lemma_p_u64_of_enc(n: u64, s: Seq<char>, i: int)
    requires
        0 <= i,
        i + dec_rep(n as nat).len() <= s.len(),
        s.subrange(i, i + dec_rep(n as nat).len() as int) == dec_rep(n as nat),
        i + dec_rep(n as nat).len() == s.len() || !is_dec_digit(s[i + dec_rep(n as nat).len()]),
    ensures
        p_u64(s, i) == Some((n, i + dec_rep(n as nat).len())),
{
    lemma_p_u128_of_enc(n as u128, s, i);
}

pub proof fn lemma_p_u16_of_enc(n: u16, s: Seq<char>, i: int)
    requires
        0 <= i,
        i + dec_rep(n as nat).len() <= s.len(),
        s.subrange(i, i + dec_rep(n as nat).len() as int) == dec_rep(n as nat),
        i + dec_rep(n as nat).len() == s.len() || !is_dec_digit(s[i + dec_rep(n as nat).len()]),
    ensures
        p_u16(s, i) == Some((n, i + dec_rep(n as nat).len())),
{
    lemma_p_u128_of_enc(n as u128, s, i);
}

pub proof fn lemma_p_i64_of_enc(n: i64, s: Seq<char>, i: int)
    requires
        0 <= i,
        i + enc_i64(n).len() <= s.len(),
        s.subrange(i, i + enc_i64(n).len() as int) == enc_i64(n),
        i + enc_i64(n).len() == s.len() || !is_dec_digit(s[i + enc_i64(n).len()]),
    ensures
        p_i64(s, i) == Some((n, i + enc_i64(n).len())),
{
    let e = enc_i64(n);
    assert forall|k: int| 0 <= k < e.len() implies s[i + k] == #[trigger] e[k] by {
        assert(e[k] == s.subrange(i, i + e.len() as int)[k]);
    }
    if n < 0 {
        let m = (-(n as int)) as nat;
        let d = dec_rep(m);
        assert(e == seq!['-'] + d);
        assert(s[i] == '-') by {
            assert(e[0] == '-');
        }
        lemma_subrange_cat(s, i, seq!['-'], d);
        crate::num::lemma_dec_rep_digits(m);
        assert(m <= 0x8000000000000000);
        lemma_p_u128_of_enc(m as u128, s, i + 1);
        assert((-(m as int)) as i64 == n);
    } else {
        let d = dec_rep(n as nat);
        assert(s[i] != '-') by {
            crate::num::lemma_dec_rep_digits(n as nat);
            assert(e[0] == d[0]);
            assert(is_dec_digit(d[0]));
        }
        lemma_p_u128_of_enc(n as u128, s, i);
    }
}

pub proof fn lemma_p_bool_of_enc(b: bool, s: Seq<char>, i: int)
    requires
        0 <= i,
        i + enc_bool(b).len() <= s.len(),
        s.subrange(i, i + enc_bool(b).len() as int) == enc_bool(b),
    ensures
        p_bool(s, i) == Some((b, i + enc_bool(b).len())),
{
    let e = enc_bool(b);
    assert forall|k: int| 0 <= k < e.len() implies s[i + k] == #[trigger] e[k] by {
        assert(e[k] == s.subrange(i, i + e.len() as int)[k]);
    }
    if b {
        lemma_p_lit_of(s, i, enc_bool(true));
    } else {
        assert(s[i] == 'f');
        if p_lit(s, i, enc_bool(true)) is Some {
            assert(s.subrange(i, i + 4) == enc_bool(true));
            assert(s.subrange(i, i + 4)[0] == 't');
            assert(false);
        }
        lemma_p_lit_of(s, i, enc_bool(false));
    }
}

pub proof fn lemma_p_method_of_enc(m: HTTPMethod, s: Seq<char>, i: int)
    requires
        0 <= i,
        i + enc_method(m).len() <= s.len(),
        s.subrange(i, i + enc_method(m).len() as int) == enc_method(m),
    ensures
        p_method(s, i) == Some((m, i + enc_method(m).len())),
{
    let e = enc_method(m);
    assert forall|k: int| 0 <= k < e.len() implies s[i + k] == #[trigger] e[k] by {
        assert(e[k] == s.subrange(i, i + e.len() as int)[k]);
    }
    // which name stands at i + 1 decides every candidate in turn
    if m == HTTPMethod::GET {
        lemma_p_lit_of(s, i, enc_method(HTTPMethod::GET));
    } else {
        if p_lit(s, i, enc_method(HTTPMethod::GET)) is Some {
            assert(s.subrange(i, i + 5)[1] == 'G');
            assert(e[1] != 'G');
            assert(false);
        }
        if m == HTTPMethod::POST {
            lemma_p_lit_of(s, i, enc_method(HTTPMethod::POST));
        } else {
            if p_lit(s, i, enc_method(HTTPMethod::POST)) is Some {
                assert(s.subrange(i, i + 6)[2] == 'O');
                assert(e[2] != 'O');
                assert(false);
            }
            if m == HTTPMethod::PUT {
                lemma_p_lit_of(s, i, enc_method(HTTPMethod::PUT));
            } else {
                if p_lit(s, i, enc_method(HTTPMethod::PUT)) is Some {
                    assert(s.subrange(i, i + 5)[2] == 'U');
                    assert(e[2] != 'U');
                    assert(false);
                }
                if m == HTTPMethod::PATCH {
                    lemma_p_lit_of(s, i, enc_method(HTTPMethod::PATCH));
                } else {
                    if p_lit(s, i, enc_method(HTTPMethod::PATCH)) is Some {
                        assert(s.subrange(i, i + 7)[1] == 'P');
                        assert(e[1] != 'P');
                        assert(false);
                    }
                    lemma_p_lit_of(s, i, enc_method(HTTPMethod::DELETE));
                }
            }
        }
    }
}

pub proof fn lemma_p_body_type_of_enc(b: BodyType, s: Seq<char>, i: int)
    requires
        0 <= i,
        i + enc_body_type(b).len() <= s.len(),
        s.subrange(i, i + enc_body_type(b).len() as int) == enc_body_type(b),
    ensures
        p_body_type(s, i) == Some((b, i + enc_body_type(b).len())),
{
    let e = enc_body_type(b);
    assert forall|k: int| 0 <= k < e.len() implies s[i + k] == #[trigger] e[k] by {
        assert(e[k] == s.subrange(i, i + e.len() as int)[k]);
    }
    if b == BodyType::NoBody {
        lemma_p_lit_of(s, i, enc_body_type(BodyType::NoBody));
    } else {
        if p_lit(s, i, enc_body_type(BodyType::NoBody)) is Some {
            assert(s.subrange(i, i + 6)[1] == 'N');
            assert(e[1] != 'N');
            assert(false);
        }
        if b == BodyType::Raw {
            lemma_p_lit_of(s, i, enc_body_type(BodyType::Raw));
        } else {
            if p_lit(s, i, enc_body_type(BodyType::Raw)) is Some {
                assert(s.subrange(i, i + 5)[1] == 'R');
                assert(e[1] != 'R');
                assert(false);
            }
            lemma_p_lit_of(s, i, enc_body_type(BodyType::Json));
        }
    }
}

/// A whole quoted string parses back to its characters.
pub proof fn lemma_p_string_of_enc(v: Seq<char>, s: Seq<char>, i: int)
    requires
        0 <= i,
        i + enc_string(v).len() <= s.len(),
        s.subrange(i, i + enc_string(v).len() as int) == enc_string(v),
    ensures
        p_string(s, i) == Some((v, i + enc_string(v).len())),
{
    let e = enc_string(v);
    let body = esc_chars(v);
    assert(e == (seq!['"'] + body) + seq!['"']);
    lemma_subrange_cat(s, i, seq!['"'] + body, seq!['"']);
    lemma_subrange_cat(s, i, seq!['"'], body);
    assert(s[i] == '"') by {
        assert(s.subrange(i, i + 1)[0] == seq!['"'][0]);
    }
    assert(s[i + 1 + body.len()] == '"') by {
        assert(s.subrange(i + 1 + body.len(), i + e.len() as int)[0] == seq!['"'][0]);
    }
    lemma_p_str_body_of_esc(v, s, i + 1);
}

pub open spec fn l_kv_key() -> Seq<char> {
    seq!['{', '"', 'k', 'e', 'y', '"', ':']
}

pub open spec fn l_kv_value() -> Seq<char> {
    seq![',', '"', 'v', 'a', 'l', 'u', 'e', '"', ':']
}

pub open spec fn l_kv_enabled() -> Seq<char> {
    seq![',', '"', 'e', 'n', 'a', 'b', 'l', 'e', 'd', '"', ':']
}

/// One key/value row as an object.
pub open spec fn enc_kv(kv: KeyValueView) -> Seq<char> {
    l_kv_key() + enc_string(kv.key) + l_kv_value() + enc_string(kv.value) + l_kv_enabled()
        + enc_bool(kv.enabled) + seq!['}']
}

pub open spec fn p_kv(s: Seq<char>, i: int) -> Option<(KeyValueView, int)> {
    match p_lit(s, i, l_kv_key()) {
        Some(j0) => match p_string(s, j0) {
            Some((key, j1)) => match p_lit(s, j1, l_kv_value()) {
                Some(j2) => match p_string(s, j2) {
                    Some((value, j3)) => match p_lit(s, j3, l_kv_enabled()) {
                        Some(j4) => match p_bool(s, j4) {
                            Some((enabled, j5)) => match p_lit(s, j5, seq!['}']) {
                                Some(j6) => Some((KeyValueView { key, value, enabled }, j6)),
                                None => None,
                            },
                            None => None,
                        },
                        None => None,
                    },
                    None => None,
                },
                None => None,
            },
            None => None,
        },
        None => None,
    }
}

pub proof fn lemma_p_kv_of_enc(kv: KeyValueView, s: Seq<char>, i: int)
    requires
        0 <= i,
        i + enc_kv(kv).len() <= s.len(),
        s.subrange(i, i + enc_kv(kv).len() as int) == enc_kv(kv),
    ensures
        p_kv(s, i) == Some((kv, i + enc_kv(kv).len())),
{
    let e = enc_kv(kv);
    let x5 = l_kv_key() + enc_string(kv.key) + l_kv_value() + enc_string(kv.value)
        + l_kv_enabled() + enc_bool(kv.enabled);
    let x4 = l_kv_key() + enc_string(kv.key) + l_kv_value() + enc_string(kv.value)
        + l_kv_enabled();
    let x3 = l_kv_key() + enc_string(kv.key) + l_kv_value() + enc_string(kv.value);
    let x2 = l_kv_key() + enc_string(kv.key) + l_kv_value();
    let x1 = l_kv_key() + enc_string(kv.key);
    lemma_subrange_cat(s, i, x5, seq!['}']);
    lemma_subrange_cat(s, i, x4, enc_bool(kv.enabled));
    lemma_subrange_cat(s, i, x3, l_kv_enabled());
    lemma_subrange_cat(s, i, x2, enc_string(kv.value));
    lemma_subrange_cat(s, i, x1, l_kv_value());
    lemma_subrange_cat(s, i, l_kv_key(), enc_string(kv.key));
    lemma_p_lit_of(s, i, l_kv_key());
    let j0 = i + l_kv_key().len() as int;
    lemma_p_string_of_enc(kv.key, s, j0);
    let j1 = i + x1.len() as int;
    lemma_p_lit_of(s, j1, l_kv_value());
    let j2 = i + x2.len() as int;
    lemma_p_string_of_enc(kv.value, s, j2);
    let j3 = i + x3.len() as int;
    lemma_p_lit_of(s, j3, l_kv_enabled());
    let j4 = i + x4.len() as int;
    lemma_p_bool_of_enc(kv.enabled, s, j4);
    let j5 = i + x5.len() as int;
    lemma_p_lit_of(s, j5, seq!['}']);
    assert(p_kv(s, i) == Some((KeyValueView { key: kv.key, value: kv.value, enabled: kv.enabled }, i
        + e.len())));
    assert((KeyValueView { key: kv.key, value: kv.value, enabled: kv.enabled }) == kv);
}

/// One response-header pair, `"name":"value"`.
pub open spec fn enc_pair(p: (Seq<char>, Seq<char>)) -> Seq<char> {
    enc_string(p.0) + seq![':'] + enc_string(p.1)
}

pub open spec fn p_pair(s: Seq<char>, i: int) -> Option<((Seq<char>, Seq<char>), int)> {
    match p_string(s, i) {
        Some((k, j0)) => match p_lit(s, j0, seq![':']) {
            Some(j1) => match p_string(s, j1) {
                Some((v, j2)) => Some(((k, v), j2)),
                None => None,
            },
            None => None,
        },
        None => None,
    }
}

pub proof fn lemma_p_pair_of_enc(p: (Seq<char>, Seq<char>), s: Seq<char>, i: int)
    requires
        0 <= i,
        i + enc_pair(p).len() <= s.len(),
        s.subrange(i, i + enc_pair(p).len() as int) == enc_pair(p),
    ensures
        p_pair(s, i) == Some((p, i + enc_pair(p).len())),
{
    let x1 = enc_string(p.0) + seq![':'];
    lemma_subrange_cat(s, i, x1, enc_string(p.1));
    lemma_subrange_cat(s, i, enc_string(p.0), seq![':']);
    lemma_p_string_of_enc(p.0, s, i);
    let j0 = i + enc_string(p.0).len() as int;
    lemma_p_lit_of(s, j0, seq![':']);
    let j1 = i + x1.len() as int;
    lemma_p_string_of_enc(p.1, s, j1);
    assert(((p.0, p.1)) == p);
}


/// Rows joined with commas, without the surrounding brackets.
pub open spec fn enc_kv_items(rows: Seq<KeyValueView>) -> Seq<char>
    decreases rows.len(),
{
    if rows.len() == 0 {
        Seq::empty()
    } else if rows.len() == 1 {
        enc_kv(rows[0])
    } else {
        enc_kv(rows[0]) + seq![','] + enc_kv_items(rows.drop_first())
    }
}

/// A row list as an array.
pub open spec fn enc_kv_list(rows: Seq<KeyValueView>) -> Seq<char> {
    seq!['['] + enc_kv_items(rows) + seq![']']
}

/// One or more comma-separated rows, ending at a closing bracket,
/// which is consumed. `fuel` bounds the number of rows.
pub open spec fn p_kv_items(s: Seq<char>, i: int, fuel: nat) -> Option<(Seq<KeyValueView>, int)>
    decreases fuel,
{
    if fuel == 0 {
        None
    } else {
        match p_kv(s, i) {
            Some((kv, j)) => if 0 <= j < s.len() && s[j] == ',' {
                match p_kv_items(s, j + 1, (fuel - 1) as nat) {
                    Some((rest, j2)) => Some((seq![kv] + rest, j2)),
                    None => None,
                }
            } else if 0 <= j < s.len() && s[j] == ']' {
                Some((seq![kv], j + 1))
            } else {
                None
            },
            None => None,
        }
    }
}

pub open spec fn p_kv_list(s: Seq<char>, i: int, fuel: nat) -> Option<(Seq<KeyValueView>, int)> {
    if 0 <= i && i + 1 < s.len() && s[i] == '[' {
        if s[i + 1] == ']' {
            Some((Seq::empty(), i + 2))
        } else {
            p_kv_items(s, i + 1, fuel)
        }
    } else {
        None
    }
}

pub proof fn lemma_enc_kv_items_len(rows: Seq<KeyValueView>)
    ensures
        enc_kv_items(rows).len() >= rows.len(),
    decreases rows.len(),
{
    if rows.len() > 1 {
        lemma_enc_kv_items_len(rows.drop_first());
    }
}

pub proof fn lemma_p_kv_items_of_enc(rows: Seq<KeyValueView>, s: Seq<char>, i: int, fuel: nat)
    requires
        rows.len() >= 1,
        fuel >= rows.len(),
        0 <= i,
        i + enc_kv_items(rows).len() < s.len(),
        s.subrange(i, i + enc_kv_items(rows).len() as int) == enc_kv_items(rows),
        s[i + enc_kv_items(rows).len()] == ']',
    ensures
        p_kv_items(s, i, fuel) == Some((rows, i + enc_kv_items(rows).len() + 1)),
    decreases rows.len(),
{
    let e = enc_kv_items(rows);
    if rows.len() == 1 {
        assert(e == enc_kv(rows[0]));
        lemma_p_kv_of_enc(rows[0], s, i);
        let j = i + enc_kv(rows[0]).len() as int;
        assert(s[j] == ']');
        assert(seq![rows[0]] =~= rows);
    } else {
        let head = enc_kv(rows[0]);
        let rest = enc_kv_items(rows.drop_first());
        assert(e == (head + seq![',']) + rest);
        lemma_subrange_cat(s, i, head + seq![','], rest);
        lemma_subrange_cat(s, i, head, seq![',']);
        lemma_p_kv_of_enc(rows[0], s, i);
        let j = i + head.len() as int;
        assert(s[j] == ',') by {
            assert(s.subrange(j, j + 1)[0] == seq![','][0]);
        }
        lemma_p_kv_items_of_enc(rows.drop_first(), s, j + 1, (fuel - 1) as nat);
        assert(seq![rows[0]] + rows.drop_first() =~= rows);
    }
}

pub proof fn lemma_p_kv_list_of_enc(rows: Seq<KeyValueView>, s: Seq<char>, i: int, fuel: nat)
    requires
        fuel >= rows.len(),
        0 <= i,
        i + enc_kv_list(rows).len() <= s.len(),
        s.subrange(i, i + enc_kv_list(rows).len() as int) == enc_kv_list(rows),
    ensures
        p_kv_list(s, i, fuel) == Some((rows, i + enc_kv_list(rows).len())),
{
    let e = enc_kv_list(rows);
    let items = enc_kv_items(rows);
    assert(e == (seq!['['] + items) + seq![']']);
    lemma_subrange_cat(s, i, seq!['['] + items, seq![']']);
    lemma_subrange_cat(s, i, seq!['['], items);
    assert(s[i] == '[') by {
        assert(s.subrange(i, i + 1)[0] == seq!['['][0]);
    }
    let jend = i + 1 + items.len() as int;
    assert(s[jend] == ']') by {
        assert(s.subrange(jend, i + e.len() as int)[0] == seq![']'][0]);
    }
    if rows.len() == 0 {
        assert(items.len() == 0);
        assert(s[i + 1] == ']');
        assert(Seq::<KeyValueView>::empty() =~= rows);
    } else {
        assert(s.subrange(i + 1, jend) == items);
        assert(s[i + 1] == '{') by {
            assert(s.subrange(i + 1, jend)[0] == items[0]);
            assert(items[0] == enc_kv(rows[0])[0]);
            assert(enc_kv(rows[0])[0] == l_kv_key()[0]);
        }
        lemma_p_kv_items_of_enc(rows, s, i + 1, fuel);
    }
}

/// Pairs joined with commas, without the surrounding braces.
pub open spec fn enc_pair_items(ps: Seq<(Seq<char>, Seq<char>)>) -> Seq<char>
    decreases ps.len(),
{
    if ps.len() == 0 {
        Seq::empty()
    } else if ps.len() == 1 {
        enc_pair(ps[0])
    } else {
        enc_pair(ps[0]) + seq![','] + enc_pair_items(ps.drop_first())
    }
}

/// A name-to-value mapping as an object.
pub open spec fn enc_pairs_obj(ps: Seq<(Seq<char>, Seq<char>)>) -> Seq<char> {
    seq!['{'] + enc_pair_items(ps) + seq!['}']
}

pub open spec fn p_pair_items(s: Seq<char>, i: int, fuel: nat) -> Option<
    (Seq<(Seq<char>, Seq<char>)>, int),
>
    decreases fuel,
{
    if fuel == 0 {
        None
    } else {
        match p_pair(s, i) {
            Some((p, j)) => if 0 <= j < s.len() && s[j] == ',' {
                match p_pair_items(s, j + 1, (fuel - 1) as nat) {
                    Some((rest, j2)) => Some((seq![p] + rest, j2)),
                    None => None,
                }
            } else if 0 <= j < s.len() && s[j] == '}' {
                Some((seq![p], j + 1))
            } else {
                None
            },
            None => None,
        }
    }
}

pub open spec fn p_pairs_obj(s: Seq<char>, i: int, fuel: nat) -> Option<
    (Seq<(Seq<char>, Seq<char>)>, int),
> {
    if 0 <= i && i + 1 < s.len() && s[i] == '{' {
        if s[i + 1] == '}' {
            Some((Seq::empty(), i + 2))
        } else {
            p_pair_items(s, i + 1, fuel)
        }
    } else {
        None
    }
}

pub proof fn lemma_enc_pair_items_len(ps: Seq<(Seq<char>, Seq<char>)>)
    ensures
        enc_pair_items(ps).len() >= ps.len(),
    decreases ps.len(),
{
    if ps.len() > 1 {
        lemma_enc_pair_items_len(ps.drop_first());
    }
}

pub proof fn lemma_p_pair_items_of_enc(
    ps: Seq<(Seq<char>, Seq<char>)>,
    s: Seq<char>,
    i: int,
    fuel: nat,
)
    requires
        ps.len() >= 1,
        fuel >= ps.len(),
        0 <= i,
        i + enc_pair_items(ps).len() < s.len(),
        s.subrange(i, i + enc_pair_items(ps).len() as int) == enc_pair_items(ps),
        s[i + enc_pair_items(ps).len()] == '}',
    ensures
        p_pair_items(s, i, fuel) == Some((ps, i + enc_pair_items(ps).len() + 1)),
    decreases ps.len(),
{
    let e = enc_pair_items(ps);
    if ps.len() == 1 {
        assert(e == enc_pair(ps[0]));
        lemma_p_pair_of_enc(ps[0], s, i);
        let j = i + enc_pair(ps[0]).len() as int;
        assert(s[j] == '}');
        assert(seq![ps[0]] =~= ps);
    } else {
        let head = enc_pair(ps[0]);
        let rest = enc_pair_items(ps.drop_first());
        assert(e == (head + seq![',']) + rest);
        lemma_subrange_cat(s, i, head + seq![','], rest);
        lemma_subrange_cat(s, i, head, seq![',']);
        lemma_p_pair_of_enc(ps[0], s, i);
        let j = i + head.len() as int;
        assert(s[j] == ',') by {
            assert(s.subrange(j, j + 1)[0] == seq![','][0]);
        }
        lemma_p_pair_items_of_enc(ps.drop_first(), s, j + 1, (fuel - 1) as nat);
        assert(seq![ps[0]] + ps.drop_first() =~= ps);
    }
}

pub proof fn lemma_p_pairs_obj_of_enc(
    ps: Seq<(Seq<char>, Seq<char>)>,
    s: Seq<char>,
    i: int,
    fuel: nat,
)
    requires
        fuel >= ps.len(),
        0 <= i,
        i + enc_pairs_obj(ps).len() <= s.len(),
        s.subrange(i, i + enc_pairs_obj(ps).len() as int) == enc_pairs_obj(ps),
    ensures
        p_pairs_obj(s, i, fuel) == Some((ps, i + enc_pairs_obj(ps).len())),
{
    let e = enc_pairs_obj(ps);
    let items = enc_pair_items(ps);
    assert(e == (seq!['{'] + items) + seq!['}']);
    lemma_subrange_cat(s, i, seq!['{'] + items, seq!['}']);
    lemma_subrange_cat(s, i, seq!['{'], items);
    assert(s[i] == '{') by {
        assert(s.subrange(i, i + 1)[0] == seq!['{'][0]);
    }
    let jend = i + 1 + items.len() as int;
    assert(s[jend] == '}') by {
        assert(s.subrange(jend, i + e.len() as int)[0] == seq!['}'][0]);
    }
    if ps.len() == 0 {
        assert(items.len() == 0);
        assert(s[i + 1] == '}');
        assert(Seq::<(Seq<char>, Seq<char>)>::empty() =~= ps);
    } else {
        assert(s.subrange(i + 1, jend) == items);
        assert(s[i + 1] == '"') by {
            assert(s.subrange(i + 1, jend)[0] == items[0]);
            assert(items[0] == enc_pair(ps[0])[0]);
            assert(enc_pair(ps[0])[0] == enc_string(ps[0].0)[0]);
            assert(enc_string(ps[0].0)[0] == seq!['"'][0]);
        }
        lemma_p_pair_items_of_enc(ps, s, i + 1, fuel);
    }
}

pub open spec fn l_req_open() -> Seq<char> {
    seq!['{', '"', 'm', 'e', 't', 'h', 'o', 'd', '"', ':']
}

pub open spec fn l_req_url() -> Seq<char> {
    seq![',', '"', 'u', 'r', 'l', '"', ':']
}

pub open spec fn l_headers() -> Seq<char> {
    seq![',', '"', 'h', 'e', 'a', 'd', 'e', 'r', 's', '"', ':']
}

pub open spec fn l_req_query() -> Seq<char> {
    seq![',', '"', 'q', 'u', 'e', 'r', 'y', '_', 'p', 'a', 'r', 'a', 'm', 's', '"', ':']
}

pub open spec fn l_body() -> Seq<char> {
    seq![',', '"', 'b', 'o', 'd', 'y', '"', ':']
}

pub open spec fn l_req_body_type() -> Seq<char> {
    seq![',', '"', 'b', 'o', 'd', 'y', '_', 't', 'y', 'p', 'e', '"', ':']
}

pub open spec fn l_req_timeout() -> Seq<char> {
    seq![',', '"', 't', 'i', 'm', 'e', 'o', 'u', 't', '_', 'm', 's', '"', ':']
}

/// A request as an object, fields in declaration order.
#[verifier::opaque]
pub open spec fn enc_request(r: RequestView) -> Seq<char> {
    l_req_open() + enc_method(r.method) + l_req_url() + enc_string(r.url) + l_headers()
        + enc_kv_list(r.headers) + l_req_query() + enc_kv_list(r.query_params) + l_body()
        + enc_string(r.body) + l_req_body_type() + enc_body_type(r.body_type) + l_req_timeout()
        + dec_rep(r.timeout_ms as nat) + seq!['}']
}

#[verifier::opaque]
pub open spec fn p_request(s: Seq<char>, i: int, fuel: nat) -> Option<(RequestView, int)> {
    match p_lit(s, i, l_req_open()) {
        Some(j0) => match p_method(s, j0) {
            Some((method, j1)) => match p_lit(s, j1, l_req_url()) {
                Some(j2) => match p_string(s, j2) {
                    Some((url, j3)) => match p_lit(s, j3, l_headers()) {
                        Some(j4) => match p_kv_list(s, j4, fuel) {
                            Some((headers, j5)) => match p_lit(s, j5, l_req_query()) {
                                Some(j6) => match p_kv_list(s, j6, fuel) {
                                    Some((query_params, j7)) => match p_lit(s, j7, l_body()) {
                                        Some(j8) => match p_string(s, j8) {
                                            Some((body, j9)) => match p_lit(
                                                s,
                                                j9,
                                                l_req_body_type(),
                                            ) {
                                                Some(j10) => match p_body_type(s, j10) {
                                                    Some((body_type, j11)) => match p_lit(
                                                        s,
                                                        j11,
                                                        l_req_timeout(),
                                                    ) {
                                                        Some(j12) => match p_u64(s, j12) {
                                                            Some((timeout_ms, j13)) => match p_lit(
                                                                s,
                                                                j13,
                                                                seq!['}'],
                                                            ) {
                                                                Some(j14) => Some(
                                                                    (
                                                                        RequestView {
                                                                            method,
                                                                            url,
                                                                            headers,
                                                                            query_params,
                                                                            body,
                                                                            body_type,
                                                                            timeout_ms,
                                                                        },
                                                                        j14,
                                                                    ),
                                                                ),
                                                                None => None,
                                                            },
                                                            None => None,
                                                        },
                                                        None => None,
                                                    },
                                                    None => None,
                                                },
                                                None => None,
                                            },
                                            None => None,
                                        },
                                        None => None,
                                    },
                                    None => None,
                                },
                                None => None,
                            },
                            None => None,
                        },
                        None => None,
                    },
                    None => None,
                },
                None => None,
            },
            None => None,
        },
        None => None,
    }
}

#[verifier::rlimit(100)]
pub proof fn lemma_p_request_of_enc(r: RequestView, s: Seq<char>, i: int, fuel: nat)
    requires
        fuel >= r.headers.len(),
        fuel >= r.query_params.len(),
        0 <= i,
        i + enc_request(r).len() <= s.len(),
        s.subrange(i, i + enc_request(r).len() as int) == enc_request(r),
    ensures
        p_request(s, i, fuel) == Some((r, i + enc_request(r).len())),
{
    reveal(enc_request);
    reveal(p_request);
    let e = enc_request(r);
    let x13 = l_req_open() + enc_method(r.method) + l_req_url() + enc_string(r.url) + l_headers()
        + enc_kv_list(r.headers) + l_req_query() + enc_kv_list(r.query_params) + l_body()
        + enc_string(r.body) + l_req_body_type() + enc_body_type(r.body_type) + l_req_timeout()
        + dec_rep(r.timeout_ms as nat);
    let x12 = l_req_open() + enc_method(r.method) + l_req_url() + enc_string(r.url) + l_headers()
        + enc_kv_list(r.headers) + l_req_query() + enc_kv_list(r.query_params) + l_body()
        + enc_string(r.body) + l_req_body_type() + enc_body_type(r.body_type) + l_req_timeout();
    let x11 = l_req_open() + enc_method(r.method) + l_req_url() + enc_string(r.url) + l_headers()
        + enc_kv_list(r.headers) + l_req_query() + enc_kv_list(r.query_params) + l_body()
        + enc_string(r.body) + l_req_body_type() + enc_body_type(r.body_type);
    let x10 = l_req_open() + enc_method(r.method) + l_req_url() + enc_string(r.url) + l_headers()
        + enc_kv_list(r.headers) + l_req_query() + enc_kv_list(r.query_params) + l_body()
        + enc_string(r.body) + l_req_body_type();
    let x9 = l_req_open() + enc_method(r.method) + l_req_url() + enc_string(r.url) + l_headers()
        + enc_kv_list(r.headers) + l_req_query() + enc_kv_list(r.query_params) + l_body()
        + enc_string(r.body);
    let x8 = l_req_open() + enc_method(r.method) + l_req_url() + enc_string(r.url) + l_headers()
        + enc_kv_list(r.headers) + l_req_query() + enc_kv_list(r.query_params) + l_body();
    let x7 = l_req_open() + enc_method(r.method) + l_req_url() + enc_string(r.url) + l_headers()
        + enc_kv_list(r.headers) + l_req_query() + enc_kv_list(r.query_params);
    let x6 = l_req_open() + enc_method(r.method) + l_req_url() + enc_string(r.url) + l_headers()
        + enc_kv_list(r.headers) + l_req_query();
    let x5 = l_req_open() + enc_method(r.method) + l_req_url() + enc_string(r.url) + l_headers()
        + enc_kv_list(r.headers);
    let x4 = l_req_open() + enc_method(r.method) + l_req_url() + enc_string(r.url) + l_headers();
    let x3 = l_req_open() + enc_method(r.method) + l_req_url() + enc_string(r.url);
    let x2 = l_req_open() + enc_method(r.method) + l_req_url();
    let x1 = l_req_open() + enc_method(r.method);
    lemma_subrange_cat(s, i, x13, seq!['}']);
    lemma_subrange_cat(s, i, x12, dec_rep(r.timeout_ms as nat));
    lemma_subrange_cat(s, i, x11, l_req_timeout());
    lemma_subrange_cat(s, i, x10, enc_body_type(r.body_type));
    lemma_subrange_cat(s, i, x9, l_req_body_type());
    lemma_subrange_cat(s, i, x8, enc_string(r.body));
    lemma_subrange_cat(s, i, x7, l_body());
    lemma_subrange_cat(s, i, x6, enc_kv_list(r.query_params));
    lemma_subrange_cat(s, i, x5, l_req_query());
    lemma_subrange_cat(s, i, x4, enc_kv_list(r.headers));
    lemma_subrange_cat(s, i, x3, l_headers());
    lemma_subrange_cat(s, i, x2, enc_string(r.url));
    lemma_subrange_cat(s, i, x1, l_req_url());
    lemma_subrange_cat(s, i, l_req_open(), enc_method(r.method));
    lemma_p_lit_of(s, i, l_req_open());
    lemma_p_method_of_enc(r.method, s, i + l_req_open().len() as int);
    lemma_p_lit_of(s, i + x1.len() as int, l_req_url());
    lemma_p_string_of_enc(r.url, s, i + x2.len() as int);
    lemma_p_lit_of(s, i + x3.len() as int, l_headers());
    lemma_p_kv_list_of_enc(r.headers, s, i + x4.len() as int, fuel);
    lemma_p_lit_of(s, i + x5.len() as int, l_req_query());
    lemma_p_kv_list_of_enc(r.query_params, s, i + x6.len() as int, fuel);
    lemma_p_lit_of(s, i + x7.len() as int, l_body());
    lemma_p_string_of_enc(r.body, s, i + x8.len() as int);
    lemma_p_lit_of(s, i + x9.len() as int, l_req_body_type());
    lemma_p_body_type_of_enc(r.body_type, s, i + x10.len() as int);
    lemma_p_lit_of(s, i + x11.len() as int, l_req_timeout());
    let jnum = i + x12.len() as int;
    let jbrace = i + x13.len() as int;
    assert(s[jbrace] == '}') by {
        assert(s.subrange(jbrace, i + e.len() as int)[0] == seq!['}'][0]);
    }
    lemma_p_u64_of_enc(r.timeout_ms, s, jnum);
    lemma_p_lit_of(s, jbrace, seq!['}']);
    assert((RequestView {
        method: r.method,
        url: r.url,
        headers: r.headers,
        query_params: r.query_params,
        body: r.body,
        body_type: r.body_type,
        timeout_ms: r.timeout_ms,
    }) == r);
}

pub open spec fn l_resp_open() -> Seq<char> {
    seq!['{', '"', 's', 't', 'a', 't', 'u', 's', '"', ':']
}

pub open spec fn l_resp_text() -> Seq<char> {
    seq![',', '"', 's', 't', 'a', 't', 'u', 's', '_', 't', 'e', 'x', 't', '"', ':']
}

pub open spec fn l_resp_duration() -> Seq<char> {
    seq![',', '"', 'd', 'u', 'r', 'a', 't', 'i', 'o', 'n', '_', 'm', 's', '"', ':']
}

/// A response as an object, fields in declaration order.
#[verifier::opaque]
pub open spec fn enc_response(r: ResponseView) -> Seq<char> {
    l_resp_open() + dec_rep(r.status as nat) + l_resp_text() + enc_string(r.status_text) + l_body()
        + enc_string(r.body) + l_headers() + enc_pairs_obj(r.headers) + l_resp_duration()
        + dec_rep(r.duration_ms as nat) + seq!['}']
}

#[verifier::opaque]
pub open spec fn p_response(s: Seq<char>, i: int, fuel: nat) -> Option<(ResponseView, int)> {
    match p_lit(s, i, l_resp_open()) {
        Some(j0) => match p_u16(s, j0) {
            Some((status, j1)) => match p_lit(s, j1, l_resp_text()) {
                Some(j2) => match p_string(s, j2) {
                    Some((status_text, j3)) => match p_lit(s, j3, l_body()) {
                        Some(j4) => match p_string(s, j4) {
                            Some((body, j5)) => match p_lit(s, j5, l_headers()) {
                                Some(j6) => match p_pairs_obj(s, j6, fuel) {
                                    Some((headers, j7)) => match p_lit(s, j7, l_resp_duration()) {
                                        Some(j8) => match p_u128(s, j8) {
                                            Some((duration_ms, j9)) => match p_lit(
                                                s,
                                                j9,
                                                seq!['}'],
                                            ) {
                                                Some(j10) => Some(
                                                    (
                                                        ResponseView {
                                                            status,
                                                            status_text,
                                                            body,
                                                            headers,
                                                            duration_ms,
                                                        },
                                                        j10,
                                                    ),
                                                ),
                                                None => None,
                                            },
                                            None => None,
                                        },
                                        None => None,
                                    },
                                    None => None,
                                },
                                None => None,
                            },
                            None => None,
                        },
                        None => None,
                    },
                    None => None,
                },
                None => None,
            },
            None => None,
        },
        None => None,
    }
}

#[verifier::rlimit(100)]
pub proof fn lemma_p_response_of_enc(r: ResponseView, s: Seq<char>, i: int, fuel: nat)
    requires
        fuel >= r.headers.len(),
        0 <= i,
        i + enc_response(r).len() <= s.len(),
        s.subrange(i, i + enc_response(r).len() as int) == enc_response(r),
    ensures
        p_response(s, i, fuel) == Some((r, i + enc_response(r).len())),
{
    reveal(enc_response);
    reveal(p_response);
    let e = enc_response(r);
    let x9 = l_resp_open() + dec_rep(r.status as nat) + l_resp_text() + enc_string(r.status_text)
        + l_body() + enc_string(r.body) + l_headers() + enc_pairs_obj(r.headers)
        + l_resp_duration() + dec_rep(r.duration_ms as nat);
    let x8 = l_resp_open() + dec_rep(r.status as nat) + l_resp_text() + enc_string(r.status_text)
        + l_body() + enc_string(r.body) + l_headers() + enc_pairs_obj(r.headers)
        + l_resp_duration();
    let x7 = l_resp_open() + dec_rep(r.status as nat) + l_resp_text() + enc_string(r.status_text)
        + l_body() + enc_string(r.body) + l_headers() + enc_pairs_obj(r.headers);
    let x6 = l_resp_open() + dec_rep(r.status as nat) + l_resp_text() + enc_string(r.status_text)
        + l_body() + enc_string(r.body) + l_headers();
    let x5 = l_resp_open() + dec_rep(r.status as nat) + l_resp_text() + enc_string(r.status_text)
        + l_body() + enc_string(r.body);
    let x4 = l_resp_open() + dec_rep(r.status as nat) + l_resp_text() + enc_string(r.status_text)
        + l_body();
    let x3 = l_resp_open() + dec_rep(r.status as nat) + l_resp_text() + enc_string(r.status_text);
    let x2 = l_resp_open() + dec_rep(r.status as nat) + l_resp_text();
    let x1 = l_resp_open() + dec_rep(r.status as nat);
    lemma_subrange_cat(s, i, x9, seq!['}']);
    lemma_subrange_cat(s, i, x8, dec_rep(r.duration_ms as nat));
    lemma_subrange_cat(s, i, x7, l_resp_duration());
    lemma_subrange_cat(s, i, x6, enc_pairs_obj(r.headers));
    lemma_subrange_cat(s, i, x5, l_headers());
    lemma_subrange_cat(s, i, x4, enc_string(r.body));
    lemma_subrange_cat(s, i, x3, l_body());
    lemma_subrange_cat(s, i, x2, enc_string(r.status_text));
    lemma_subrange_cat(s, i, x1, l_resp_text());
    lemma_subrange_cat(s, i, l_resp_open(), dec_rep(r.status as nat));
    lemma_p_lit_of(s, i, l_resp_open());
    let jstat = i + l_resp_open().len() as int;
    assert(s[i + x1.len()] == ',') by {
        assert(s.subrange(i + x1.len() as int, i + x2.len() as int)[0] == l_resp_text()[0]);
    }
    lemma_p_u16_of_enc(r.status, s, jstat);
    lemma_p_lit_of(s, i + x1.len() as int, l_resp_text());
    lemma_p_string_of_enc(r.status_text, s, i + x2.len() as int);
    lemma_p_lit_of(s, i + x3.len() as int, l_body());
    lemma_p_string_of_enc(r.body, s, i + x4.len() as int);
    lemma_p_lit_of(s, i + x5.len() as int, l_headers());
    lemma_p_pairs_obj_of_enc(r.headers, s, i + x6.len() as int, fuel);
    lemma_p_lit_of(s, i + x7.len() as int, l_resp_duration());
    let jnum = i + x8.len() as int;
    let jbrace = i + x9.len() as int;
    assert(s[jbrace] == '}') by {
        assert(s.subrange(jbrace, i + e.len() as int)[0] == seq!['}'][0]);
    }
    lemma_p_u128_of_enc(r.duration_ms, s, jnum);
    lemma_p_lit_of(s, jbrace, seq!['}']);
    assert((ResponseView {
        status: r.status,
        status_text: r.status_text,
        body: r.body,
        headers: r.headers,
        duration_ms: r.duration_ms,
    }) == r);
}

pub open spec fn l_item_open() -> Seq<char> {
    seq!['{', '"', 'r', 'e', 'q', 'u', 'e', 's', 't', '"', ':']
}

pub open spec fn l_item_resp() -> Seq<char> {
    seq![',', '"', 'r', 'e', 's', 'p', 'o', 'n', 's', 'e', '"', ':']
}

pub open spec fn l_item_ts() -> Seq<char> {
    seq![',', '"', 't', 'i', 'm', 'e', 's', 't', 'a', 'm', 'p', '"', ':']
}

/// One remembered exchange as an object.
pub open spec fn enc_item(it: HistoryItemView) -> Seq<char> {
    l_item_open() + enc_request(it.request) + l_item_resp() + enc_response(it.response)
        + l_item_ts() + enc_i64(it.timestamp) + seq!['}']
}

pub open spec fn p_item(s: Seq<char>, i: int, fuel: nat) -> Option<(HistoryItemView, int)> {
    match p_lit(s, i, l_item_open()) {
        Some(j0) => match p_request(s, j0, fuel) {
            Some((request, j1)) => match p_lit(s, j1, l_item_resp()) {
                Some(j2) => match p_response(s, j2, fuel) {
                    Some((response, j3)) => match p_lit(s, j3, l_item_ts()) {
                        Some(j4) => match p_i64(s, j4) {
                            Some((timestamp, j5)) => match p_lit(s, j5, seq!['}']) {
                                Some(j6) => Some(
                                    (HistoryItemView { request, response, timestamp }, j6),
                                ),
                                None => None,
                            },
                            None => None,
                        },
                        None => None,
                    },
                    None => None,
                },
                None => None,
            },
            None => None,
        },
        None => None,
    }
}

#[verifier::rlimit(100)]
pub proof fn lemma_p_item_of_enc(it: HistoryItemView, s: Seq<char>, i: int, fuel: nat)
    requires
        fuel >= it.request.headers.len(),
        fuel >= it.request.query_params.len(),
        fuel >= it.response.headers.len(),
        0 <= i,
        i + enc_item(it).len() <= s.len(),
        s.subrange(i, i + enc_item(it).len() as int) == enc_item(it),
    ensures
        p_item(s, i, fuel) == Some((it, i + enc_item(it).len())),
{
    let e = enc_item(it);
    let x5 = l_item_open() + enc_request(it.request) + l_item_resp() + enc_response(it.response)
        + l_item_ts() + enc_i64(it.timestamp);
    let x4 = l_item_open() + enc_request(it.request) + l_item_resp() + enc_response(it.response)
        + l_item_ts();
    let x3 = l_item_open() + enc_request(it.request) + l_item_resp() + enc_response(it.response);
    let x2 = l_item_open() + enc_request(it.request) + l_item_resp();
    let x1 = l_item_open() + enc_request(it.request);
    lemma_subrange_cat(s, i, x5, seq!['}']);
    lemma_subrange_cat(s, i, x4, enc_i64(it.timestamp));
    lemma_subrange_cat(s, i, x3, l_item_ts());
    lemma_subrange_cat(s, i, x2, enc_response(it.response));
    lemma_subrange_cat(s, i, x1, l_item_resp());
    lemma_subrange_cat(s, i, l_item_open(), enc_request(it.request));
    lemma_p_lit_of(s, i, l_item_open());
    lemma_p_request_of_enc(it.request, s, i + l_item_open().len() as int, fuel);
    lemma_p_lit_of(s, i + x1.len() as int, l_item_resp());
    lemma_p_response_of_enc(it.response, s, i + x2.len() as int, fuel);
    lemma_p_lit_of(s, i + x3.len() as int, l_item_ts());
    let jnum = i + x4.len() as int;
    let jbrace = i + x5.len() as int;
    assert(s[jbrace] == '}') by {
        assert(s.subrange(jbrace, i + e.len() as int)[0] == seq!['}'][0]);
    }
    lemma_p_i64_of_enc(it.timestamp, s, jnum);
    lemma_p_lit_of(s, jbrace, seq!['}']);
    assert((HistoryItemView {
        request: it.request,
        response: it.response,
        timestamp: it.timestamp,
    }) == it);
}

/// Items joined with commas, without the surrounding brackets.
pub open spec fn enc_history_items(items: Seq<HistoryItemView>) -> Seq<char>
    decreases items.len(),
{
    if items.len() == 0 {
        Seq::empty()
    } else if items.len() == 1 {
        enc_item(items[0])
    } else {
        enc_item(items[0]) + seq![','] + enc_history_items(items.drop_first())
    }
}

/// The whole persisted history: an array of items, most recent first.
pub open spec fn enc_history(items: Seq<HistoryItemView>) -> Seq<char> {
    seq!['['] + enc_history_items(items) + seq![']']
}

pub open spec fn p_history_items(s: Seq<char>, i: int, fuel: nat) -> Option<
    (Seq<HistoryItemView>, int),
>
    decreases fuel,
{
    if fuel == 0 {
        None
    } else {
        match p_item(s, i, fuel) {
            Some((it, j)) => if 0 <= j < s.len() && s[j] == ',' {
                match p_history_items(s, j + 1, (fuel - 1) as nat) {
                    Some((rest, j2)) => Some((seq![it] + rest, j2)),
                    None => None,
                }
            } else if 0 <= j < s.len() && s[j] == ']' {
                Some((seq![it], j + 1))
            } else {
                None
            },
            None => None,
        }
    }
}

pub open spec fn p_history_list(s: Seq<char>, i: int, fuel: nat) -> Option<
    (Seq<HistoryItemView>, int),
> {
    if 0 <= i && i + 1 < s.len() && s[i] == '[' {
        if s[i + 1] == ']' {
            Some((Seq::empty(), i + 2))
        } else {
            p_history_items(s, i + 1, fuel)
        }
    } else {
        None
    }
}

/// What a persisted text means: the item list, provided the whole
/// text is exactly one well-formed array.
pub open spec fn parse_history_s(s: Seq<char>) -> Option<Seq<HistoryItemView>> {
    match p_history_list(s, 0, s.len() as nat) {
        Some((items, j)) => if j == s.len() {
            Some(items)
        } else {
            None
        },
        None => None,
    }
}

#[verifier::rlimit(100)]
pub proof fn lemma_enc_history_items_len(items: Seq<HistoryItemView>)
    ensures
        enc_history_items(items).len() >= items.len(),
        forall|k: int|
            0 <= k < items.len() ==> enc_history_items(items).len() >= items.len() - 1 + enc_item(
                #[trigger] items[k],
            ).len(),
    decreases items.len(),
{
    if items.len() > 1 {
        lemma_enc_history_items_len(items.drop_first());
        assert(forall|k: int|
            1 <= k < items.len() ==> items.drop_first()[k - 1] == #[trigger] items[k]);
    }
}

#[verifier::rlimit(100)]
pub proof fn lemma_p_history_items_of_enc(
    items: Seq<HistoryItemView>,
    s: Seq<char>,
    i: int,
    fuel: nat,
)
    requires
        items.len() >= 1,
        fuel >= items.len(),
        forall|k: int| 0 <= k < items.len() ==> fuel >= items.len()
            + (#[trigger] items[k]).request.headers.len() && fuel >= items.len()
            + items[k].request.query_params.len() && fuel >= items.len()
            + items[k].response.headers.len(),
        0 <= i,
        i + enc_history_items(items).len() < s.len(),
        s.subrange(i, i + enc_history_items(items).len() as int) == enc_history_items(items),
        s[i + enc_history_items(items).len()] == ']',
    ensures
        p_history_items(s, i, fuel) == Some((items, i + enc_history_items(items).len() + 1)),
    decreases items.len(),
{
    let e = enc_history_items(items);
    if items.len() == 1 {
        assert(e == enc_item(items[0]));
        lemma_p_item_of_enc(items[0], s, i, fuel);
        let j = i + enc_item(items[0]).len() as int;
        assert(s[j] == ']');
        assert(seq![items[0]] =~= items);
    } else {
        let head = enc_item(items[0]);
        let rest = enc_history_items(items.drop_first());
        assert(e == (head + seq![',']) + rest);
        lemma_subrange_cat(s, i, head + seq![','], rest);
        lemma_subrange_cat(s, i, head, seq![',']);
        lemma_p_item_of_enc(items[0], s, i, fuel);
        let j = i + head.len() as int;
        assert(s[j] == ',') by {
            assert(s.subrange(j, j + 1)[0] == seq![','][0]);
        }
        assert(forall|k: int|
            1 <= k < items.len() ==> items.drop_first()[k - 1] == #[trigger] items[k]);
        assert(forall|k: int|
            0 <= k < items.drop_first().len() ==> (#[trigger] items.drop_first()[k])
                == items[k + 1]);
        lemma_p_history_items_of_enc(items.drop_first(), s, j + 1, (fuel - 1) as nat);
        assert(seq![items[0]] + items.drop_first() =~= items);
    }
}

/// The round trip of the history store's persisted form: rendering
/// any item list and parsing it back gives the same list, field for
/// field and in the same order.
#[verifier::rlimit(100)]
pub proof fn lemma_history_round_trip(items: Seq<HistoryItemView>)
    ensures
        parse_history_s(enc_history(items)) == Some(items),
{
    let s = enc_history(items);
    let inner = enc_history_items(items);
    let fuel = s.len() as nat;
    assert(s == (seq!['['] + inner) + seq![']']);
    assert(s.subrange(0, s.len() as int) =~= s);
    lemma_subrange_cat(s, 0, seq!['['] + inner, seq![']']);
    lemma_subrange_cat(s, 0, seq!['['], inner);
    assert(s[0] == '[') by {
        assert(s.subrange(0, 1)[0] == seq!['['][0]);
    }
    let jend = 1 + inner.len() as int;
    assert(s[jend] == ']') by {
        assert(s.subrange(jend, s.len() as int)[0] == seq![']'][0]);
    }
    lemma_enc_history_items_len(items);
    if items.len() == 0 {
        assert(inner.len() == 0);
        assert(s[1] == ']');
        assert(p_history_list(s, 0, fuel) == Some((Seq::<HistoryItemView>::empty(), 2int)));
        assert(Seq::<HistoryItemView>::empty() =~= items);
    } else {
        assert(s.subrange(1, jend) == inner);
        assert(s[1] == '{') by {
            assert(s.subrange(1, jend)[0] == inner[0]);
            assert(inner[0] == enc_item(items[0])[0]);
            assert(enc_item(items[0])[0] == l_item_open()[0]);
        }
        assert forall|k: int|
            0 <= k < items.len() implies fuel >= items.len()
            + (#[trigger] items[k]).request.headers.len() && fuel >= items.len()
            + items[k].request.query_params.len() && fuel >= items.len()
            + items[k].response.headers.len() by {
            let it = items[k];
            reveal(enc_request);
            reveal(enc_response);
            assert(enc_history_items(items).len() >= enc_item(it).len());
            lemma_enc_kv_items_len(it.request.headers);
            lemma_enc_kv_items_len(it.request.query_params);
            lemma_enc_pair_items_len(it.response.headers);
            assert(enc_item(it).len() >= enc_request(it.request).len());
            assert(enc_item(it).len() >= enc_response(it.response).len());
            assert(enc_request(it.request).len() >= enc_kv_list(it.request.headers).len());
            assert(enc_request(it.request).len() >= enc_kv_list(it.request.query_params).len());
            assert(enc_response(it.response).len() >= enc_pairs_obj(it.response.headers).len());
        }
        assert(fuel >= items.len());
        lemma_p_history_items_of_enc(items, s, 1, fuel);
    }
}

pub proof fn lemma_enc_kv_items_snoc(rows: Seq<KeyValueView>, kv: KeyValueView)
    requires
        rows.len() >= 1,
    ensures
        enc_kv_items(rows.push(kv)) == enc_kv_items(rows) + seq![','] + enc_kv(kv),
    decreases rows.len(),
{
    let t = rows.push(kv);
    assert(t.drop_first() =~= rows.drop_first().push(kv));
    assert(t[0] == rows[0]);
    if rows.len() == 1 {
        assert(t.drop_first().len() == 1);
        assert(t.drop_first()[0] == kv);
        assert(enc_kv_items(t.drop_first()) == enc_kv(kv));
        assert(enc_kv(rows[0]) + seq![','] + enc_kv(kv) =~= enc_kv(rows[0]) + (seq![',']
            + enc_kv(kv)));
        assert(enc_kv_items(t) == enc_kv(t[0]) + seq![','] + enc_kv_items(t.drop_first()));
    } else {
        lemma_enc_kv_items_snoc(rows.drop_first(), kv);
        assert(enc_kv_items(t) == enc_kv(rows[0]) + seq![','] + (enc_kv_items(rows.drop_first())
            + seq![','] + enc_kv(kv)));
        assert(enc_kv(rows[0]) + seq![','] + (enc_kv_items(rows.drop_first()) + seq![','] + enc_kv(
            kv,
        )) =~= (enc_kv(rows[0]) + seq![','] + enc_kv_items(rows.drop_first())) + seq![','] + enc_kv(
            kv,
        ));
    }
}

pub proof fn lemma_enc_pair_items_snoc(ps: Seq<(Seq<char>, Seq<char>)>, p: (Seq<char>, Seq<char>))
    requires
        ps.len() >= 1,
    ensures
        enc_pair_items(ps.push(p)) == enc_pair_items(ps) + seq![','] + enc_pair(p),
    decreases ps.len(),
{
    let t = ps.push(p);
    assert(t.drop_first() =~= ps.drop_first().push(p));
    assert(t[0] == ps[0]);
    if ps.len() == 1 {
        assert(t.drop_first().len() == 1);
        assert(t.drop_first()[0] == p);
        assert(enc_pair_items(t.drop_first()) == enc_pair(p));
        assert(enc_pair(ps[0]) + seq![','] + enc_pair(p) =~= enc_pair(ps[0]) + (seq![',']
            + enc_pair(p)));
        assert(enc_pair_items(t) == enc_pair(t[0]) + seq![','] + enc_pair_items(t.drop_first()));
    } else {
        lemma_enc_pair_items_snoc(ps.drop_first(), p);
        assert(enc_pair_items(t) == enc_pair(ps[0]) + seq![','] + (enc_pair_items(ps.drop_first())
            + seq![','] + enc_pair(p)));
        assert(enc_pair(ps[0]) + seq![','] + (enc_pair_items(ps.drop_first()) + seq![',']
            + enc_pair(p)) =~= (enc_pair(ps[0]) + seq![','] + enc_pair_items(ps.drop_first()))
            + seq![','] + enc_pair(p));
    }
}

pub proof fn lemma_enc_history_items_snoc(items: Seq<HistoryItemView>, it: HistoryItemView)
    requires
        items.len() >= 1,
    ensures
        enc_history_items(items.push(it)) == enc_history_items(items) + seq![','] + enc_item(it),
    decreases items.len(),
{
    let t = items.push(it);
    assert(t.drop_first() =~= items.drop_first().push(it));
    assert(t[0] == items[0]);
    if items.len() == 1 {
        assert(t.drop_first().len() == 1);
        assert(t.drop_first()[0] == it);
        assert(enc_history_items(t.drop_first()) == enc_item(it));
        assert(enc_item(items[0]) + seq![','] + enc_item(it) =~= enc_item(items[0]) + (seq![',']
            + enc_item(it)));
        assert(enc_history_items(t) == enc_item(t[0]) + seq![','] + enc_history_items(
            t.drop_first(),
        ));
    } else {
        lemma_enc_history_items_snoc(items.drop_first(), it);
        assert(enc_history_items(t) == enc_item(items[0]) + seq![','] + (enc_history_items(
            items.drop_first(),
        ) + seq![','] + enc_item(it)));
        assert(enc_item(items[0]) + seq![','] + (enc_history_items(items.drop_first()) + seq![',']
            + enc_item(it)) =~= (enc_item(items[0]) + seq![','] + enc_history_items(
            items.drop_first(),
        )) + seq![','] + enc_item(it));
    }
}

fn hex_to_char(d: u32) -> (c: char)
    requires
        d < 16,
    ensures
        c == hex_char(d as int),
{
    match d {
        0 => '0',
        1 => '1',
        2 => '2',
        3 => '3',
        4 => '4',
        5 => '5',
        6 => '6',
        7 => '7',
        8 => '8',
        9 => '9',
        10 => 'a',
        11 => 'b',
        12 => 'c',
        13 => 'd',
        14 => 'e',
        _ => 'f',
    }
}

/// Appends the characters of a fixed piece of text.
fn push_lit(out: &mut Vec<char>, lit: &str)
    ensures
        final(out)@ == old(out)@ + lit@,
{
    let cs = string_to_chars(lit);
    let n = cs.len();
    let mut k: usize = 0;
    while k < n
        invariant
            k <= n == cs@.len(),
            cs@ == lit@,
            out@ == old(out)@ + lit@.subrange(0, k as int),
        decreases n - k,
    {
        out.push(cs[k]);
        proof {
            assert(out@ =~= old(out)@ + lit@.subrange(0, k + 1));
        }
        k = k + 1;
    }
    proof {
        assert(lit@.subrange(0, n as int) =~= lit@);
    }
}

/// Appends one quoted, escaped string.
fn push_string(out: &mut Vec<char>, s: &str)
    ensures
        final(out)@ == old(out)@ + enc_string(s@),
{
    out.push('"');
    let cs = string_to_chars(s);
    let n = cs.len();
    let mut k: usize = 0;
    while k < n
        invariant
            k <= n == cs@.len(),
            cs@ == s@,
            out@ == old(out)@ + seq!['"'] + esc_chars(s@.subrange(0, k as int)),
        decreases n - k,
    {
        let c = cs[k];
        let ghost before = out@;
        if c == '"' {
            out.push('\\');
            out.push('"');
        } else if c == '\\' {
            out.push('\\');
            out.push('\\');
        } else if c == '\n' {
            out.push('\\');
            out.push('n');
        } else if c == '\r' {
            out.push('\\');
            out.push('r');
        } else if c == '\t' {
            out.push('\\');
            out.push('t');
        } else {
            let v = c as u32;
            proof {
                lemma_char_range(c);
            }
            if v < 32 {
                out.push('\\');
                out.push('u');
                out.push('0');
                out.push('0');
                out.push(hex_to_char(v / 16));
                out.push(hex_to_char(v % 16));
                proof {
                    assert(v / 16 == c as int / 16 && v % 16 == c as int % 16);
                }
            } else {
                out.push(c);
            }
        }
        proof {
            assert(out@ =~= before + esc_char(c));
            lemma_esc_chars_snoc(s@.subrange(0, k as int), c);
            assert(s@.subrange(0, k as int).push(c) =~= s@.subrange(0, k + 1));
            assert(out@ =~= old(out)@ + seq!['"'] + esc_chars(s@.subrange(0, k + 1)));
        }
        k = k + 1;
    }
    out.push('"');
    proof {
        assert(s@.subrange(0, n as int) =~= s@);
        assert(out@ =~= old(out)@ + enc_string(s@));
    }
}

/// Appends a signed decimal.
fn push_i64(out: &mut Vec<char>, n: i64)
    ensures
        final(out)@ == old(out)@ + enc_i64(n),
{
    if n < 0 {
        out.push('-');
        let m: u128 = (-(n as i128)) as u128;
        push_decimal(m, out);
        proof {
            assert(m as nat == (-(n as int)) as nat);
            assert(out@ =~= old(out)@ + enc_i64(n));
        }
    } else {
        push_decimal(n as u128, out);
        proof {
            assert((n as u128) as nat == n as nat);
        }
    }
}

fn push_bool(out: &mut Vec<char>, b: bool)
    ensures
        final(out)@ == old(out)@ + enc_bool(b),
{
    if b {
        push_lit(out, "true");
        proof {
            reveal_strlit("true");
            assert("true"@ =~= enc_bool(true));
        }
    } else {
        push_lit(out, "false");
        proof {
            reveal_strlit("false");
            assert("false"@ =~= enc_bool(false));
        }
    }
}

/// Appends one row object.
fn push_kv(out: &mut Vec<char>, kv: &KeyValue)
    ensures
        final(out)@ == old(out)@ + enc_kv(kv@),
{
    proof {
        reveal_strlit("{\"key\":");
        reveal_strlit(",\"value\":");
        reveal_strlit(",\"enabled\":");
        assert("{\"key\":"@ =~= l_kv_key());
        assert(",\"value\":"@ =~= l_kv_value());
        assert(",\"enabled\":"@ =~= l_kv_enabled());
    }
    push_lit(out, "{\"key\":");
    push_string(out, kv.key.as_str());
    push_lit(out, ",\"value\":");
    push_string(out, kv.value.as_str());
    push_lit(out, ",\"enabled\":");
    push_bool(out, kv.enabled);
    out.push('}');
    proof {
        assert(out@ =~= old(out)@ + enc_kv(kv@));
    }
}

/// Appends a row list as an array.
fn push_kv_list(out: &mut Vec<char>, rows: &Vec<KeyValue>)
    ensures
        final(out)@ == old(out)@ + enc_kv_list(rows_view(rows@)),
{
    out.push('[');
    let n = rows.len();
    let mut k: usize = 0;
    while k < n
        invariant
            k <= n == rows@.len(),
            out@ == old(out)@ + seq!['['] + enc_kv_items(rows_view(rows@.subrange(0, k as int))),
        decreases n - k,
    {
        let ghost prev = rows_view(rows@.subrange(0, k as int));
        if k > 0 {
            out.push(',');
        }
        push_kv(out, &rows[k]);
        proof {
            assert(rows_view(rows@.subrange(0, k + 1)) =~= prev.push(rows@[k as int]@));
            if k > 0 {
                lemma_enc_kv_items_snoc(prev, rows@[k as int]@);
                assert(out@ =~= old(out)@ + seq!['['] + enc_kv_items(
                    rows_view(rows@.subrange(0, k + 1)),
                ));
            } else {
                assert(prev.len() == 0);
                assert(prev.push(rows@[k as int]@).len() == 1);
                assert(enc_kv_items(prev.push(rows@[k as int]@)) == enc_kv(rows@[k as int]@));
                assert(out@ =~= old(out)@ + seq!['['] + enc_kv_items(
                    rows_view(rows@.subrange(0, k + 1)),
                ));
            }
        }
        k = k + 1;
    }
    out.push(']');
    proof {
        assert(rows@.subrange(0, n as int) =~= rows@);
        assert(out@ =~= old(out)@ + enc_kv_list(rows_view(rows@)));
    }
}

/// Appends one response-header pair.
fn push_pair(out: &mut Vec<char>, p: &(String, String))
    ensures
        final(out)@ == old(out)@ + enc_pair((p.0@, p.1@)),
{
    push_string(out, p.0.as_str());
    out.push(':');
    push_string(out, p.1.as_str());
    proof {
        assert(out@ =~= old(out)@ + enc_pair((p.0@, p.1@)));
    }
}

/// Appends a name-to-value mapping as an object.
fn push_pairs_obj(out: &mut Vec<char>, ps: &Vec<(String, String)>)
    ensures
        final(out)@ == old(out)@ + enc_pairs_obj(pairs_view(ps@)),
{
    out.push('{');
    let n = ps.len();
    let mut k: usize = 0;
    while k < n
        invariant
            k <= n == ps@.len(),
            out@ == old(out)@ + seq!['{'] + enc_pair_items(pairs_view(ps@.subrange(0, k as int))),
        decreases n - k,
    {
        let ghost prev = pairs_view(ps@.subrange(0, k as int));
        let ghost cur = (ps@[k as int].0@, ps@[k as int].1@);
        if k > 0 {
            out.push(',');
        }
        push_pair(out, &ps[k]);
        proof {
            assert(pairs_view(ps@.subrange(0, k + 1)) =~= prev.push(cur));
            if k > 0 {
                lemma_enc_pair_items_snoc(prev, cur);
                assert(out@ =~= old(out)@ + seq!['{'] + enc_pair_items(
                    pairs_view(ps@.subrange(0, k + 1)),
                ));
            } else {
                assert(prev.len() == 0);
                assert(prev.push(cur).len() == 1);
                assert(enc_pair_items(prev.push(cur)) == enc_pair(cur));
                assert(out@ =~= old(out)@ + seq!['{'] + enc_pair_items(
                    pairs_view(ps@.subrange(0, k + 1)),
                ));
            }
        }
        k = k + 1;
    }
    out.push('}');
    proof {
        assert(ps@.subrange(0, n as int) =~= ps@);
        assert(out@ =~= old(out)@ + enc_pairs_obj(pairs_view(ps@)));
    }
}

/// Appends one request object.
#[verifier::rlimit(100)]
fn push_request(out: &mut Vec<char>, r: &HttpRequest)
    ensures
        final(out)@ == old(out)@ + enc_request(r@),
{
    proof {
        reveal(enc_request);
        reveal_strlit("{\"method\":");
        reveal_strlit(",\"url\":");
        reveal_strlit(",\"headers\":");
        reveal_strlit(",\"query_params\":");
        reveal_strlit(",\"body\":");
        reveal_strlit(",\"body_type\":");
        reveal_strlit(",\"timeout_ms\":");
        assert("{\"method\":"@ =~= l_req_open());
        assert(",\"url\":"@ =~= l_req_url());
        assert(",\"headers\":"@ =~= l_headers());
        assert(",\"query_params\":"@ =~= l_req_query());
        assert(",\"body\":"@ =~= l_body());
        assert(",\"body_type\":"@ =~= l_req_body_type());
        assert(",\"timeout_ms\":"@ =~= l_req_timeout());
    }
    push_lit(out, "{\"method\":");
    out.push('"');
    push_lit(out, r.method.label());
    out.push('"');
    proof {
        assert(out@ =~= old(out)@ + l_req_open() + enc_method(r.method));
    }
    push_lit(out, ",\"url\":");
    push_string(out, r.url.as_str());
    push_lit(out, ",\"headers\":");
    push_kv_list(out, &r.headers);
    push_lit(out, ",\"query_params\":");
    push_kv_list(out, &r.query_params);
    push_lit(out, ",\"body\":");
    push_string(out, r.body.as_str());
    push_lit(out, ",\"body_type\":");
    out.push('"');
    push_lit(out, r.body_type.label());
    out.push('"');
    push_lit(out, ",\"timeout_ms\":");
    push_decimal(r.timeout_ms as u128, out);
    out.push('}');
    proof {
        assert((r.timeout_ms as u128) as nat == r.timeout_ms as nat);
        assert(out@ =~= old(out)@ + enc_request(r@));
    }
}

/// Appends one response object.
#[verifier::rlimit(100)]
fn push_response(out: &mut Vec<char>, r: &HttpResponse)
    ensures
        final(out)@ == old(out)@ + enc_response(r@),
{
    proof {
        reveal(enc_response);
        reveal_strlit("{\"status\":");
        reveal_strlit(",\"status_text\":");
        reveal_strlit(",\"body\":");
        reveal_strlit(",\"headers\":");
        reveal_strlit(",\"duration_ms\":");
        assert("{\"status\":"@ =~= l_resp_open());
        assert(",\"status_text\":"@ =~= l_resp_text());
        assert(",\"body\":"@ =~= l_body());
        assert(",\"headers\":"@ =~= l_headers());
        assert(",\"duration_ms\":"@ =~= l_resp_duration());
    }
    push_lit(out, "{\"status\":");
    push_decimal(r.status as u128, out);
    push_lit(out, ",\"status_text\":");
    push_string(out, r.status_text.as_str());
    push_lit(out, ",\"body\":");
    push_string(out, r.body.as_str());
    push_lit(out, ",\"headers\":");
    push_pairs_obj(out, &r.headers);
    push_lit(out, ",\"duration_ms\":");
    push_decimal(r.duration_ms, out);
    out.push('}');
    proof {
        assert((r.status as u128) as nat == r.status as nat);
        assert(out@ =~= old(out)@ + enc_response(r@));
    }
}

/// Appends one history-item object.
fn push_item(out: &mut Vec<char>, it: &HistoryItem)
    ensures
        final(out)@ == old(out)@ + enc_item(it@),
{
    proof {
        reveal_strlit("{\"request\":");
        reveal_strlit(",\"response\":");
        reveal_strlit(",\"timestamp\":");
        assert("{\"request\":"@ =~= l_item_open());
        assert(",\"response\":"@ =~= l_item_resp());
        assert(",\"timestamp\":"@ =~= l_item_ts());
    }
    push_lit(out, "{\"request\":");
    push_request(out, &it.request);
    push_lit(out, ",\"response\":");
    push_response(out, &it.response);
    push_lit(out, ",\"timestamp\":");
    push_i64(out, it.timestamp);
    out.push('}');
    proof {
        assert(out@ =~= old(out)@ + enc_item(it@));
    }
}

/// Renders a history list in its persisted form.
pub fn encode_history(items: &Vec<HistoryItem>) -> (r: String)
    ensures
        r@ == enc_history(Seq::new(items@.len(), |i: int| items@[i]@)),
{
    let ghost views = Seq::new(items@.len(), |i: int| items@[i]@);
    let mut out: Vec<char> = Vec::new();
    out.push('[');
    let n = items.len();
    let mut k: usize = 0;
    while k < n
        invariant
            k <= n == items@.len(),
            views == Seq::new(items@.len(), |i: int| items@[i]@),
            out@ == seq!['['] + enc_history_items(views.subrange(0, k as int)),
        decreases n - k,
    {
        let ghost prev = views.subrange(0, k as int);
        if k > 0 {
            out.push(',');
        }
        push_item(&mut out, &items[k]);
        proof {
            assert(views.subrange(0, k + 1) =~= prev.push(items@[k as int]@));
            if k > 0 {
                lemma_enc_history_items_snoc(prev, items@[k as int]@);
                assert(out@ =~= seq!['['] + enc_history_items(views.subrange(0, k + 1)));
            } else {
                assert(prev.len() == 0);
                assert(prev.push(items@[k as int]@).len() == 1);
                assert(enc_history_items(prev.push(items@[k as int]@)) == enc_item(
                    items@[k as int]@,
                ));
                assert(out@ =~= seq!['['] + enc_history_items(views.subrange(0, k + 1)));
            }
        }
        k = k + 1;
    }
    out.push(']');
    proof {
        assert(views.subrange(0, n as int) =~= views);
        assert(out@ =~= enc_history(views));
    }
    chars_to_string(&out)
}

/// Relies on char::from_u32: every non-surrogate scalar in range is
/// the character with that value.
#[verifier::external_body]
fn char_from_scalar(v: u32) -> (c: char)
    requires
        v < 0xD800 || (0xE000 <= v && v <= 0x10FFFF),
    ensures
        c == ((v as int) as char),
{
    char::from_u32(v).unwrap()
}

fn hex_digit_val(c: char) -> (r: Option<u32>)
    ensures
        match r {
            Some(v) => is_hex_digit(c) && v as int == hex_val(c) && v < 16,
            None => !is_hex_digit(c),
        },
{
    proof {
        lemma_char_range(c);
    }
    if '0' <= c && c <= '9' {
        Some(c as u32 - '0' as u32)
    } else if 'a' <= c && c <= 'f' {
        Some(c as u32 - 'a' as u32 + 10)
    } else if 'A' <= c && c <= 'F' {
        Some(c as u32 - 'A' as u32 + 10)
    } else {
        None
    }
}

/// Reads one quoted string starting at `i`, undoing the escapes.
#[verifier::rlimit(100)]
fn parse_string_at(s: &Vec<char>, i: usize) -> (r: Option<(String, usize)>)
    requires
        i <= s@.len(),
    ensures
        match r {
            Some((v, j)) => p_string(s@, i as int) == Some((v@, j as int)) && i < j <= s@.len(),
            None => p_string(s@, i as int) is None,
        },
{
    if i >= s.len() {
        return None;
    }
    if s[i] != '"' {
        return None;
    }
    let mut j: usize = i + 1;
    let mut acc: Vec<char> = Vec::new();
    loop
        invariant
            i as int + 1 <= j as int <= s@.len(),
            i < s@.len() && s@[i as int] == '"',
            (match p_str_body(s@, j as int) {
                Some(p) => p_str_body(s@, i as int + 1) == Some((acc@ + p.0, p.1)),
                None => p_str_body(s@, i as int + 1) is None,
            }),
        decreases s@.len() - j,
    {
        if j >= s.len() {
            return None;
        }
        let c = s[j];
        if c == '"' {
            proof {
                assert(p_str_body(s@, j as int) == Some((Seq::<char>::empty(), j as int + 1)));
                assert(acc@ + Seq::<char>::empty() =~= acc@);
            }
            let st = chars_to_string(&acc);
            return Some((st, j + 1));
        }
        let ghost accb = acc@;
        let step: usize;
        if c == '\\' {
            if s.len() - j < 2 {
                return None;
            }
            let d = s[j + 1];
            if d == '"' || d == '\\' || d == 'n' || d == 'r' || d == 't' {
                let cv: char = if d == '"' {
                    '"'
                } else if d == '\\' {
                    '\\'
                } else if d == 'n' {
                    '\n'
                } else if d == 'r' {
                    '\r'
                } else {
                    '\t'
                };
                proof {
                    assert(match p_str_body(s@, j as int + 2) {
                        Some(p) => p_str_body(s@, j as int) == Some((seq![cv] + p.0, p.1)),
                        None => p_str_body(s@, j as int) is None,
                    });
                }
                acc.push(cv);
                step = 2;
                proof {
                    assert(accb.push(cv) =~= accb + seq![cv]);
                    assert(forall|w: Seq<char>|
                        (accb + seq![cv]) + w =~= accb + (#[trigger] (seq![cv] + w)));
                }
            } else if d == 'u' {
                if s.len() - j < 6 {
                    proof {
                        assert(j as int + 6 > s@.len());
                        assert(p_str_body(s@, j as int) is None);
                    }
                    return None;
                }
                let h0 = match hex_digit_val(s[j + 2]) {
                    Some(h) => h,
                    None => {
                        return None;
                    },
                };
                let h1 = match hex_digit_val(s[j + 3]) {
                    Some(h) => h,
                    None => {
                        return None;
                    },
                };
                let h2 = match hex_digit_val(s[j + 4]) {
                    Some(h) => h,
                    None => {
                        return None;
                    },
                };
                let h3 = match hex_digit_val(s[j + 5]) {
                    Some(h) => h,
                    None => {
                        return None;
                    },
                };
                let v: u32 = h0 * 4096 + h1 * 256 + h2 * 16 + h3;
                if 0xD800 <= v && v < 0xE000 {
                    return None;
                }
                let cv = char_from_scalar(v);
                proof {
                    assert(v as int == hex_val(s@[j as int + 2]) * 4096 + hex_val(
                        s@[j as int + 3],
                    ) * 256 + hex_val(s@[j as int + 4]) * 16 + hex_val(s@[j as int + 5]));
                    assert(match p_str_body(s@, j as int + 6) {
                        Some(p) => p_str_body(s@, j as int) == Some((seq![cv] + p.0, p.1)),
                        None => p_str_body(s@, j as int) is None,
                    });
                }
                acc.push(cv);
                step = 6;
                proof {
                    assert(accb.push(cv) =~= accb + seq![cv]);
                    assert(forall|w: Seq<char>|
                        (accb + seq![cv]) + w =~= accb + (#[trigger] (seq![cv] + w)));
                }
            } else {
                return None;
            }
        } else {
            proof {
                assert(match p_str_body(s@, j as int + 1) {
                    Some(p) => p_str_body(s@, j as int) == Some((seq![c] + p.0, p.1)),
                    None => p_str_body(s@, j as int) is None,
                });
            }
            acc.push(c);
            step = 1;
            proof {
                assert(accb.push(c) =~= accb + seq![c]);
                assert(forall|w: Seq<char>|
                    (accb + seq![c]) + w =~= accb + (#[trigger] (seq![c] + w)));
            }
        }
        j = j + step;
    }
}

/// Expects the exact characters of `lit` at `i`.
fn expect_lit(s: &Vec<char>, i: usize, lit: &str) -> (r: Option<usize>)
    requires
        i <= s@.len(),
    ensures
        match r {
            Some(j) => p_lit(s@, i as int, lit@) == Some(j as int) && i <= j <= s@.len(),
            None => p_lit(s@, i as int, lit@) is None,
        },
{
    let cs = string_to_chars(lit);
    let n = cs.len();
    let slen = s.len();
    if slen - i < n {
        proof {
            assert(i as int + lit@.len() > s@.len());
        }
        return None;
    }
    let mut k: usize = 0;
    while k < n
        invariant
            k <= n == cs@.len(),
            cs@ == lit@,
            slen == s@.len(),
            i + n <= slen,
            forall|t: int| 0 <= t < k ==> s@[i + t] == #[trigger] lit@[t],
        decreases n - k,
    {
        if s[i + k] != cs[k] {
            proof {
                if p_lit(s@, i as int, lit@) is Some {
                    assert(s@.subrange(i as int, i as int + lit@.len() as int) == lit@);
                    assert(s@.subrange(i as int, i as int + lit@.len() as int)[k as int]
                        == lit@[k as int]);
                    assert(false);
                }
            }
            return None;
        }
        k = k + 1;
    }
    proof {
        assert(s@.subrange(i as int, i as int + lit@.len() as int) =~= lit@) by {
            assert forall|t: int|
                0 <= t < lit@.len() implies s@.subrange(
                i as int,
                i as int + lit@.len() as int,
            )[t] == #[trigger] lit@[t] by {
                assert(s@.subrange(i as int, i as int + lit@.len() as int)[t] == s@[i + t]);
            }
        }
    }
    Some(i + n)
}

fn parse_u128_at(s: &Vec<char>, i: usize) -> (r: Option<(u128, usize)>)
    requires
        i <= s@.len(),
    ensures
        match r {
            Some((v, j)) => p_u128(s@, i as int) == Some((v, j as int)) && i <= j <= s@.len(),
            None => p_u128(s@, i as int) is None,
        },
{
    if i >= s.len() {
        return None;
    }
    let c = s[i];
    if c < '0' || '9' < c {
        return None;
    }
    proof {
        crate::num::lemma_scan_consumes(s@, i as int, 0);
    }
    match crate::num::scan_u128(s, i, 0) {
        Some((v, j)) => Some((v, j)),
        None => None,
    }
}

fn parse_u64_at(s: &Vec<char>, i: usize) -> (r: Option<(u64, usize)>)
    requires
        i <= s@.len(),
    ensures
        match r {
            Some((v, j)) => p_u64(s@, i as int) == Some((v, j as int)) && i <= j <= s@.len(),
            None => p_u64(s@, i as int) is None,
        },
{
    match parse_u128_at(s, i) {
        Some((v, j)) => if v <= u64::MAX as u128 {
            Some((v as u64, j))
        } else {
            None
        },
        None => None,
    }
}

fn parse_u16_at(s: &Vec<char>, i: usize) -> (r: Option<(u16, usize)>)
    requires
        i <= s@.len(),
    ensures
        match r {
            Some((v, j)) => p_u16(s@, i as int) == Some((v, j as int)) && i <= j <= s@.len(),
            None => p_u16(s@, i as int) is None,
        },
{
    match parse_u128_at(s, i) {
        Some((v, j)) => if v <= u16::MAX as u128 {
            Some((v as u16, j))
        } else {
            None
        },
        None => None,
    }
}

fn parse_i64_at(s: &Vec<char>, i: usize) -> (r: Option<(i64, usize)>)
    requires
        i <= s@.len(),
    ensures
        match r {
            Some((v, j)) => p_i64(s@, i as int) == Some((v, j as int)) && i <= j <= s@.len(),
            None => p_i64(s@, i as int) is None,
        },
{
    if i < s.len() && s[i] == '-' {
        match parse_u128_at(s, i + 1) {
            Some((v, j)) => if v <= 0x8000000000000000u128 {
                let out: i64 = if v == 0x8000000000000000u128 {
                    i64::MIN
                } else {
                    -(v as i64)
                };
                proof {
                    assert(out as int == -(v as int));
                }
                Some((out, j))
            } else {
                None
            },
            None => None,
        }
    } else {
        match parse_u128_at(s, i) {
            Some((v, j)) => if v <= i64::MAX as u128 {
                Some((v as i64, j))
            } else {
                None
            },
            None => None,
        }
    }
}

fn parse_bool_at(s: &Vec<char>, i: usize) -> (r: Option<(bool, usize)>)
    requires
        i <= s@.len(),
    ensures
        match r {
            Some((v, j)) => p_bool(s@, i as int) == Some((v, j as int)) && i <= j <= s@.len(),
            None => p_bool(s@, i as int) is None,
        },
{
    proof {
        reveal_strlit("true");
        reveal_strlit("false");
        assert("true"@ =~= enc_bool(true));
        assert("false"@ =~= enc_bool(false));
    }
    match expect_lit(s, i, "true") {
        Some(j) => Some((true, j)),
        None => match expect_lit(s, i, "false") {
            Some(j) => Some((false, j)),
            None => None,
        },
    }
}

fn parse_method_at(s: &Vec<char>, i: usize) -> (r: Option<(HTTPMethod, usize)>)
    requires
        i <= s@.len(),
    ensures
        match r {
            Some((v, j)) => p_method(s@, i as int) == Some((v, j as int)) && i <= j <= s@.len(),
            None => p_method(s@, i as int) is None,
        },
{
    proof {
        reveal_strlit("\"GET\"");
        reveal_strlit("\"POST\"");
        reveal_strlit("\"PUT\"");
        reveal_strlit("\"PATCH\"");
        reveal_strlit("\"DELETE\"");
        assert("\"GET\""@ =~= enc_method(HTTPMethod::GET));
        assert("\"POST\""@ =~= enc_method(HTTPMethod::POST));
        assert("\"PUT\""@ =~= enc_method(HTTPMethod::PUT));
        assert("\"PATCH\""@ =~= enc_method(HTTPMethod::PATCH));
        assert("\"DELETE\""@ =~= enc_method(HTTPMethod::DELETE));
    }
    match expect_lit(s, i, "\"GET\"") {
        Some(j) => Some((HTTPMethod::GET, j)),
        None => match expect_lit(s, i, "\"POST\"") {
            Some(j) => Some((HTTPMethod::POST, j)),
            None => match expect_lit(s, i, "\"PUT\"") {
                Some(j) => Some((HTTPMethod::PUT, j)),
                None => match expect_lit(s, i, "\"PATCH\"") {
                    Some(j) => Some((HTTPMethod::PATCH, j)),
                    None => match expect_lit(s, i, "\"DELETE\"") {
                        Some(j) => Some((HTTPMethod::DELETE, j)),
                        None => None,
                    },
                },
            },
        },
    }
}

fn parse_body_type_at(s: &Vec<char>, i: usize) -> (r: Option<(BodyType, usize)>)
    requires
        i <= s@.len(),
    ensures
        match r {
            Some((v, j)) => p_body_type(s@, i as int) == Some((v, j as int)) && i <= j
                <= s@.len(),
            None => p_body_type(s@, i as int) is None,
        },
{
    proof {
        reveal_strlit("\"None\"");
        reveal_strlit("\"Raw\"");
        reveal_strlit("\"JSON\"");
        assert("\"None\""@ =~= enc_body_type(BodyType::NoBody));
        assert("\"Raw\""@ =~= enc_body_type(BodyType::Raw));
        assert("\"JSON\""@ =~= enc_body_type(BodyType::Json));
    }
    match expect_lit(s, i, "\"None\"") {
        Some(j) => Some((BodyType::NoBody, j)),
        None => match expect_lit(s, i, "\"Raw\"") {
            Some(j) => Some((BodyType::Raw, j)),
            None => match expect_lit(s, i, "\"JSON\"") {
                Some(j) => Some((BodyType::Json, j)),
                None => None,
            },
        },
    }
}

/// Reads one row object.
fn parse_kv_at(s: &Vec<char>, i: usize) -> (r: Option<(KeyValue, usize)>)
    requires
        i <= s@.len(),
    ensures
        match r {
            Some((kv, j)) => p_kv(s@, i as int) == Some((kv@, j as int)) && i <= j <= s@.len(),
            None => p_kv(s@, i as int) is None,
        },
{
    proof {
        reveal_strlit("{\"key\":");
        reveal_strlit(",\"value\":");
        reveal_strlit(",\"enabled\":");
        reveal_strlit("}");
        assert("{\"key\":"@ =~= l_kv_key());
        assert(",\"value\":"@ =~= l_kv_value());
        assert(",\"enabled\":"@ =~= l_kv_enabled());
        assert("}"@ =~= seq!['}']);
    }
    let j0 = match expect_lit(s, i, "{\"key\":") {
        Some(j) => j,
        None => {
            return None;
        },
    };
    let (key, j1) = match parse_string_at(s, j0) {
        Some(p) => p,
        None => {
            return None;
        },
    };
    let j2 = match expect_lit(s, j1, ",\"value\":") {
        Some(j) => j,
        None => {
            return None;
        },
    };
    let (value, j3) = match parse_string_at(s, j2) {
        Some(p) => p,
        None => {
            return None;
        },
    };
    let j4 = match expect_lit(s, j3, ",\"enabled\":") {
        Some(j) => j,
        None => {
            return None;
        },
    };
    let (enabled, j5) = match parse_bool_at(s, j4) {
        Some(p) => p,
        None => {
            return None;
        },
    };
    let j6 = match expect_lit(s, j5, "}") {
        Some(j) => j,
        None => {
            return None;
        },
    };
    Some((KeyValue { key, value, enabled }, j6))
}

/// Reads one or more comma-separated rows up to and over the closing
/// bracket.
fn parse_kv_items_at(s: &Vec<char>, i: usize, fuel: usize) -> (r: Option<(Vec<KeyValue>, usize)>)
    requires
        i <= s@.len(),
    ensures
        match r {
            Some((vs, j)) => p_kv_items(s@, i as int, fuel as nat) == Some(
                (rows_view(vs@), j as int),
            ) && i <= j <= s@.len(),
            None => p_kv_items(s@, i as int, fuel as nat) is None,
        },
{
    let mut cur = i;
    let mut f = fuel;
    let mut acc: Vec<KeyValue> = Vec::new();
    loop
        invariant
            i <= cur <= s@.len(),
            f <= fuel,
            (match p_kv_items(s@, cur as int, f as nat) {
                Some(p) => p_kv_items(s@, i as int, fuel as nat) == Some(
                    (rows_view(acc@) + p.0, p.1),
                ),
                None => p_kv_items(s@, i as int, fuel as nat) is None,
            }),
        decreases f,
    {
        if f == 0 {
            return None;
        }
        match parse_kv_at(s, cur) {
            None => {
                return None;
            },
            Some((kv, j)) => {
                if j < s.len() && s[j] == ',' {
                    proof {
                        assert(match p_kv_items(s@, j as int + 1, (f - 1) as nat) {
                            Some(p) => p_kv_items(s@, cur as int, f as nat) == Some(
                                (seq![kv@] + p.0, p.1),
                            ),
                            None => p_kv_items(s@, cur as int, f as nat) is None,
                        });
                    }
                    let ghost accb = acc@;
                    acc.push(kv);
                    proof {
                        assert(rows_view(acc@) =~= rows_view(accb) + seq![kv@]);
                        assert(forall|w: Seq<KeyValueView>|
                            (rows_view(accb) + seq![kv@]) + w =~= rows_view(accb) + (#[trigger] (
                            seq![kv@] + w)));
                    }
                    cur = j + 1;
                    f = f - 1;
                } else if j < s.len() && s[j] == ']' {
                    proof {
                        assert(p_kv_items(s@, cur as int, f as nat) == Some(
                            (seq![kv@], j as int + 1),
                        ));
                    }
                    let ghost accb = acc@;
                    acc.push(kv);
                    proof {
                        assert(rows_view(acc@) =~= rows_view(accb) + seq![kv@]);
                    }
                    return Some((acc, j + 1));
                } else {
                    return None;
                }
            },
        }
    }
}

/// Reads a row array.
fn parse_kv_list_at(s: &Vec<char>, i: usize, fuel: usize) -> (r: Option<(Vec<KeyValue>, usize)>)
    requires
        i <= s@.len(),
    ensures
        match r {
            Some((vs, j)) => p_kv_list(s@, i as int, fuel as nat) == Some(
                (rows_view(vs@), j as int),
            ) && i <= j <= s@.len(),
            None => p_kv_list(s@, i as int, fuel as nat) is None,
        },
{
    if s.len() - i < 2 {
        return None;
    }
    if s[i] != '[' {
        return None;
    }
    if s[i + 1] == ']' {
        let empty: Vec<KeyValue> = Vec::new();
        proof {
            assert(rows_view(empty@) =~= Seq::<KeyValueView>::empty());
        }
        return Some((empty, i + 2));
    }
    parse_kv_items_at(s, i + 1, fuel)
}

/// Reads one response-header pair.
fn parse_pair_at(s: &Vec<char>, i: usize) -> (r: Option<((String, String), usize)>)
    requires
        i <= s@.len(),
    ensures
        match r {
            Some((p, j)) => p_pair(s@, i as int) == Some(((p.0@, p.1@), j as int)) && i <= j
                <= s@.len(),
            None => p_pair(s@, i as int) is None,
        },
{
    proof {
        reveal_strlit(":");
        assert(":"@ =~= seq![':']);
    }
    let (k, j0) = match parse_string_at(s, i) {
        Some(p) => p,
        None => {
            return None;
        },
    };
    let j1 = match expect_lit(s, j0, ":") {
        Some(j) => j,
        None => {
            return None;
        },
    };
    let (v, j2) = match parse_string_at(s, j1) {
        Some(p) => p,
        None => {
            return None;
        },
    };
    Some(((k, v), j2))
}

fn parse_pair_items_at(s: &Vec<char>, i: usize, fuel: usize) -> (r: Option<
    (Vec<(String, String)>, usize),
>)
    requires
        i <= s@.len(),
    ensures
        match r {
            Some((vs, j)) => p_pair_items(s@, i as int, fuel as nat) == Some(
                (pairs_view(vs@), j as int),
            ) && i <= j <= s@.len(),
            None => p_pair_items(s@, i as int, fuel as nat) is None,
        },
{
    let mut cur = i;
    let mut f = fuel;
    let mut acc: Vec<(String, String)> = Vec::new();
    loop
        invariant
            i <= cur <= s@.len(),
            f <= fuel,
            (match p_pair_items(s@, cur as int, f as nat) {
                Some(p) => p_pair_items(s@, i as int, fuel as nat) == Some(
                    (pairs_view(acc@) + p.0, p.1),
                ),
                None => p_pair_items(s@, i as int, fuel as nat) is None,
            }),
        decreases f,
    {
        if f == 0 {
            return None;
        }
        match parse_pair_at(s, cur) {
            None => {
                return None;
            },
            Some((pr, j)) => {
                let ghost pv = (pr.0@, pr.1@);
                if j < s.len() && s[j] == ',' {
                    proof {
                        assert(match p_pair_items(s@, j as int + 1, (f - 1) as nat) {
                            Some(p) => p_pair_items(s@, cur as int, f as nat) == Some(
                                (seq![pv] + p.0, p.1),
                            ),
                            None => p_pair_items(s@, cur as int, f as nat) is None,
                        });
                    }
                    let ghost accb = acc@;
                    acc.push(pr);
                    proof {
                        assert(pairs_view(acc@) =~= pairs_view(accb) + seq![pv]);
                        assert(forall|w: Seq<(Seq<char>, Seq<char>)>|
                            (pairs_view(accb) + seq![pv]) + w =~= pairs_view(accb) + (#[trigger] (
                            seq![pv] + w)));
                    }
                    cur = j + 1;
                    f = f - 1;
                } else if j < s.len() && s[j] == '}' {
                    proof {
                        assert(p_pair_items(s@, cur as int, f as nat) == Some(
                            (seq![pv], j as int + 1),
                        ));
                    }
                    let ghost accb = acc@;
                    acc.push(pr);
                    proof {
                        assert(pairs_view(acc@) =~= pairs_view(accb) + seq![pv]);
                    }
                    return Some((acc, j + 1));
                } else {
                    return None;
                }
            },
        }
    }
}

/// Reads a name-to-value object.
fn parse_pairs_obj_at(s: &Vec<char>, i: usize, fuel: usize) -> (r: Option<
    (Vec<(String, String)>, usize),
>)
    requires
        i <= s@.len(),
    ensures
        match r {
            Some((vs, j)) => p_pairs_obj(s@, i as int, fuel as nat) == Some(
                (pairs_view(vs@), j as int),
            ) && i <= j <= s@.len(),
            None => p_pairs_obj(s@, i as int, fuel as nat) is None,
        },
{
    if s.len() - i < 2 {
        return None;
    }
    if s[i] != '{' {
        return None;
    }
    if s[i + 1] == '}' {
        let empty: Vec<(String, String)> = Vec::new();
        proof {
            assert(pairs_view(empty@) =~= Seq::<(Seq<char>, Seq<char>)>::empty());
        }
        return Some((empty, i + 2));
    }
    parse_pair_items_at(s, i + 1, fuel)
}

/// Reads one request object.
#[verifier::rlimit(100)]
fn parse_request_at(s: &Vec<char>, i: usize, fuel: usize) -> (r: Option<(HttpRequest, usize)>)
    requires
        i <= s@.len(),
    ensures
        match r {
            Some((v, j)) => p_request(s@, i as int, fuel as nat) == Some((v@, j as int)) && i <= j
                <= s@.len(),
            None => p_request(s@, i as int, fuel as nat) is None,
        },
{
    proof {
        reveal(p_request);
        reveal_strlit("{\"method\":");
        reveal_strlit(",\"url\":");
        reveal_strlit(",\"headers\":");
        reveal_strlit(",\"query_params\":");
        reveal_strlit(",\"body\":");
        reveal_strlit(",\"body_type\":");
        reveal_strlit(",\"timeout_ms\":");
        reveal_strlit("}");
        assert("{\"method\":"@ =~= l_req_open());
        assert(",\"url\":"@ =~= l_req_url());
        assert(",\"headers\":"@ =~= l_headers());
        assert(",\"query_params\":"@ =~= l_req_query());
        assert(",\"body\":"@ =~= l_body());
        assert(",\"body_type\":"@ =~= l_req_body_type());
        assert(",\"timeout_ms\":"@ =~= l_req_timeout());
        assert("}"@ =~= seq!['}']);
    }
    let j0 = match expect_lit(s, i, "{\"method\":") {
        Some(j) => j,
        None => {
            return None;
        },
    };
    let (method, j1) = match parse_method_at(s, j0) {
        Some(p) => p,
        None => {
            return None;
        },
    };
    let j2 = match expect_lit(s, j1, ",\"url\":") {
        Some(j) => j,
        None => {
            return None;
        },
    };
    let (url, j3) = match parse_string_at(s, j2) {
        Some(p) => p,
        None => {
            return None;
        },
    };
    let j4 = match expect_lit(s, j3, ",\"headers\":") {
        Some(j) => j,
        None => {
            return None;
        },
    };
    let (headers, j5) = match parse_kv_list_at(s, j4, fuel) {
        Some(p) => p,
        None => {
            return None;
        },
    };
    let j6 = match expect_lit(s, j5, ",\"query_params\":") {
        Some(j) => j,
        None => {
            return None;
        },
    };
    let (query_params, j7) = match parse_kv_list_at(s, j6, fuel) {
        Some(p) => p,
        None => {
            return None;
        },
    };
    let j8 = match expect_lit(s, j7, ",\"body\":") {
        Some(j) => j,
        None => {
            return None;
        },
    };
    let (body, j9) = match parse_string_at(s, j8) {
        Some(p) => p,
        None => {
            return None;
        },
    };
    let j10 = match expect_lit(s, j9, ",\"body_type\":") {
        Some(j) => j,
        None => {
            return None;
        },
    };
    let (body_type, j11) = match parse_body_type_at(s, j10) {
        Some(p) => p,
        None => {
            return None;
        },
    };
    let j12 = match expect_lit(s, j11, ",\"timeout_ms\":") {
        Some(j) => j,
        None => {
            return None;
        },
    };
    let (timeout_ms, j13) = match parse_u64_at(s, j12) {
        Some(p) => p,
        None => {
            return None;
        },
    };
    let j14 = match expect_lit(s, j13, "}") {
        Some(j) => j,
        None => {
            return None;
        },
    };
    Some((HttpRequest { method, url, headers, query_params, body, body_type, timeout_ms }, j14))
}

/// Reads one response object.
#[verifier::rlimit(100)]
fn parse_response_at(s: &Vec<char>, i: usize, fuel: usize) -> (r: Option<(HttpResponse, usize)>)
    requires
        i <= s@.len(),
    ensures
        match r {
            Some((v, j)) => p_response(s@, i as int, fuel as nat) == Some((v@, j as int)) && i <= j
                <= s@.len(),
            None => p_response(s@, i as int, fuel as nat) is None,
        },
{
    proof {
        reveal(p_response);
        reveal_strlit("{\"status\":");
        reveal_strlit(",\"status_text\":");
        reveal_strlit(",\"body\":");
        reveal_strlit(",\"headers\":");
        reveal_strlit(",\"duration_ms\":");
        reveal_strlit("}");
        assert("{\"status\":"@ =~= l_resp_open());
        assert(",\"status_text\":"@ =~= l_resp_text());
        assert(",\"body\":"@ =~= l_body());
        assert(",\"headers\":"@ =~= l_headers());
        assert(",\"duration_ms\":"@ =~= l_resp_duration());
        assert("}"@ =~= seq!['}']);
    }
    let j0 = match expect_lit(s, i, "{\"status\":") {
        Some(j) => j,
        None => {
            return None;
        },
    };
    let (status, j1) = match parse_u16_at(s, j0) {
        Some(p) => p,
        None => {
            return None;
        },
    };
    let j2 = match expect_lit(s, j1, ",\"status_text\":") {
        Some(j) => j,
        None => {
            return None;
        },
    };
    let (status_text, j3) = match parse_string_at(s, j2) {
        Some(p) => p,
        None => {
            return None;
        },
    };
    let j4 = match expect_lit(s, j3, ",\"body\":") {
        Some(j) => j,
        None => {
            return None;
        },
    };
    let (body, j5) = match parse_string_at(s, j4) {
        Some(p) => p,
        None => {
            return None;
        },
    };
    let j6 = match expect_lit(s, j5, ",\"headers\":") {
        Some(j) => j,
        None => {
            return None;
        },
    };
    let (headers, j7) = match parse_pairs_obj_at(s, j6, fuel) {
        Some(p) => p,
        None => {
            return None;
        },
    };
    let j8 = match expect_lit(s, j7, ",\"duration_ms\":") {
        Some(j) => j,
        None => {
            return None;
        },
    };
    let (duration_ms, j9) = match parse_u128_at(s, j8) {
        Some(p) => p,
        None => {
            return None;
        },
    };
    let j10 = match expect_lit(s, j9, "}") {
        Some(j) => j,
        None => {
            return None;
        },
    };
    Some((HttpResponse { status, status_text, body, headers, duration_ms }, j10))
}

/// Reads one history-item object.
fn parse_item_at(s: &Vec<char>, i: usize, fuel: usize) -> (r: Option<(HistoryItem, usize)>)
    requires
        i <= s@.len(),
    ensures
        match r {
            Some((v, j)) => p_item(s@, i as int, fuel as nat) == Some((v@, j as int)) && i <= j
                <= s@.len(),
            None => p_item(s@, i as int, fuel as nat) is None,
        },
{
    proof {
        reveal_strlit("{\"request\":");
        reveal_strlit(",\"response\":");
        reveal_strlit(",\"timestamp\":");
        reveal_strlit("}");
        assert("{\"request\":"@ =~= l_item_open());
        assert(",\"response\":"@ =~= l_item_resp());
        assert(",\"timestamp\":"@ =~= l_item_ts());
        assert("}"@ =~= seq!['}']);
    }
    let j0 = match expect_lit(s, i, "{\"request\":") {
        Some(j) => j,
        None => {
            return None;
        },
    };
    let (request, j1) = match parse_request_at(s, j0, fuel) {
        Some(p) => p,
        None => {
            return None;
        },
    };
    let j2 = match expect_lit(s, j1, ",\"response\":") {
        Some(j) => j,
        None => {
            return None;
        },
    };
    let (response, j3) = match parse_response_at(s, j2, fuel) {
        Some(p) => p,
        None => {
            return None;
        },
    };
    let j4 = match expect_lit(s, j3, ",\"timestamp\":") {
        Some(j) => j,
        None => {
            return None;
        },
    };
    let (timestamp, j5) = match parse_i64_at(s, j4) {
        Some(p) => p,
        None => {
            return None;
        },
    };
    let j6 = match expect_lit(s, j5, "}") {
        Some(j) => j,
        None => {
            return None;
        },
    };
    Some((HistoryItem { request, response, timestamp }, j6))
}

pub open spec fn items_view(v: Seq<HistoryItem>) -> Seq<HistoryItemView> {
    Seq::new(v.len(), |i: int| v[i]@)
}

fn parse_history_items_at(s: &Vec<char>, i: usize, fuel: usize) -> (r: Option<
    (Vec<HistoryItem>, usize),
>)
    requires
        i <= s@.len(),
    ensures
        match r {
            Some((vs, j)) => p_history_items(s@, i as int, fuel as nat) == Some(
                (items_view(vs@), j as int),
            ) && i <= j <= s@.len(),
            None => p_history_items(s@, i as int, fuel as nat) is None,
        },
{
    let mut cur = i;
    let mut f = fuel;
    let mut acc: Vec<HistoryItem> = Vec::new();
    loop
        invariant
            i <= cur <= s@.len(),
            f <= fuel,
            (match p_history_items(s@, cur as int, f as nat) {
                Some(p) => p_history_items(s@, i as int, fuel as nat) == Some(
                    (items_view(acc@) + p.0, p.1),
                ),
                None => p_history_items(s@, i as int, fuel as nat) is None,
            }),
        decreases f,
    {
        if f == 0 {
            return None;
        }
        match parse_item_at(s, cur, f) {
            None => {
                return None;
            },
            Some((it, j)) => {
                if j < s.len() && s[j] == ',' {
                    proof {
                        assert(match p_history_items(s@, j as int + 1, (f - 1) as nat) {
                            Some(p) => p_history_items(s@, cur as int, f as nat) == Some(
                                (seq![it@] + p.0, p.1),
                            ),
                            None => p_history_items(s@, cur as int, f as nat) is None,
                        });
                    }
                    let ghost accb = acc@;
                    acc.push(it);
                    proof {
                        assert(items_view(acc@) =~= items_view(accb) + seq![it@]);
                        assert(forall|w: Seq<HistoryItemView>|
                            (items_view(accb) + seq![it@]) + w =~= items_view(accb) + (#[trigger] (
                            seq![it@] + w)));
                    }
                    cur = j + 1;
                    f = f - 1;
                } else if j < s.len() && s[j] == ']' {
                    proof {
                        assert(p_history_items(s@, cur as int, f as nat) == Some(
                            (seq![it@], j as int + 1),
                        ));
                    }
                    let ghost accb = acc@;
                    acc.push(it);
                    proof {
                        assert(items_view(acc@) =~= items_view(accb) + seq![it@]);
                    }
                    return Some((acc, j + 1));
                } else {
                    return None;
                }
            },
        }
    }
}

/// Reads a whole persisted history text; `None` where the text is not
/// exactly one well-formed array.
pub fn parse_history(text: &str) -> (r: Option<Vec<HistoryItem>>)
    ensures
        match r {
            Some(v) => parse_history_s(text@) == Some(items_view(v@)),
            None => parse_history_s(text@) is None,
        },
{
    let cs = string_to_chars(text);
    let n = cs.len();
    let parsed: Option<(Vec<HistoryItem>, usize)> = if n < 2 {
        None
    } else if cs[0] != '[' {
        None
    } else if cs[1] == ']' {
        let empty: Vec<HistoryItem> = Vec::new();
        proof {
            assert(items_view(empty@) =~= Seq::<HistoryItemView>::empty());
        }
        Some((empty, 2))
    } else {
        parse_history_items_at(&cs, 1, n)
    };
    proof {
        if n < 2 || cs@[0] != '[' {
            assert(p_history_list(cs@, 0, n as nat) is None);
        }
    }
    match parsed {
        Some((items, j)) => if j == n {
            Some(items)
        } else {
            None
        },
        None => None,
    }
}

} // verus!
