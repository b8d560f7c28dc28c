//! Readable renderings of text, durations and sizes.
use vstd::prelude::*;
use vstd::string::{StringExecFns, StringSliceAdditionalSpecFns};
use vstd::utf8::{encode_utf8, is_ascii_chars_encode_utf8, is_char_boundary};
use crate::num::{dec_rep, push_decimal};
use crate::text::chars_to_string;

verus! {

/// Two decimal digits, zero-padded.
pub open spec fn pad2(n: int) -> Seq<char> {
    if n < 10 {
        seq!['0'] + dec_rep(n as nat)
    } else {
        dec_rep(n as nat)
    }
}

/// The UTF-8 encoding of two character runs in a row is the two
/// encodings in a row.
pub proof fn lemma_encode_utf8_concat(a: Seq<char>, b: Seq<char>)
    ensures
        encode_utf8(a + b) == encode_utf8(a) + encode_utf8(b),
    decreases a.len(),
{
    if a.len() == 0 {
        assert(a + b =~= b);
        assert(encode_utf8(a).len() == 0);
        assert(encode_utf8(a) + encode_utf8(b) =~= encode_utf8(b));
    } else {
        assert((a + b)[0] == a[0]);
        assert((a + b).drop_first() =~= a.drop_first() + b);
        lemma_encode_utf8_concat(a.drop_first(), b);
        assert(vstd::utf8::encode_scalar(a[0] as u32) + (encode_utf8(a.drop_first()) + encode_utf8(
            b,
        )) =~= (vstd::utf8::encode_scalar(a[0] as u32) + encode_utf8(a.drop_first())) + encode_utf8(
            b,
        ));
    }
}

/// The first `max_length` bytes followed by an ellipsis, or the text
/// itself when it is short enough. Lengths count bytes.
pub open spec fn truncate_bytes(bytes: Seq<u8>, max_length: int) -> Seq<u8> {
    if bytes.len() <= max_length {
        bytes
    } else {
        bytes.subrange(0, max_length) + seq![46u8, 46u8, 46u8]
    }
}

/// Cuts the text to its first `max_length` bytes and marks the cut
/// with an ellipsis; short enough text comes back unchanged. The cut
/// must fall on a character boundary.
pub fn truncate(text: &str, max_length: usize) -> (r: String)
    requires
        text.spec_bytes().len() <= max_length || is_char_boundary(
            text.spec_bytes(),
            max_length as int,
        ),
    ensures
        encode_utf8(r@) == truncate_bytes(text.spec_bytes(), max_length as int),
        text.spec_bytes().len() <= max_length ==> r@ == text@,
{
    let byte_len = text.as_bytes().len();
    if byte_len <= max_length {
        let r = text.to_owned();
        proof {
            assert(text.spec_bytes() == encode_utf8(text@));
            assert(encode_utf8(r@) == encode_utf8(text@));
        }
        r
    } else {
        let (head, _) = text.split_at(max_length);
        let mut s = head.to_owned();
        s.append("...");
        proof {
            reveal_strlit("...");
            assert("..."@ =~= seq!['.', '.', '.']);
            lemma_encode_utf8_concat(head@, "..."@);
            assert(head.spec_bytes() =~= text.spec_bytes().subrange(0, max_length as int));
            assert(encode_utf8(seq!['.', '.', '.']) =~= seq![46u8, 46u8, 46u8]) by {
                assert(vstd::utf8::is_ascii_chars(seq!['.', '.', '.']));
                is_ascii_chars_encode_utf8(seq!['.', '.', '.']);
                assert(encode_utf8(seq!['.', '.', '.']).len() == 3);
                assert(seq!['.', '.', '.'][0] as u8 == 46u8);
                assert(encode_utf8(seq!['.', '.', '.'])[0] == seq!['.', '.', '.'][0] as u8);
                assert(encode_utf8(seq!['.', '.', '.'])[1] == seq!['.', '.', '.'][1] as u8);
                assert(encode_utf8(seq!['.', '.', '.'])[2] == seq!['.', '.', '.'][2] as u8);
            }
            assert(encode_utf8(s@) =~= truncate_bytes(text.spec_bytes(), max_length as int));
        }
        s
    }
}

/// A duration under a second reads as milliseconds; under a minute as
/// seconds with two decimals, rounded half up; beyond that as whole
/// minutes and seconds.
pub open spec fn format_duration_spec(ms: u128) -> Seq<char> {
    if ms < 1000 {
        dec_rep(ms as nat) + seq!['m', 's']
    } else if ms < 60000 {
        let centis = (ms + 5) / 10;
        dec_rep((centis / 100) as nat) + seq!['.'] + pad2((centis % 100) as int) + seq!['s']
    } else {
        let seconds = ms / 1000;
        dec_rep((seconds / 60) as nat) + seq!['m', ' '] + dec_rep((seconds % 60) as nat) + seq![
            's',
        ]
    }
}

fn push_pad2(out: &mut Vec<char>, n: u128)
    requires
        n < 100,
    ensures
        final(out)@ == old(out)@ + pad2(n as int),
{
    if n < 10 {
        out.push('0');
    }
    push_decimal(n, out);
    proof {
        assert(final(out)@ =~= old(out)@ + pad2(n as int));
    }
}

pub fn format_duration(ms: u128) -> (r: String)
    ensures
        r@ == format_duration_spec(ms),
{
    let mut out: Vec<char> = Vec::new();
    if ms < 1000 {
        push_decimal(ms, &mut out);
        out.push('m');
        out.push('s');
        proof {
            assert(out@ =~= format_duration_spec(ms));
        }
    } else if ms < 60000 {
        let centis = (ms + 5) / 10;
        push_decimal(centis / 100, &mut out);
        out.push('.');
        push_pad2(&mut out, centis % 100);
        out.push('s');
        proof {
            assert(out@ =~= format_duration_spec(ms));
        }
    } else {
        let seconds = ms / 1000;
        push_decimal(seconds / 60, &mut out);
        out.push('m');
        out.push(' ');
        push_decimal(seconds % 60, &mut out);
        out.push('s');
        proof {
            assert(out@ =~= format_duration_spec(ms));
        }
    }
    chars_to_string(&out)
}

/// `num / den` rounded to the nearest whole, ties to even.
pub open spec fn round_half_even(num: int, den: int) -> int {
    let q = num / den;
    let r2 = 2 * (num % den);
    if r2 > den {
        q + 1
    } else if r2 < den {
        q
    } else if q % 2 == 0 {
        q
    } else {
        q + 1
    }
}

/// A hundredths value as a decimal with two places.
pub open spec fn centi_str(c: int) -> Seq<char> {
    dec_rep((c / 100) as nat) + seq!['.'] + pad2(c % 100)
}

/// A byte count reads in the largest binary unit it fills, with two
/// decimals, rounded to nearest (ties to even).
pub open spec fn format_bytes_spec(b: nat) -> Seq<char> {
    if b < 1024 {
        dec_rep(b) + seq![' ', 'B']
    } else if b < 1048576 {
        centi_str(round_half_even(b as int * 100, 1024)) + seq![' ', 'K', 'B']
    } else if b < 1073741824 {
        centi_str(round_half_even(b as int * 100, 1048576)) + seq![' ', 'M', 'B']
    } else {
        centi_str(round_half_even(b as int * 100, 1073741824)) + seq![' ', 'G', 'B']
    }
}

fn push_centi(out: &mut Vec<char>, scaled: u128, den: u128)
    requires
        0 < den <= 0x80000000,
        scaled as int / den as int + 1 < u128::MAX,
    ensures
        final(out)@ == old(out)@ + centi_str(round_half_even(scaled as int, den as int)),
{
    let q = scaled / den;
    let rem = scaled % den;
    let rounded: u128 = if 2 * rem > den || (2 * rem == den && q % 2 == 1) {
        q + 1
    } else {
        q
    };
    proof {
        assert(2 * (scaled as int % den as int) < 2 * den as int);
        assert(rounded as int == round_half_even(scaled as int, den as int));
    }
    push_decimal(rounded / 100, out);
    out.push('.');
    push_pad2(out, rounded % 100);
    proof {
        assert(final(out)@ =~= old(out)@ + centi_str(round_half_even(
            scaled as int,
            den as int,
        )));
    }
}

pub fn format_bytes(bytes: usize) -> (r: String)
    ensures
        r@ == format_bytes_spec(bytes as nat),
{
    let mut out: Vec<char> = Vec::new();
    let b = bytes as u128;
    if b < 1024 {
        push_decimal(b, &mut out);
        out.push(' ');
        out.push('B');
        proof {
            assert(out@ =~= format_bytes_spec(bytes as nat));
        }
    } else {
        let scaled = b * 100;
        proof {
            assert(b <= u64::MAX as u128 + 1);
            assert(scaled < u128::MAX) by (nonlinear_arith)
                requires
                    b <= 0x10000000000000000u128,
                    scaled == b * 100,
            ;
        }
        if b < 1048576 {
            push_centi(&mut out, scaled, 1024);
            out.push(' ');
            out.push('K');
            out.push('B');
        } else if b < 1073741824 {
            push_centi(&mut out, scaled, 1048576);
            out.push(' ');
            out.push('M');
            out.push('B');
        } else {
            push_centi(&mut out, scaled, 1073741824);
            out.push(' ');
            out.push('G');
            out.push('B');
        }
        proof {
            assert(out@ =~= format_bytes_spec(bytes as nat));
        }
    }
    chars_to_string(&out)
}

} // verus!
