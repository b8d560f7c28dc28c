//! Decimal rendering and scanning of unsigned integers, with the
//! round-trip lemmas the history codec builds on.
use vstd::prelude::*;

verus! {

/// The character for one decimal digit.
pub open spec fn digit_char(d: int) -> char {
    if d == 0 {
        '0'
    } else if d == 1 {
        '1'
    } else if d == 2 {
        '2'
    } else if d == 3 {
        '3'
    } else if d == 4 {
        '4'
    } else if d == 5 {
        '5'
    } else if d == 6 {
        '6'
    } else if d == 7 {
        '7'
    } else if d == 8 {
        '8'
    } else {
        '9'
    }
}

pub open spec fn is_dec_digit(c: char) -> bool {
    '0' <= c && c <= '9'
}

/// The numeric value of a digit character.
pub open spec fn digit_val(c: char) -> int {
    c as int - '0' as int
}

/// The decimal rendering of `n`, most significant digit first, with
/// no leading zeros (a lone `'0'` for zero).
pub open spec fn dec_rep(n: nat) -> Seq<char>
    decreases n,
{
    if n < 10 {
        seq![digit_char(n as int)]
    } else {
        dec_rep(n / 10).push(digit_char((n % 10) as int))
    }
}

/// The value of a digit string, most significant digit first.
pub open spec fn dec_val(s: Seq<char>) -> int
    decreases s.len(),
{
    if s.len() == 0 {
        0
    } else {
        dec_val(s.drop_last()) * 10 + digit_val(s.last())
    }
}

pub open spec fn all_digits(s: Seq<char>) -> bool {
    forall|k: int| 0 <= k < s.len() ==> is_dec_digit(#[trigger] s[k])
}

pub open spec fn pow10(k: nat) -> int
    decreases k,
{
    if k == 0 {
        1
    } else {
        10 * pow10((k - 1) as nat)
    }
}

pub proof fn lemma_pow10_pos(k: nat)
    ensures
        pow10(k) >= 1,
    decreases k,
{
    if k > 0 {
        lemma_pow10_pos((k - 1) as nat);
    }
}

pub proof fn lemma_dec_rep_digits(n: nat)
    ensures
        all_digits(dec_rep(n)),
        dec_rep(n).len() >= 1,
    decreases n,
{
    if n >= 10 {
        lemma_dec_rep_digits(n / 10);
    }
}

pub proof fn lemma_dec_val_nonneg(s: Seq<char>)
    requires
        all_digits(s),
    ensures
        dec_val(s) >= 0,
    decreases s.len(),
{
    if s.len() > 0 {
        assert(all_digits(s.drop_last())) by {
            assert(forall|k: int|
                0 <= k < s.drop_last().len() ==> s.drop_last()[k] == #[trigger] s[k]);
        }
        lemma_dec_val_nonneg(s.drop_last());
    }
}

/// `dec_val` read from the most significant digit: peeling the first
/// digit contributes `digit * 10^(rest)`.
pub proof fn lemma_dec_val_head(s: Seq<char>)
    requires
        s.len() >= 1,
    ensures
        dec_val(s) == digit_val(s[0]) * pow10((s.len() - 1) as nat) + dec_val(s.drop_first()),
    decreases s.len(),
{
    if s.len() == 1 {
        assert(s.drop_first().len() == 0);
        assert(dec_val(s.drop_first()) == 0);
        assert(s.drop_last().len() == 0);
        assert(dec_val(s.drop_last()) == 0);
        assert(s.last() == s[0]);
        assert(dec_val(s) == digit_val(s[0]));
    } else {
        let b = s.drop_last();
        lemma_dec_val_head(b);
        assert(b.drop_first() =~= s.drop_first().drop_last());
        assert(s.drop_first().last() == s.last());
        let k = (b.len() - 1) as nat;
        let d0 = digit_val(s[0]);
        assert(b[0] == s[0]);
        let r = dec_val(b.drop_first());
        assert(dec_val(s) == dec_val(b) * 10 + digit_val(s.last()));
        assert(dec_val(b) == d0 * pow10(k) + r);
        assert((d0 * pow10(k) + r) * 10 == d0 * (pow10(k) * 10) + r * 10) by (nonlinear_arith);
        assert(pow10((k + 1) as nat) == 10 * pow10(k));
        assert(dec_val(s.drop_first()) == r * 10 + digit_val(s.last()));
        assert((s.len() - 1) as nat == (k + 1) as nat);
        assert(dec_val(s) == d0 * pow10((k + 1) as nat) + dec_val(s.drop_first()));
    }
}

/// Rendering then reading a number gives it back.
pub proof fn lemma_dec_val_rep(n: nat)
    ensures
        dec_val(dec_rep(n)) == n,
    decreases n,
{
    if n < 10 {
        assert(dec_rep(n).len() == 1);
        assert(dec_rep(n).drop_last().len() == 0);
        assert(dec_val(dec_rep(n).drop_last()) == 0);
        assert(dec_rep(n).last() == digit_char(n as int));
        assert(digit_val(digit_char(n as int)) == n);
    } else {
        lemma_dec_val_rep(n / 10);
        let s = dec_rep(n);
        assert(s.drop_last() =~= dec_rep(n / 10));
        assert(s.last() == digit_char((n % 10) as int));
        assert(digit_val(digit_char((n % 10) as int)) == n % 10);
        assert(dec_val(s) == dec_val(dec_rep(n / 10)) * 10 + (n % 10));
    }
}

/// Scanning state machine for an unsigned decimal run: consumes digits
/// from position `i`, accumulating into `acc`, and stops at the first
/// non-digit; reports failure where the value would not fit in `u128`.
pub open spec fn scan_u128_s(s: Seq<char>, i: int, acc: u128) -> Option<(u128, int)>
    decreases s.len() - i,
{
    if i < 0 || i >= s.len() || !is_dec_digit(s[i]) {
        Some((acc, i))
    } else if acc as int * 10 + digit_val(s[i]) > u128::MAX {
        None
    } else {
        scan_u128_s(s, i + 1, (acc as int * 10 + digit_val(s[i])) as u128)
    }
}

/// A digit run whose value fits is scanned exactly: the scanner stops
/// at its end and returns the accumulated value.
pub proof fn lemma_scan_digits(s: Seq<char>, i: int, j: int, acc: u128)
    requires
        0 <= i <= j <= s.len(),
        all_digits(s.subrange(i, j)),
        j == s.len() || !is_dec_digit(s[j]),
        acc as int * pow10((j - i) as nat) + dec_val(s.subrange(i, j)) <= u128::MAX,
    ensures
        scan_u128_s(s, i, acc) == Some(
            ((acc as int * pow10((j - i) as nat) + dec_val(s.subrange(i, j))) as u128, j),
        ),
    decreases j - i,
{
    let run = s.subrange(i, j);
    lemma_dec_val_nonneg(run);
    if i == j {
        assert(run.len() == 0);
        assert(acc as int * 1 + 0 == acc as int);
    } else {
        assert(is_dec_digit(s[i])) by {
            assert(run[0] == s[i]);
        }
        lemma_dec_val_head(run);
        let rest = run.drop_first();
        assert(rest =~= s.subrange(i + 1, j));
        let m = (j - i) as nat;
        let d = digit_val(s[i]);
        lemma_dec_val_nonneg(rest);
        assert(all_digits(rest));
        lemma_pow10_pos((m - 1) as nat);
        // value decomposition at the head digit
        assert(run[0] == s[i]);
        assert(dec_val(run) == d * pow10((m - 1) as nat) + dec_val(rest));
        let p = pow10((m - 1) as nat);
        let acc2 = acc as int * 10 + d;
        // the next accumulator times the remaining weight equals the whole
        assert((acc as int * 10 + d) * p == acc as int * (10 * p) + d * p) by (nonlinear_arith);
        assert(10 * p == pow10(m));
        assert(acc2 * p + dec_val(rest) == acc as int * pow10(m) + dec_val(run));
        // no overflow at this step: acc2 <= acc2 * p since p >= 1
        assert(acc2 >= 0);
        vstd::arithmetic::mul::lemma_mul_inequality(1, p, acc2);
        assert(1 * acc2 == acc2 && p * acc2 == acc2 * p) by (nonlinear_arith);
        assert(acc2 <= acc2 * p);
        assert(acc2 <= u128::MAX);
        lemma_scan_digits(s, i + 1, j, acc2 as u128);
        assert(s.subrange(i + 1, j) == rest);
    }
}

pub proof fn lemma_scan_consumes(s: Seq<char>, i: int, acc: u128)
    requires
        0 <= i <= s.len(),
    ensures
        scan_u128_s(s, i, acc) matches Some(p) ==> i <= p.1 <= s.len(),
    decreases s.len() - i,
{
    if i < s.len() && is_dec_digit(s[i]) && acc as int * 10 + digit_val(s[i]) <= u128::MAX {
        lemma_scan_consumes(s, i + 1, (acc as int * 10 + digit_val(s[i])) as u128);
    }
}

/// One decimal digit as a character.
pub fn digit_to_char(d: u128) -> (c: char)
    requires
        d < 10,
    ensures
        c == digit_char(d as int),
{
    match d {
        0 => '0',
        1 => '1',
        2 => '2',
        3 => '3',
        4 => '4',
        5 => '5',
        6 => '6',
        7 => '7',
        8 => '8',
        _ => '9',
    }
}

/// Appends the decimal rendering of `n` to `out`.
pub fn push_decimal(n: u128, out: &mut Vec<char>)
    ensures
        final(out)@ == old(out)@ + dec_rep(n as nat),
    decreases n,
{
    if n >= 10 {
        push_decimal(n / 10, out);
    }
    out.push(digit_to_char(n % 10));
    proof {
        if n >= 10 {
            assert(final(out)@ =~= old(out)@ + dec_rep(n as nat));
        } else {
            assert(final(out)@ =~= old(out)@ + dec_rep(n as nat));
        }
    }
}

/// Scans a decimal digit run starting at `i`, mirroring
/// [`scan_u128_s`]; `None` means the run's value does not fit.
pub fn scan_u128(s: &Vec<char>, i: usize, acc: u128) -> (r: Option<(u128, usize)>)
    requires
        i <= s@.len(),
    ensures
        match r {
            Some(p) => Some((p.0, p.1 as int)) == scan_u128_s(s@, i as int, acc) && i <= p.1
                <= s@.len(),
            None => scan_u128_s(s@, i as int, acc) is None,
        },
    decreases s@.len() - i,
{
    if i >= s.len() {
        return Some((acc, i));
    }
    let c = s[i];
    if c < '0' || '9' < c {
        return Some((acc, i));
    }
    let d: u128 = (c as u32 as u128) - ('0' as u32 as u128);
    assert(d == digit_val(c) && d < 10);
    match acc.checked_mul(10) {
        Some(t) => match t.checked_add(d) {
            Some(v) => scan_u128(s, i + 1, v),
            None => None,
        },
        None => None,
    }
}

} // verus!
