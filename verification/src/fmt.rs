//! Number formatting: the decimal and hexadecimal digits of integers, and
//! the zero padding of `{:0N}`-style format specifiers.

use vstd::prelude::*;
use crate::text::append_chars;

verus! {

/// The digits `0-9a-f`.
pub open spec fn digit_chars() -> Seq<char> {
    seq!['0', '1', '2', '3', '4', '5', '6', '7', '8', '9', 'a', 'b', 'c', 'd', 'e', 'f']
}

/// The digits of `n` in base `b` (2 to 16), lowercase, without leading
/// zeros; `0` is written `"0"`.
pub open spec fn digits(n: nat, b: nat) -> Seq<char>
    recommends
        2 <= b <= 16,
    decreases n,
{
    if n < b || b < 2 {
        seq![digit_chars()[n as int]]
    } else {
        proof {
            assert(n / b < n) by (nonlinear_arith)
                requires
                    b >= 2,
                    n >= b,
            ;
        }
        digits(n / b, b).push(digit_chars()[(n % b) as int])
    }
}

/// `s` padded on the left with `0` to at least `width` characters.
pub open spec fn zero_pad(s: Seq<char>, width: nat) -> Seq<char> {
    if s.len() >= width {
        s
    } else {
        Seq::new((width - s.len()) as nat, |i: int| '0') + s
    }
}

/// What `format!("{:0w$}", n)` writes for an integer `n`: the sign counts
/// toward the width and the zeros go after it.
pub open spec fn signed_zero_pad(n: int, width: nat) -> Seq<char> {
    if n < 0 {
        seq!['-'] + zero_pad(digits((-n) as nat, 10), if width >= 1 {
            (width - 1) as nat
        } else {
            0
        })
    } else {
        zero_pad(digits(n as nat, 10), width)
    }
}

// ---------------------------------------------------------------------------
// Reading digits back.

/// The value of a digit character `0-9a-f`, or -1 for any other character.
pub open spec fn char_value(c: char) -> int {
    if '0' <= c && c <= '9' {
        c as int - '0' as int
    } else if 'a' <= c && c <= 'f' {
        c as int - 'a' as int + 10
    } else {
        -1
    }
}

/// Every character of `s` is a digit of base `b`.
pub open spec fn all_digits_in(s: Seq<char>, b: nat) -> bool {
    forall|i: int| 0 <= i < s.len() ==> 0 <= #[trigger] char_value(s[i]) < b
}

/// The number the digits `s` spell in base `b`.
pub open spec fn digits_value(s: Seq<char>, b: nat) -> int
    decreases s.len(),
{
    if s.len() == 0 {
        0
    } else {
        digits_value(s.drop_last(), b) * b + char_value(s.last())
    }
}

proof fn lemma_digit_char_value(d: int)
    requires
        0 <= d < 16,
    ensures
        char_value(digit_chars()[d]) == d,
{
    if d == 0 {
    } else if d == 1 {
    } else if d == 2 {
    } else if d == 3 {
    } else if d == 4 {
    } else if d == 5 {
    } else if d == 6 {
    } else if d == 7 {
    } else if d == 8 {
    } else if d == 9 {
    } else if d == 10 {
    } else if d == 11 {
    } else if d == 12 {
    } else if d == 13 {
    } else if d == 14 {
    } else {
    }
}

/// The digits of `n` read back in base `b` give `n`.
pub proof fn lemma_digits_value(n: nat, b: nat)
    requires
        2 <= b <= 16,
    ensures
        all_digits_in(digits(n, b), b),
        digits_value(digits(n, b), b) == n,
        digits(n, b).len() >= 1,
    decreases n,
{
    if n < b {
        lemma_digit_char_value(n as int);
        assert(digits(n, b) =~= seq![digit_chars()[n as int]]);
        assert(digits(n, b).drop_last() =~= Seq::<char>::empty());
        assert(digits_value(digits(n, b), b) == digits_value(Seq::<char>::empty(), b) * b
            + char_value(digit_chars()[n as int]));
    } else {
        assert(n / b < n && n == (n / b) * b + n % b && 0 <= n % b < b) by (nonlinear_arith)
            requires
                b >= 2,
                n >= b,
        ;
        lemma_digits_value(n / b, b);
        lemma_digit_char_value((n % b) as int);
        let d = digits(n / b, b);
        assert(digits(n, b) == d.push(digit_chars()[(n % b) as int]));
        assert(digits(n, b).drop_last() =~= d);
        assert(digits(n, b).last() == digit_chars()[(n % b) as int]);
        let v = digits_value(d, b);
        assert(digits_value(digits(n, b), b) == v * b + (n % b) as int);
        assert(v == n / b);
        assert(v * b == (n / b) * b);
        assert forall|i: int| 0 <= i < digits(n, b).len() implies 0 <= #[trigger] char_value(
            digits(n, b)[i],
        ) < b by {
            if i < d.len() {
                assert(digits(n, b)[i] == d[i]);
            }
        }
    }
}

/// The digits of `n` in base `b` number at most `k` when `n < b^k`, for
/// `k` up to 3.
pub proof fn lemma_digits_len(n: nat, b: nat)
    requires
        2 <= b <= 16,
    ensures
        n < b ==> digits(n, b).len() == 1,
        n < b * b ==> digits(n, b).len() <= 2,
        n < b * b * b ==> digits(n, b).len() <= 3,
    decreases n,
{
    if n >= b {
        assert(n / b < n && (n < b * b ==> n / b < b) && (n < b * b * b ==> n / b < b * b))
            by (nonlinear_arith)
            requires
                b >= 2,
                n >= b,
        ;
        lemma_digits_len(n / b, b);
    }
}

/// Leading zeros do not change the value of digits.
pub proof fn lemma_leading_zeros(k: nat, s: Seq<char>, b: nat)
    ensures
        digits_value(Seq::new(k, |i: int| '0') + s, b) == digits_value(s, b),
        all_digits_in(s, b) && b >= 1 ==> all_digits_in(Seq::new(k, |i: int| '0') + s, b),
    decreases s.len() + k,
{
    let z = Seq::new(k, |i: int| '0');
    if s.len() == 0 {
        assert(z + s =~= z);
        if k > 0 {
            lemma_leading_zeros((k - 1) as nat, s, b);
            assert(z.drop_last() =~= Seq::new((k - 1) as nat, |i: int| '0'));
            assert((z + s).drop_last() =~= Seq::new((k - 1) as nat, |i: int| '0') + s);
        }
    } else {
        lemma_leading_zeros(k, s.drop_last(), b);
        assert((z + s).drop_last() =~= z + s.drop_last());
    }
    if all_digits_in(s, b) && b >= 1 {
        assert forall|i: int| 0 <= i < (z + s).len() implies 0 <= #[trigger] char_value(
            (z + s)[i],
        ) < b by {
            if i >= k {
                assert((z + s)[i] == s[i - k]);
            }
        }
    }
}

/// A number under `b^w` (for `w` up to 3) written with `zero_pad` to `w`
/// characters is `w` digits that read back as it.
pub proof fn lemma_zero_pad_reads(n: nat, b: nat, w: nat)
    requires
        2 <= b <= 16,
        1 <= w <= 8,
        digits(n, b).len() <= w,
    ensures
        zero_pad(digits(n, b), w).len() == w,
        all_digits_in(zero_pad(digits(n, b), w), b),
        digits_value(zero_pad(digits(n, b), w), b) == n,
{
    lemma_digits_value(n, b);
    let d = digits(n, b);
    if d.len() < w {
        lemma_leading_zeros((w - d.len()) as nat, d, b);
    }
}

fn digit_char(d: u64) -> (c: char)
    requires
        d < 16,
    ensures
        c == digit_chars()[d as int],
{
    let table: [char; 16] = [
        '0', '1', '2', '3', '4', '5', '6', '7', '8', '9', 'a', 'b', 'c', 'd', 'e', 'f',
    ];
    assert(table@ =~= digit_chars());
    table[d as usize]
}

/// The digits of `n` in base `b`.
pub fn digits_exec(n: u64, b: u64) -> (r: Vec<char>)
    requires
        2 <= b <= 16,
    ensures
        r@ == digits(n as nat, b as nat),
    decreases n,
{
    if n < b {
        let mut r: Vec<char> = Vec::new();
        r.push(digit_char(n));
        assert(r@ =~= seq![digit_chars()[n as int]]);
        r
    } else {
        assert(n / b < n) by (nonlinear_arith)
            requires
                b >= 2,
                n >= b,
        ;
        let mut r = digits_exec(n / b, b);
        r.push(digit_char(n % b));
        r
    }
}

/// Appends `s` padded on the left with zeros to `width`.
pub fn push_zero_padded(out: &mut Vec<char>, s: &Vec<char>, width: usize)
    ensures
        final(out)@ == old(out)@ + zero_pad(s@, width as nat),
{
    let ghost o = out@;
    if s.len() < width {
        let k = width - s.len();
        for i in 0..k
            invariant
                out@ == o + Seq::new(i as nat, |j: int| '0'),
        {
            out.push('0');
            assert(out@ =~= o + Seq::new((i + 1) as nat, |j: int| '0'));
        }
        append_chars(out, s);
        assert(out@ =~= o + (Seq::new(k as nat, |j: int| '0') + s@));
    } else {
        append_chars(out, s);
    }
}

/// Appends `n` in decimal, zero-padded to `width` the way `{:0width$}`
/// does it.
pub fn push_decimal(out: &mut Vec<char>, n: i64, width: usize)
    ensures
        final(out)@ == old(out)@ + signed_zero_pad(n as int, width as nat),
{
    if n < 0 {
        let ghost o = out@;
        out.push('-');
        let mag: u64 = if n == i64::MIN {
            9_223_372_036_854_775_808u64
        } else {
            (-n) as u64
        };
        let ds = digits_exec(mag, 10);
        let w = if width >= 1 {
            width - 1
        } else {
            0
        };
        push_zero_padded(out, &ds, w);
        assert(out@ =~= o + (seq!['-'] + zero_pad(ds@, w as nat)));
    } else {
        let ds = digits_exec(n as u64, 10);
        push_zero_padded(out, &ds, width);
    }
}

/// Appends `n` in lowercase hexadecimal, zero-padded to `width`
/// (`{:0width$x}`).
pub fn push_hex(out: &mut Vec<char>, n: u64, width: usize)
    ensures
        final(out)@ == old(out)@ + zero_pad(digits(n as nat, 16), width as nat),
{
    let ds = digits_exec(n, 16);
    push_zero_padded(out, &ds, width);
}

} // verus!
