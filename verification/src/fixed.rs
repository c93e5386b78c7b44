//! Fixed-point decimal values in millionths.
//!
//! Gain-map metadata values are log2-space reals with six decimal places in
//! their serialized form; this crate models each as an `i64` count of
//! millionths. This module formats such a value as decimal text with exactly
//! six fractional digits, parses decimal text back, and proves the round
//! trip.

use vstd::prelude::*;

verus! {

/// One million: the denominator of the fixed-point representation.
pub const MICRO: i64 = 1000000;

/// Ten to the `k`.
pub open spec fn pow10(k: nat) -> int
    decreases k,
{
    if k == 0 {
        1
    } else {
        10 * pow10((k - 1) as nat)
    }
}

/// Whether a byte is an ASCII decimal digit.
pub open spec fn is_digit(b: u8) -> bool {
    0x30 <= b <= 0x39
}

/// The decimal digits of `n`, most significant first (no sign, no padding).
pub open spec fn dec_digits(n: nat) -> Seq<u8>
    decreases n,
{
    if n < 10 {
        seq![(0x30 + n) as u8]
    } else {
        dec_digits(n / 10).push((0x30 + n % 10) as u8)
    }
}

/// The six zero-padded digits of a fraction `f < 1000000`.
pub open spec fn frac_digits(f: nat) -> Seq<u8> {
    seq![
        (0x30 + f / 100000 % 10) as u8,
        (0x30 + f / 10000 % 10) as u8,
        (0x30 + f / 1000 % 10) as u8,
        (0x30 + f / 100 % 10) as u8,
        (0x30 + f / 10 % 10) as u8,
        (0x30 + f % 10) as u8,
    ]
}

/// The decimal text of `v` millionths: optional minus sign, the integer
/// part, a dot, and exactly six fractional digits.
pub open spec fn fmt_micros(v: int) -> Seq<u8> {
    let mag = vstd::math::abs(v);
    let sign: Seq<u8> = if v < 0 {
        seq![0x2Du8]
    } else {
        Seq::empty()
    };
    sign + dec_digits(mag / 1000000) + seq![0x2Eu8] + frac_digits(mag % 1000000)
}

/// The value of a digit sequence read as a decimal numeral.
pub open spec fn digits_value(s: Seq<u8>) -> int
    decreases s.len(),
{
    if s.len() == 0 {
        0
    } else {
        digits_value(s.drop_last()) * 10 + (s.last() - 0x30)
    }
}

/// The number of leading ASCII digits of `s`.
pub open spec fn digits_prefix_len(s: Seq<u8>) -> int
    decreases s.len(),
{
    if s.len() == 0 || !is_digit(s[0]) {
        0
    } else {
        1 + digits_prefix_len(s.drop_first())
    }
}

/// The value in millionths of a fraction digit string: only the first six
/// digits count, shorter strings are zero-padded on the right.
pub open spec fn frac_value(s: Seq<u8>) -> int {
    if s.len() >= 6 {
        digits_value(s.take(6))
    } else {
        digits_value(s) * pow10((6 - s.len()) as nat)
    }
}

/// The parse of decimal text into millionths: an optional sign, up to
/// twelve integer digits, and an optional dot followed by fraction digits;
/// at least one digit must be present and nothing may follow. Anything
/// else, or an integer part of more than twelve digits, parses to `None`.
pub open spec fn parse_micros(s: Seq<u8>) -> Option<int> {
    let neg = s.len() > 0 && s[0] == 0x2Du8;
    let t = if s.len() > 0 && (s[0] == 0x2Du8 || s[0] == 0x2Bu8) {
        s.drop_first()
    } else {
        s
    };
    let k = digits_prefix_len(t);
    if k > 12 {
        None
    } else {
        let ip = digits_value(t.take(k));
        let rest = t.skip(k);
        if rest.len() == 0 {
            if k == 0 {
                None
            } else {
                Some(if neg { -ip * 1000000 } else { ip * 1000000 })
            }
        } else if rest[0] == 0x2Eu8 {
            let fr = rest.drop_first();
            let k2 = digits_prefix_len(fr);
            if k2 != fr.len() || (k == 0 && k2 == 0) {
                None
            } else {
                let v = ip * 1000000 + frac_value(fr);
                Some(if neg { -v } else { v })
            }
        } else {
            None
        }
    }
}

/// The digit-prefix length is never negative.
proof fn lemma_digits_prefix_nonneg(s: Seq<u8>)
    ensures
        digits_prefix_len(s) >= 0,
    decreases s.len(),
{
    if s.len() > 0 && is_digit(s[0]) {
        lemma_digits_prefix_nonneg(s.drop_first());
    }
}

/// Appends the decimal digits of `n`, most significant first.
fn push_dec(out: &mut Vec<u8>, n: u64)
    ensures
        final(out)@ == old(out)@ + dec_digits(n as nat),
    decreases n,
{
    if n < 10 {
        out.push(0x30 + n as u8);
        assert(out@ =~= old(out)@ + dec_digits(n as nat));
    } else {
        push_dec(out, n / 10);
        out.push(0x30 + (n % 10) as u8);
        assert(out@ =~= old(out)@ + dec_digits(n as nat));
    }
}

/// Formats `v` millionths as decimal text with six fractional digits.
pub fn fmt_micros_bytes(v: i64) -> (r: Vec<u8>)
    ensures
        r@ == fmt_micros(v as int),
{
    let mut out: Vec<u8> = Vec::new();
    let mag: u64 = if v >= 0 {
        v as u64
    } else {
        ((-(v + 1)) as u64) + 1
    };
    assert(mag == vstd::math::abs(v as int));
    if v < 0 {
        out.push(0x2D);
    }
    push_dec(&mut out, mag / 1000000);
    out.push(0x2E);
    let f = mag % 1000000;
    out.push(0x30 + (f / 100000 % 10) as u8);
    out.push(0x30 + (f / 10000 % 10) as u8);
    out.push(0x30 + (f / 1000 % 10) as u8);
    out.push(0x30 + (f / 100 % 10) as u8);
    out.push(0x30 + (f / 10 % 10) as u8);
    out.push(0x30 + (f % 10) as u8);
    assert(out@ =~= fmt_micros(v as int));
    out
}

/// Parses decimal text into millionths.
#[verifier::rlimit(100)]
pub fn parse_micros_bytes(s: &[u8]) -> (r: Option<i64>)
    ensures
        match r {
            Some(v) => parse_micros(s@) == Some(v as int),
            None => parse_micros(s@) is None,
        },
{
    let n = s.len();
    let mut i: usize = 0;
    let mut neg = false;
    if n > 0 && (s[0] == 0x2D || s[0] == 0x2B) {
        neg = s[0] == 0x2D;
        i = 1;
        proof {
            assert(s@.skip(1) =~= s@.drop_first());
        }
    } else {
        proof {
            assert(s@.skip(0) =~= s@);
        }
    }
    let ghost t = s@.skip(i as int);

    // Integer digits.
    let int_start = i;
    let mut ip: u64 = 0;
    while i < n && 0x30 <= s[i] && s[i] <= 0x39
        invariant
            n == s@.len(),
            int_start <= i <= n,
            i - int_start <= 12,
            t == s@.skip(int_start as int),
            t == (if s@.len() > 0 && (s@[0] == 0x2Du8 || s@[0] == 0x2Bu8) {
                s@.drop_first()
            } else {
                s@
            }),
            neg == (s@.len() > 0 && s@[0] == 0x2Du8),
            forall|j: int| int_start <= j < i ==> is_digit(#[trigger] s@[j]),
            digits_prefix_len(t) == (i - int_start) + digits_prefix_len(s@.skip(i as int)),
            ip == digits_value(s@.subrange(int_start as int, i as int)),
            ip < pow10((i - int_start) as nat),
        decreases n - i,
    {
        proof {
            assert(s@.skip(i as int)[0] == s@[i as int]);
            assert(s@.skip(i as int).drop_first() =~= s@.skip(i as int + 1));
        }
        if i - int_start == 12 {
            // A thirteenth integer digit: out of range.
            proof {
                lemma_digits_prefix_nonneg(s@.skip(i as int + 1));
                assert(digits_prefix_len(s@.skip(i as int)) >= 1);
                assert(digits_prefix_len(t) > 12);
                assert(t == (if s@.len() > 0 && (s@[0] == 0x2Du8 || s@[0] == 0x2Bu8) {
                    s@.drop_first()
                } else {
                    s@
                }));
                assert(parse_micros(s@) is None);
            }
            return None;
        }
        let d = (s[i] - 0x30) as u64;
        let ghost pre = s@.subrange(int_start as int, i as int);
        proof {
            reveal_with_fuel(pow10, 13);
            assert(pow10(12) == 1000000000000);
            lemma_pow10_le(((i - int_start) as nat), 12);
        }
        ip = ip * 10 + d;
        proof {
            assert(s@.subrange(int_start as int, i as int + 1).drop_last() =~= pre);
            assert(s@.subrange(int_start as int, i as int + 1).last() == s@[i as int]);
        }
        i += 1;
    }
    let k = i - int_start;
    proof {
        assert(digits_prefix_len(s@.skip(i as int)) == 0);
        assert(t.take(k as int) =~= s@.subrange(int_start as int, i as int));
        assert(t.skip(k as int) =~= s@.skip(i as int));
        reveal_with_fuel(pow10, 13);
        assert(pow10(12) == 1000000000000);
        lemma_pow10_le((k as nat), 12);
    }

    if i == n {
        if k == 0 {
            return None;
        }
        let v = ip * 1000000;
        let r = if neg {
            -(v as i64)
        } else {
            v as i64
        };
        return Some(r);
    }
    if s[i] != 0x2E {
        return None;
    }
    // Fraction digits: only the first six contribute; the value is padded
    // to six decimal places.
    let fr_start = i + 1;
    proof {
        assert(s@.skip(i as int)[0] == s@[i as int]);
        assert(s@.skip(i as int).drop_first() =~= s@.skip(fr_start as int));
    }
    let mut j: usize = fr_start;
    let mut f: u64 = 0;
    let mut count: usize = 0;
    while j < n && 0x30 <= s[j] && s[j] <= 0x39
        invariant
            n == s@.len(),
            fr_start <= j <= n,
            count == if j - fr_start <= 6 {
                j - fr_start
            } else {
                6
            },
            forall|m: int| fr_start <= m < j ==> is_digit(#[trigger] s@[m]),
            digits_prefix_len(s@.skip(fr_start as int)) == (j - fr_start) + digits_prefix_len(
                s@.skip(j as int),
            ),
            f == digits_value(s@.subrange(fr_start as int, fr_start as int + count as int)),
            f < pow10(count as nat),
        decreases n - j,
    {
        proof {
            assert(s@.skip(j as int)[0] == s@[j as int]);
            assert(s@.skip(j as int).drop_first() =~= s@.skip(j as int + 1));
        }
        if count < 6 {
            let d = (s[j] - 0x30) as u64;
            let ghost pre = s@.subrange(fr_start as int, fr_start as int + count as int);
            proof {
                reveal_with_fuel(pow10, 13);
                assert(pow10(6) == 1000000);
                lemma_pow10_le((count as nat), 6);
            }
            f = f * 10 + d;
            count += 1;
            proof {
                assert(s@.subrange(fr_start as int, fr_start as int + count as int).drop_last()
                    =~= pre);
                assert(s@.subrange(fr_start as int, fr_start as int + count as int).last()
                    == s@[j as int]);
            }
        }
        j += 1;
    }
    proof {
        assert(digits_prefix_len(s@.skip(j as int)) == 0);
    }
    if j != n {
        // Junk after the fraction digits.
        return None;
    }
    if k == 0 && j == fr_start {
        return None;
    }
    // Pad the fraction to six decimal places.
    proof {
        reveal_with_fuel(pow10, 13);
        assert(pow10(0) == 1 && pow10(1) == 10 && pow10(2) == 100 && pow10(3) == 1000 && pow10(4)
            == 10000 && pow10(5) == 100000 && pow10(6) == 1000000);
    }
    let mut padded: u64 = f;
    if count == 0 {
        assert(f < 1);
        padded = f * 1000000;
    } else if count == 1 {
        assert(f < 10);
        padded = f * 100000;
    } else if count == 2 {
        assert(f < 100);
        padded = f * 10000;
    } else if count == 3 {
        assert(f < 1000);
        padded = f * 1000;
    } else if count == 4 {
        assert(f < 10000);
        padded = f * 100;
    } else if count == 5 {
        assert(f < 100000);
        padded = f * 10;
    }
    proof {
        let ghost fr = s@.skip(fr_start as int);
        assert(fr.len() == n - fr_start);
        if n - fr_start >= 6 {
            assert(fr.take(6) =~= s@.subrange(fr_start as int, fr_start as int + 6));
            assert(padded == frac_value(fr));
        } else {
            assert(fr =~= s@.subrange(fr_start as int, fr_start as int + count as int));
            assert(padded == frac_value(fr));
        }
    }
    assert(padded < 1000000);
    assert(ip < 1000000000000);
    let v = ip * 1000000 + padded;
    let r = if neg {
        -(v as i64)
    } else {
        v as i64
    };
    Some(r)
}

/// `pow10` is monotone in the exponent.
proof fn lemma_pow10_le(a: nat, b: nat)
    requires
        a <= b,
    ensures
        pow10(a) <= pow10(b),
        pow10(a) >= 1,
    decreases b,
{
    if b > 0 {
        if a == b {
            lemma_pow10_le((a - 1) as nat, (b - 1) as nat);
        } else {
            lemma_pow10_le(a, (b - 1) as nat);
        }
    }
}

/// Every byte of `dec_digits` is an ASCII digit.
pub(crate) proof fn lemma_dec_digits_are_digits(n: nat)
    ensures
        dec_digits(n).len() >= 1,
        forall|i: int| 0 <= i < dec_digits(n).len() ==> is_digit(#[trigger] dec_digits(n)[i]),
    decreases n,
{
    if n >= 10 {
        lemma_dec_digits_are_digits(n / 10);
        assert forall|i: int| 0 <= i < dec_digits(n).len() implies is_digit(
            #[trigger] dec_digits(n)[i],
        ) by {
            if i < dec_digits(n).len() - 1 {
                assert(dec_digits(n)[i] == dec_digits(n / 10)[i]);
            }
        }
    }
}

/// Reading back the digits of `n` gives `n`.
proof fn lemma_dec_digits_value(n: nat)
    ensures
        digits_value(dec_digits(n)) == n,
    decreases n,
{
    if n < 10 {
        assert(digits_value(Seq::<u8>::empty()) == 0);
        assert(dec_digits(n).drop_last() =~= Seq::<u8>::empty());
        assert(dec_digits(n).last() == (0x30 + n) as u8);
    } else {
        lemma_dec_digits_value(n / 10);
        assert(dec_digits(n).drop_last() =~= dec_digits(n / 10));
        assert(dec_digits(n).last() == (0x30 + n % 10) as u8);
        assert(digits_value(dec_digits(n)) == digits_value(dec_digits(n / 10)) * 10 + (n % 10));
        assert((n / 10) * 10 + n % 10 == n);
    }
}

/// `dec_digits(n)` has at most `k` digits when `n < pow10(k)`.
proof fn lemma_dec_digits_len(n: nat, k: nat)
    requires
        k >= 1,
        n < pow10(k),
    ensures
        dec_digits(n).len() <= k,
    decreases n,
{
    if n >= 10 {
        assert(pow10(k) == 10 * pow10((k - 1) as nat));
        lemma_pow10_le(1, (k - 1) as nat);
        lemma_dec_digits_len(n / 10, (k - 1) as nat);
    }
}

/// The digit prefix of an all-digit sequence followed by a non-digit is
/// exactly the all-digit part.
proof fn lemma_digits_prefix_concat(d: Seq<u8>, rest: Seq<u8>)
    requires
        forall|i: int| 0 <= i < d.len() ==> is_digit(#[trigger] d[i]),
        rest.len() > 0,
        !is_digit(rest[0]),
    ensures
        digits_prefix_len(d + rest) == d.len(),
    decreases d.len(),
{
    if d.len() == 0 {
        assert(d + rest =~= rest);
    } else {
        assert((d + rest)[0] == d[0]);
        assert((d + rest).drop_first() =~= d.drop_first() + rest);
        lemma_digits_prefix_concat(d.drop_first(), rest);
    }
}

/// The digit prefix of an all-digit sequence is the whole sequence.
proof fn lemma_digits_prefix_all(d: Seq<u8>)
    requires
        forall|i: int| 0 <= i < d.len() ==> is_digit(#[trigger] d[i]),
    ensures
        digits_prefix_len(d) == d.len(),
    decreases d.len(),
{
    if d.len() > 0 {
        lemma_digits_prefix_all(d.drop_first());
    }
}

/// The base-ten expansion of a six-digit fraction.
proof fn lemma_frac_decompose(f: int)
    requires
        0 <= f < 1000000,
    ensures
        ((((f / 100000 % 10) * 10 + f / 10000 % 10) * 10 + f / 1000 % 10) * 10 + f / 100 % 10) * 10
            * 10 + (f / 10 % 10) * 10 + f % 10 == f,
{
    let g5 = f / 100000;
    let g4 = f / 10000;
    let g3 = f / 1000;
    let g2 = f / 100;
    let g1 = f / 10;
    vstd::arithmetic::div_mod::lemma_div_denominator(f, 10, 10);
    vstd::arithmetic::div_mod::lemma_div_denominator(f, 100, 10);
    vstd::arithmetic::div_mod::lemma_div_denominator(f, 1000, 10);
    vstd::arithmetic::div_mod::lemma_div_denominator(f, 10000, 10);
    assert(g1 / 10 == g2);
    assert(g2 / 10 == g3);
    assert(g3 / 10 == g4);
    assert(g4 / 10 == g5);
    assert(g5 % 10 == g5);
    assert(g5 * 10 + g4 % 10 == g4);
    assert(g4 * 10 + g3 % 10 == g3);
    assert(g3 * 10 + g2 % 10 == g2);
    assert(g2 * 10 + g1 % 10 == g1);
    assert(g1 * 10 + f % 10 == f);
}

/// Reading back the six padded fraction digits gives the fraction.
pub(crate) proof fn lemma_frac_digits_value(f: nat)
    requires
        f < 1000000,
    ensures
        frac_digits(f).len() == 6,
        forall|i: int| 0 <= i < 6 ==> is_digit(#[trigger] frac_digits(f)[i]),
        digits_value(frac_digits(f)) == f,
{
    let fi = f as int;
    let b0 = (0x30 + f / 100000 % 10) as u8;
    let b1 = (0x30 + f / 10000 % 10) as u8;
    let b2 = (0x30 + f / 1000 % 10) as u8;
    let b3 = (0x30 + f / 100 % 10) as u8;
    let b4 = (0x30 + f / 10 % 10) as u8;
    let b5 = (0x30 + f % 10) as u8;
    let s = frac_digits(f);
    assert(s =~= seq![b0, b1, b2, b3, b4, b5]);
    assert(digits_value(Seq::<u8>::empty()) == 0);
    assert(seq![b0].drop_last() =~= Seq::<u8>::empty());
    assert(seq![b0, b1].drop_last() =~= seq![b0]);
    assert(seq![b0, b1, b2].drop_last() =~= seq![b0, b1]);
    assert(seq![b0, b1, b2, b3].drop_last() =~= seq![b0, b1, b2]);
    assert(seq![b0, b1, b2, b3, b4].drop_last() =~= seq![b0, b1, b2, b3]);
    assert(s.drop_last() =~= seq![b0, b1, b2, b3, b4]);
    let g5 = fi / 100000;
    let g4 = fi / 10000;
    let g3 = fi / 1000;
    let g2 = fi / 100;
    let g1 = fi / 10;
    vstd::arithmetic::div_mod::lemma_div_denominator(fi, 10, 10);
    vstd::arithmetic::div_mod::lemma_div_denominator(fi, 100, 10);
    vstd::arithmetic::div_mod::lemma_div_denominator(fi, 1000, 10);
    vstd::arithmetic::div_mod::lemma_div_denominator(fi, 10000, 10);
    assert(g1 / 10 == g2 && g2 / 10 == g3 && g3 / 10 == g4 && g4 / 10 == g5);
    assert(digits_value(seq![b0]) == g5 % 10);
    assert(g5 % 10 == g5);
    assert(digits_value(seq![b0, b1]) == g5 * 10 + g4 % 10);
    assert(g5 * 10 + g4 % 10 == g4);
    assert(digits_value(seq![b0, b1, b2]) == g4 * 10 + g3 % 10);
    assert(g4 * 10 + g3 % 10 == g3);
    assert(digits_value(seq![b0, b1, b2, b3]) == g3 * 10 + g2 % 10);
    assert(g3 * 10 + g2 % 10 == g2);
    assert(digits_value(seq![b0, b1, b2, b3, b4]) == g2 * 10 + g1 % 10);
    assert(g2 * 10 + g1 % 10 == g1);
    assert(digits_value(s) == g1 * 10 + fi % 10);
    assert(g1 * 10 + fi % 10 == fi);
}

/// Round trip: formatting a fixed-point value and parsing the text yields
/// the value again, for every value whose integer part has at most twelve
/// digits.
pub proof fn lemma_micros_round_trip(v: int)
    requires
        -999999999999999999 <= v <= 999999999999999999,
    ensures
        parse_micros(fmt_micros(v)) == Some(v),
{
    let mag = vstd::math::abs(v) as int;
    let ip = (mag / 1000000) as int;
    let f = (mag % 1000000) as int;
    let d = dec_digits(ip as nat);
    let fr = frac_digits(f as nat);
    let s = fmt_micros(v);
    lemma_dec_digits_are_digits(ip as nat);
    lemma_dec_digits_value(ip as nat);
    assert(pow10(12) == 1000000000000) by {
        reveal_with_fuel(pow10, 13);
    }
    assert(ip <= 999999999999) by (nonlinear_arith)
        requires
            mag <= 999999999999999999,
            mag >= 0,
            ip == mag / 1000000,
    ;
    lemma_dec_digits_len(ip as nat, 12);
    lemma_frac_digits_value(f as nat);
    let tail = d + seq![0x2Eu8] + fr;
    assert(seq![0x2Eu8] + fr =~= (seq![0x2Eu8] + fr));
    lemma_digits_prefix_concat(d, seq![0x2Eu8] + fr);
    assert(d + (seq![0x2Eu8] + fr) =~= tail);
    lemma_digits_prefix_all(fr);

    if v < 0 {
        assert(s =~= seq![0x2Du8] + tail);
        assert(s[0] == 0x2Du8);
        assert(s.drop_first() =~= tail);
        let t = tail;
        let k = digits_prefix_len(t);
        assert(k == d.len());
        assert(1 <= k <= 12);
        assert(t.take(k) =~= d);
        assert(t.skip(k) =~= seq![0x2Eu8] + fr);
        assert(t.skip(k)[0] == 0x2Eu8);
        assert(t.skip(k).drop_first() =~= fr);
        assert(digits_prefix_len(fr) == 6);
        assert(fr.take(6) =~= fr);
        assert(frac_value(fr) == f);
        assert(digits_value(t.take(k)) == ip);
        assert(parse_micros(s) == Some(-(ip * 1000000 + f)));
        assert(ip * 1000000 + f == mag) by (nonlinear_arith)
            requires
                ip == mag / 1000000,
                f == mag % 1000000,
                mag >= 0,
        ;
    } else {
        assert(s =~= tail);
        assert(s.len() > 0 && s[0] == d[0]);
        assert(is_digit(s[0]));
        assert(s[0] != 0x2Du8 && s[0] != 0x2Bu8);
        let t = s;
        let k = digits_prefix_len(t);
        assert(k == d.len());
        assert(1 <= k <= 12);
        assert(t.take(k) =~= d);
        assert(t.skip(k) =~= seq![0x2Eu8] + fr);
        assert(t.skip(k)[0] == 0x2Eu8);
        assert(t.skip(k).drop_first() =~= fr);
        assert(digits_prefix_len(fr) == 6);
        assert(fr.take(6) =~= fr);
        assert(frac_value(fr) == f);
        assert(digits_value(t.take(k)) == ip);
        assert(parse_micros(s) == Some(ip * 1000000 + f));
        assert(ip * 1000000 + f == mag) by (nonlinear_arith)
            requires
                ip == mag / 1000000,
                f == mag % 1000000,
                mag >= 0,
        ;
    }
}

} // verus!
