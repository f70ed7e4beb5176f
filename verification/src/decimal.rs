//! Decimal text for 64-bit integers: the form the payload's timestamps take.
//! Rendering and reading are verified inverses.

use vstd::prelude::*;

verus! {

/// Powers of ten.
pub open spec fn pow10(k: nat) -> nat
    decreases k,
{
    if k == 0 {
        1
    } else {
        10 * pow10((k - 1) as nat)
    }
}

/// A decimal digit byte.
pub open spec fn is_digit(b: u8) -> bool {
    48 <= b <= 57
}

/// The decimal digits of a natural number, most significant first.
pub open spec fn dec_nat(n: nat) -> Seq<u8>
    decreases n,
{
    if n < 10 {
        seq![(48 + n) as u8]
    } else {
        dec_nat(n / 10) + seq![(48 + n % 10) as u8]
    }
}

/// The decimal text of an integer: a minus sign for a negative one, then the
/// digits of its magnitude.
pub open spec fn dec_int(n: int) -> Seq<u8> {
    if n < 0 {
        seq![45u8] + dec_nat((-n) as nat)
    } else {
        dec_nat(n as nat)
    }
}

/// The value of a digit string, most significant first.
pub open spec fn dec_value(s: Seq<u8>) -> int
    decreases s.len(),
{
    if s.len() == 0 {
        0
    } else {
        dec_value(s.drop_last()) * 10 + (s.last() - 48)
    }
}

/// How many leading digits `s` has.
pub open spec fn digit_run(s: Seq<u8>) -> nat
    decreases s.len(),
{
    if s.len() == 0 || !is_digit(s[0]) {
        0
    } else {
        1 + digit_run(s.skip(1))
    }
}

/// Reading a decimal integer off the front of `s`: the value and the number
/// of bytes consumed. `None` when no digit follows the optional sign, when
/// the digit run is longer than nineteen digits, or when the value does not
/// fit a 64-bit integer.
pub open spec fn parse_dec(s: Seq<u8>) -> Option<(int, int)> {
    let negative = s.len() > 0 && s[0] == 45;
    let body = if negative {
        s.skip(1)
    } else {
        s
    };
    let k = digit_run(body);
    if k == 0 || k > 19 {
        None
    } else {
        let m = dec_value(body.take(k as int));
        let v = if negative {
            -m
        } else {
            m
        };
        if i64::MIN <= v <= i64::MAX {
            Some((v, if negative { k + 1int } else { k as int }))
        } else {
            None
        }
    }
}

/// Every byte of `dec_nat` is a digit.
pub proof fn lemma_dec_nat_digits(n: nat)
    ensures
        dec_nat(n).len() >= 1,
        forall|i: int| 0 <= i < dec_nat(n).len() ==> is_digit(#[trigger] dec_nat(n)[i]),
    decreases n,
{
    if n >= 10 {
        lemma_dec_nat_digits(n / 10);
    }
}

/// `dec_nat(n)` has at most as many digits as the power of ten above `n`.
pub proof fn lemma_dec_nat_len(n: nat, k: nat)
    requires
        n < pow10(k),
        k >= 1,
    ensures
        dec_nat(n).len() <= k,
    decreases n,
{
    if n >= 10 {
        assert(pow10(k) == 10 * pow10((k - 1) as nat));
        lemma_dec_nat_len(n / 10, (k - 1) as nat);
    }
}

/// The digits of `n` evaluate back to `n`.
pub proof fn lemma_dec_nat_value(n: nat)
    ensures
        dec_value(dec_nat(n)) == n,
    decreases n,
{
    if n < 10 {
        let s = dec_nat(n);
        assert(s == seq![(48 + n) as u8]);
        assert(s.len() == 1);
        assert(s.drop_last() =~= Seq::<u8>::empty());
        assert(dec_value(s.drop_last()) == 0);
        assert(s.last() == (48 + n) as u8);
        assert(dec_value(s) == dec_value(s.drop_last()) * 10 + (s.last() - 48));
        assert(dec_value(s) == n);
    } else {
        lemma_dec_nat_value(n / 10);
        let s = dec_nat(n);
        assert(s == dec_nat(n / 10) + seq![(48 + n % 10) as u8]);
        assert(s.drop_last() =~= dec_nat(n / 10));
        assert(s.last() == (48 + n % 10) as u8);
        assert(dec_value(s) == dec_value(dec_nat(n / 10)) * 10 + n % 10);
        assert((n / 10) * 10 + n % 10 == n) by (nonlinear_arith);
    }
}

/// The digit run of digits followed by a non-digit stops exactly at the
/// boundary.
pub proof fn lemma_digit_run_exact(d: Seq<u8>, rest: Seq<u8>)
    requires
        forall|i: int| 0 <= i < d.len() ==> is_digit(#[trigger] d[i]),
        rest.len() == 0 || !is_digit(rest[0]),
    ensures
        digit_run(d + rest) == d.len(),
    decreases d.len(),
{
    if d.len() == 0 {
        assert(d + rest =~= rest);
    } else {
        lemma_digit_run_exact(d.skip(1), rest);
        assert((d + rest).skip(1) =~= d.skip(1) + rest);
    }
}

/// `pow10(19)` written out, so the parser's bounds reduce to literals.
pub proof fn lemma_pow10_19()
    ensures
        pow10(19) == 10_000_000_000_000_000_000,
{
    reveal_with_fuel(pow10, 21);
}

/// Reading undoes rendering: the parse of `dec_int(n)` followed by anything
/// that does not begin with a digit yields `n` and consumes the rendering.
pub proof fn lemma_dec_round_trip(n: i64, rest: Seq<u8>)
    requires
        rest.len() == 0 || (!is_digit(rest[0]) && rest[0] != 45),
    ensures
        parse_dec(dec_int(n as int) + rest) == Some((n as int, dec_int(n as int).len() as int)),
{
    lemma_pow10_19();
    let mag = if n < 0 {
        (-(n as int)) as nat
    } else {
        n as nat
    };
    let d = dec_nat(mag);
    lemma_dec_nat_digits(mag);
    lemma_dec_nat_value(mag);
    assert(mag < pow10(19));
    lemma_dec_nat_len(mag, 19);
    lemma_digit_run_exact(d, rest);
    if n < 0 {
        let s = dec_int(n as int) + rest;
        assert(s[0] == 45);
        assert(!is_digit(45));
        assert(s.skip(1) =~= d + rest);
        assert(digit_run(s) == 0);
        let k = digit_run(d + rest);
        assert(k == d.len());
        assert((d + rest).take(k as int) =~= d);
        assert(dec_value(d) == mag);
    } else {
        let s = dec_int(n as int) + rest;
        assert(s[0] == d[0]);
        assert(is_digit(s[0]));
        assert(s[0] != 45);
        assert(s =~= d + rest);
        let k = digit_run(d + rest);
        assert(k == d.len());
        assert((d + rest).take(k as int) =~= d);
        assert(dec_value(d) == mag);
    }
}

/// A digit run is at least as long as any all-digit prefix.
proof fn lemma_digit_run_at_least(s: Seq<u8>, m: int)
    requires
        0 <= m <= s.len(),
        forall|i: int| 0 <= i < m ==> is_digit(#[trigger] s[i]),
    ensures
        digit_run(s) >= m,
    decreases m,
{
    if m > 0 {
        assert(is_digit(s[0]));
        assert forall|i: int| 0 <= i < m - 1 implies is_digit(#[trigger] s.skip(1)[i]) by {
            assert(s.skip(1)[i] == s[i + 1]);
        }
        lemma_digit_run_at_least(s.skip(1), m - 1);
        assert(digit_run(s) == 1 + digit_run(s.skip(1)));
    }
}

/// Read a decimal integer off `s` at position `i`, returning the value and
/// the position after it.
pub fn read_i64(s: &[u8], i: usize) -> (r: Option<(i64, usize)>)
    requires
        i <= s@.len(),
    ensures
        match r {
            Some(p) => parse_dec(s@.skip(i as int)) == Some((p.0 as int, p.1 - i)) && i < p.1
                <= s@.len(),
            None => parse_dec(s@.skip(i as int)) is None,
        },
{
    let ghost whole = s@.skip(i as int);
    let mut j: usize = i;
    let negative: bool = j < s.len() && s[j] == 45;
    if negative {
        j = j + 1;
    }
    let start = j;
    let ghost body = s@.skip(start as int);
    proof {
        if negative {
            assert(body =~= whole.skip(1));
        } else {
            assert(body =~= whole);
        }
        lemma_pow10_19();
        assert(body.take(0) =~= Seq::<u8>::empty());
    }
    let mut k: usize = 0;
    let mut acc: u64 = 0;
    while j < s.len() && 48 <= s[j] && s[j] <= 57
        invariant
            i <= start <= j <= s@.len(),
            j == start + k,
            whole == s@.skip(i as int),
            body == s@.skip(start as int),
            negative == (whole.len() > 0 && whole[0] == 45),
            start == i + (if negative {
                1int
            } else {
                0int
            }),
            negative ==> body =~= whole.skip(1),
            !negative ==> body =~= whole,
            k <= body.len(),
            forall|m: int| 0 <= m < k ==> is_digit(#[trigger] body[m]),
            k <= 19,
            acc < pow10(k as nat),
            pow10(19) == 10_000_000_000_000_000_000,
            acc == dec_value(body.take(k as int)),
        decreases s@.len() - j,
    {
        proof {
            assert(body[k as int] == s@[j as int]);
        }
        if k == 19 {
            proof {
                assert forall|m: int| 0 <= m < 20 implies is_digit(#[trigger] body[m]) by {
                    if m == 19 {
                        assert(body[19] == s@[j as int]);
                    }
                }
                lemma_digit_run_at_least(body, 20);
                assert(negative == (whole.len() > 0 && whole[0] == 45));
                assert(parse_dec(whole) is None);
            }
            return None;
        }
        proof {
            assert(pow10((k + 1) as nat) == 10 * pow10(k as nat));
            assert(pow10(k as nat) <= pow10(18)) by {
                lemma_pow10_monotone(k as nat, 18);
            }
            reveal_with_fuel(pow10, 20);
            assert(body.take(k + 1).drop_last() =~= body.take(k as int));
            assert(body.take(k + 1).last() == body[k as int]);
        }
        acc = acc * 10 + (s[j] - 48) as u64;
        j = j + 1;
        k = k + 1;
    }
    proof {
        assert(body =~= body.take(k as int) + body.skip(k as int));
        lemma_digit_run_exact(body.take(k as int), body.skip(k as int));
        assert(digit_run(body) == k);
        assert(negative == (whole.len() > 0 && whole[0] == 45));
    }
    if k == 0 {
        return None;
    }
    if negative {
        if acc > 9_223_372_036_854_775_808u64 {
            return None;
        }
        let v: i64 = if acc == 9_223_372_036_854_775_808u64 {
            i64::MIN
        } else {
            -(acc as i64)
        };
        Some((v, j))
    } else {
        if acc > 9_223_372_036_854_775_807u64 {
            return None;
        }
        Some((acc as i64, j))
    }
}

/// Powers of ten are monotone in the exponent.
proof fn lemma_pow10_monotone(a: nat, b: nat)
    requires
        a <= b,
    ensures
        pow10(a) <= pow10(b),
    decreases b,
{
    if a < b {
        lemma_pow10_monotone(a, (b - 1) as nat);
        assert(pow10(b) == 10 * pow10((b - 1) as nat));
    }
}

/// Render an integer in decimal.
pub fn render_i64(n: i64) -> (r: Vec<u8>)
    ensures
        r@ == dec_int(n as int),
{
    let mut out: Vec<u8> = Vec::new();
    let mut mag: u64 = if n < 0 {
        if n == i64::MIN {
            9_223_372_036_854_775_808u64
        } else {
            (-n) as u64
        }
    } else {
        n as u64
    };
    if n < 0 {
        out.push(45);
    }
    let ghost m0 = mag as nat;
    let ghost prefix = out@;
    let mut digits: Vec<u8> = Vec::new();
    proof {
        assert(dec_nat(m0) =~= dec_nat(mag as nat) + digits@.reverse());
    }
    loop
        invariant_except_break
            dec_nat(m0) =~= dec_nat(mag as nat) + digits@.reverse(),
        ensures
            digits@.reverse() =~= dec_nat(m0),
        decreases mag,
    {
        let ghost before = digits@;
        if mag < 10 {
            digits.push(48 + mag as u8);
            proof {
                assert(dec_nat(mag as nat) =~= seq![(48 + mag as nat) as u8]);
                assert(digits@.reverse() =~= dec_nat(mag as nat) + before.reverse());
                assert(digits@.reverse() =~= dec_nat(m0));
            }
            break ;
        }
        let d: u8 = 48 + (mag % 10) as u8;
        let ghost om = mag as nat;
        digits.push(d);
        mag = mag / 10;
        proof {
            assert(om / 10 == mag as nat);
            assert(dec_nat(om) == dec_nat(om / 10) + seq![(48 + om % 10) as u8]);
            assert((48 + om % 10) as u8 == d);
            assert(digits@.reverse() =~= seq![d] + before.reverse());
            assert(dec_nat(m0) =~= dec_nat(mag as nat) + digits@.reverse());
        }
    }
    let ghost whole = dec_int(n as int);
    proof {
        assert(whole =~= prefix + digits@.reverse());
    }
    let mut j: usize = digits.len();
    while j > 0
        invariant
            j <= digits.len(),
            whole == dec_int(n as int),
            whole =~= prefix + digits@.reverse(),
            out@ =~= whole.take(whole.len() - j),
        decreases j,
    {
        j = j - 1;
        out.push(digits[j]);
        proof {
            assert(whole[whole.len() - 1 - j] == digits@.reverse()[digits@.len() - 1 - j]);
            assert(out@ =~= whole.take(whole.len() - j));
        }
    }
    proof {
        assert(out@ =~= dec_int(n as int));
    }
    out
}

} // verus!
