use vstd::prelude::*;

use crate::numbers::{all_digits, all_digits_exec, digits_value, is_digit};
use crate::seqs::{find_first, lemma_find_first};
use crate::text::{
    chars_eq, chars_from_index, chars_of, chars_prefix, index_of, index_of_exec, lower_ascii,
    lower_ascii_exec,
};

verus! {

// Numbers written as text the way `f64::from_str` reads them
// (`[+-](inf|infinity|nan)` or `[+-]DIGITS[.DIGITS][(e|E)[+-]DIGITS]`),
// read as a whole count of some unit, truncated toward zero.

/// The largest count a reading keeps; larger counts, and infinity, read
/// as this.
pub const VALUE_CAP: u64 = 9_223_372_036_854_775_807;

/// Ten to the power `n`.
pub open spec fn pow10(n: nat) -> nat
    decreases n,
{
    if n == 0 {
        1
    } else {
        10 * pow10((n - 1) as nat)
    }
}

/// A number as text describes it.
pub enum FloatLit {
    Finite { neg: bool, digits: Seq<char>, exp10: int },
    Infinite { neg: bool },
    NotANumber,
}

/// A number read as a count: the count, or not a number.
#[derive(Debug, Clone, Copy, PartialEq, Eq, Structural)]
pub enum Reading {
    Value(i64),
    NotANumber,
}

/// The sign of `s` and the text after it.
pub open spec fn unsigned_part(s: Seq<char>) -> (bool, Seq<char>) {
    if s.len() > 0 && s[0] == '-' {
        (true, s.drop_first())
    } else if s.len() > 0 && s[0] == '+' {
        (false, s.drop_first())
    } else {
        (false, s)
    }
}

/// An exponent: an optional sign and at least one digit.
pub open spec fn exponent_value(t: Seq<char>) -> Option<int> {
    let (neg, d) = unsigned_part(t);
    if d.len() > 0 && all_digits(d) {
        Some(
            if neg {
                -(digits_value(d) as int)
            } else {
                digits_value(d) as int
            },
        )
    } else {
        None
    }
}

/// The character starts an exponent.
pub open spec fn exp_marker() -> spec_fn(char) -> bool {
    |c: char| c == 'e' || c == 'E'
}

/// The digits of a mantissa `[DIGITS][.DIGITS]` (at least one digit in
/// all) and how many of them stand after the point.
pub open spec fn mantissa_parts(mant: Seq<char>) -> Option<(Seq<char>, nat)> {
    let dot = index_of(mant, "."@);
    let int_part = if dot >= 0 {
        mant.take(dot)
    } else {
        mant
    };
    let frac = if dot >= 0 {
        mant.skip(dot + 1)
    } else {
        Seq::empty()
    };
    if int_part.len() + frac.len() > 0 && all_digits(int_part) && all_digits(frac) {
        Some((int_part + frac, frac.len()))
    } else {
        None
    }
}

/// An unsigned finite decimal `MANTISSA[(e|E)EXPONENT]`: its digits and the
/// power of ten that they are multiplied by.
pub open spec fn finite_literal(body: Seq<char>) -> Option<(Seq<char>, int)> {
    let e = find_first(body, exp_marker());
    let mant = if e >= 0 {
        body.take(e)
    } else {
        body
    };
    let exp = if e >= 0 {
        exponent_value(body.skip(e + 1))
    } else {
        Some(0int)
    };
    match (exp, mantissa_parts(mant)) {
        (Some(x), Some((d, f))) => Some((d, x - f)),
        _ => None,
    }
}

/// What number `s` writes, if it is one: infinity and not-a-number by name
/// (any case), else a decimal with digits `digits` times ten to `exp10`.
pub open spec fn float_literal(s: Seq<char>) -> Option<FloatLit> {
    let (neg, body) = unsigned_part(s);
    let low = lower_ascii(body);
    if low == "inf"@ || low == "infinity"@ {
        Some(FloatLit::Infinite { neg })
    } else if low == "nan"@ {
        Some(FloatLit::NotANumber)
    } else {
        match finite_literal(body) {
            Some((digits, exp10)) => Some(FloatLit::Finite { neg, digits, exp10 }),
            None => None,
        }
    }
}

/// `n * m * 10^p`, truncated toward zero.
pub open spec fn scaled(n: nat, m: nat, p: int) -> nat {
    if p >= 0 {
        n * m * pow10(p as nat)
    } else {
        (n * m) / pow10((-p) as nat)
    }
}

/// `x`, or the cap when it is larger.
pub open spec fn capped(x: nat) -> nat {
    if x > VALUE_CAP {
        VALUE_CAP as nat
    } else {
        x
    }
}

/// The number `s` writes, as a count of units of which one is
/// `1 / (m * 10^z)` of the number's own unit, truncated toward zero and
/// kept within the cap; infinity reads as the cap.
pub open spec fn float_reading(s: Seq<char>, m: nat, z: nat) -> Option<Reading> {
    match float_literal(s) {
        None => None,
        Some(FloatLit::NotANumber) => Some(Reading::NotANumber),
        Some(FloatLit::Infinite { neg }) => Some(
            Reading::Value(
                if neg {
                    -(VALUE_CAP as int)
                } else {
                    VALUE_CAP as int
                } as i64,
            ),
        ),
        Some(FloatLit::Finite { neg, digits, exp10 }) => {
            let mag = capped(scaled(digits_value(digits), m, exp10 + z));
            Some(
                Reading::Value(
                    if neg {
                        -(mag as int)
                    } else {
                        mag as int
                    } as i64,
                ),
            )
        },
    }
}

// ---------------------------------------------------------------------------
// Facts about digits and powers of ten
// ---------------------------------------------------------------------------

proof fn lemma_pow10_pos(n: nat)
    ensures
        pow10(n) >= 1,
    decreases n,
{
    if n > 0 {
        lemma_pow10_pos((n - 1) as nat);
    }
}

proof fn lemma_pow10_mono(a: nat, b: nat)
    requires
        a <= b,
    ensures
        pow10(a) <= pow10(b),
    decreases b,
{
    if a < b {
        lemma_pow10_mono(a, (b - 1) as nat);
        lemma_pow10_pos((b - 1) as nat);
    }
}

proof fn lemma_digits_bound(s: Seq<char>)
    requires
        all_digits(s),
    ensures
        digits_value(s) < pow10(s.len()),
    decreases s.len(),
{
    if s.len() > 0 {
        lemma_digits_bound(s.drop_last());
        assert(is_digit(s.last()));
    }
}

proof fn lemma_digits_split(s: Seq<char>, k: int)
    requires
        0 <= k <= s.len(),
    ensures
        digits_value(s) == digits_value(s.take(k)) * pow10((s.len() - k) as nat) + digits_value(s.skip(k)),
    decreases s.len(),
{
    if k == s.len() {
        assert(s.take(k) =~= s);
        assert(s.skip(k) =~= Seq::<char>::empty());
        assert(pow10(0) == 1);
        assert(digits_value(Seq::<char>::empty()) == 0);
        let q = pow10((s.len() - k) as nat);
        let a = digits_value(s);
        assert(a * q == a) by (nonlinear_arith)
            requires
                q == 1,
        ;
    } else {
        let t = s.drop_last();
        lemma_digits_split(t, k);
        assert(t.take(k) =~= s.take(k));
        assert(s.skip(k).drop_last() =~= t.skip(k));
        assert(s.skip(k).last() == s.last());
        let a = digits_value(s.take(k));
        let b = digits_value(t.skip(k));
        let l = ((s.last() as u32) - 48) as nat;
        let p = pow10((t.len() - k) as nat);
        assert(digits_value(s) == digits_value(t) * 10 + l);
        assert(digits_value(s.skip(k)) == b * 10 + l);
        assert(digits_value(t) == a * p + b);
        assert(pow10((s.len() - k) as nat) == 10 * p);
        assert((a * p + b) * 10 + l == a * (10 * p) + (b * 10 + l)) by (nonlinear_arith);

    }
}

proof fn lemma_front_digit(t: Seq<char>)
    requires
        t.len() > 0,
    ensures
        digits_value(t) == ((t[0] as u32) - 48) as nat * pow10((t.len() - 1) as nat) + digits_value(
            t.drop_first(),
        ),
{
    lemma_digits_split(t, 1);
    assert(t.skip(1) =~= t.drop_first());
    let h = t.take(1);
    assert(h.drop_last() =~= Seq::<char>::empty());
    assert(h.last() == t[0]);
    assert(digits_value(h) == digits_value(h.drop_last()) * 10 + ((h.last() as u32) - 48) as nat);
    assert(digits_value(Seq::<char>::empty()) == 0);
}

proof fn lemma_div_whole(a: int, b: int, p: int)
    requires
        p > 0,
        a >= 0,
        b >= 0,
    ensures
        (a * p + b) / p == a + b / p,
{
    vstd::arithmetic::div_mod::lemma_fundamental_div_mod(b, p);
    assert(a * p + b == p * (a + b / p) + b % p) by (nonlinear_arith)
        requires
            b == p * (b / p) + b % p,
    ;
    vstd::arithmetic::div_mod::lemma_div_multiples_vanish_fancy(a + b / p, b % p, p);
}

proof fn lemma_carry_step(m: nat, dig: nat, v: nat, p: nat)
    requires
        p > 0,
    ensures
        (m * (dig * p + v)) / (10 * p) == (m * dig + (m * v) / p) / 10,
{
    assert(m * (dig * p + v) == (m * dig) * p + m * v) by (nonlinear_arith);
    lemma_div_whole((m * dig) as int, (m * v) as int, p as int);
    vstd::arithmetic::div_mod::lemma_div_denominator((m * (dig * p + v)) as int, p as int, 10);
    assert(p * 10 == 10 * p);
}

/// A scaled count of a non-zero number with an exponent of 19 or more is
/// past the cap.
proof fn lemma_scaled_big(n: nat, m: nat, p: int)
    requires
        n >= 1,
        m >= 1,
        p >= 19,
    ensures
        capped(scaled(n, m, p)) == VALUE_CAP,
{
    lemma_pow10_mono(19, p as nat);
    reveal_with_fuel(pow10, 20);
    assert(pow10(19) == 10_000_000_000_000_000_000);
    let q = pow10(p as nat);
    assert(n * m * q >= q) by (nonlinear_arith)
        requires
            n >= 1,
            m >= 1,
            q >= 1,
    ;
}

/// A scaled count that divides by at least a hundred times the number's
/// size is zero.
proof fn lemma_scaled_small(n: nat, m: nat, q: int, len: nat)
    requires
        n < pow10(len),
        m <= 36,
        q >= len + 2,
    ensures
        scaled(n, m, -q) == 0,
{
    lemma_pow10_mono(len + 2, q as nat);
    assert(pow10(len + 2) == 100 * pow10(len)) by {
        reveal_with_fuel(pow10, 3);
        assert(pow10(len + 2) == 10 * pow10(len + 1));
        assert(pow10(len + 1) == 10 * pow10(len));
    }
    let d = pow10(q as nat);
    assert(n * m < d) by (nonlinear_arith)
        requires
            n < pow10(len),
            m <= 36,
            100 * pow10(len) <= d,
    ;
    assert((n * m) / d == 0) by (nonlinear_arith)
        requires
            n * m < d,
            d > 0,
    ;
}

// ---------------------------------------------------------------------------
// Reading
// ---------------------------------------------------------------------------

/// The value of the digits, or `cap + 1` when it is larger than `cap`.
fn saturating_value(d: &[char], cap: u128) -> (r: u128)
    requires
        all_digits(d@),
        cap < 0x1_0000_0000_0000_0000_0000_0000,
    ensures
        r == if digits_value(d@) > cap {
            (cap + 1) as int
        } else {
            digits_value(d@) as int
        },
{
    let n = d.len();
    let mut v: u128 = 0;
    let mut i: usize = 0;
    while i < n
        invariant
            n == d@.len(),
            i <= n,
            all_digits(d@),
            cap < 0x1_0000_0000_0000_0000_0000_0000,
            v == if digits_value(d@.take(i as int)) > cap {
                (cap + 1) as int
            } else {
                digits_value(d@.take(i as int)) as int
            },
        decreases n - i,
    {
        assert(d@.take(i + 1).drop_last() =~= d@.take(i as int));
        assert(is_digit(d@[i as int]));
        let digit = ((d[i] as u32) - 48) as u128;
        if v > cap {
            v = cap + 1;
        } else {
            let next = v * 10 + digit;
            v = if next > cap {
                cap + 1
            } else {
                next
            };
        }
        i = i + 1;
    }
    assert(d@.take(n as int) =~= d@);
    v
}

/// `(m * value) / 10^len` of the digits, carried from the right.
fn carry_of(d: &[char], m: u64) -> (c: u64)
    requires
        all_digits(d@),
        1 <= m <= 36,
    ensures
        c == ((m as nat) * digits_value(d@)) / pow10(d@.len()),
        c < m,
{
    let n = d.len();
    let mut c: u64 = 0;
    let mut j: usize = n;
    assert(d@.skip(n as int) =~= Seq::<char>::empty());
    while j > 0
        invariant
            n == d@.len(),
            j <= n,
            all_digits(d@),
            1 <= m <= 36,
            c == ((m as nat) * digits_value(d@.skip(j as int))) / pow10((n - j) as nat),
            c < m,
        decreases j,
    {
        let ghost t = d@.skip(j - 1);
        proof {
            lemma_front_digit(t);
            assert(t.drop_first() =~= d@.skip(j as int));
            assert(t[0] == d@[j - 1]);
            lemma_pow10_pos((n - j) as nat);
            let dig = ((d@[j - 1] as u32) - 48) as nat;
            lemma_carry_step(m as nat, dig, digits_value(d@.skip(j as int)), pow10((n - j) as nat));
            assert(pow10((n - j + 1) as nat) == 10 * pow10((n - j) as nat));
            assert(is_digit(d@[j - 1]));
        }
        let dig = ((d[j - 1] as u32) - 48) as u64;
        assert(dig <= 9);
        assert(m * dig <= 324) by (nonlinear_arith)
            requires
                m <= 36,
                dig <= 9,
        ;
        assert((m * dig + c) / 10 < m) by (nonlinear_arith)
            requires
                dig <= 9,
                c < m,
        ;
        c = (m * dig + c) / 10;
        j = j - 1;
    }
    assert(d@.skip(0) =~= d@);
    c
}

/// The capped, scaled count of the digits: `value * m * 10^p`, truncated.
fn scaled_capped(d: &[char], m: u64, p: i128) -> (r: u64)
    requires
        all_digits(d@),
        1 <= m <= 36,
        -0x1000_0000_0000_0000_0000 < p < 0x1000_0000_0000_0000_0000,
    ensures
        r == capped(scaled(digits_value(d@), m as nat, p as int)),
{
    let cap = VALUE_CAP as u128;
    let n_sat = saturating_value(d, cap);
    let ghost n = digits_value(d@);
    if n_sat == 0 {
        assert(n == 0);
        assert(scaled(n, m as nat, p as int) == 0) by {
            let e: nat = (if p >= 0 { p as int } else { -(p as int) }) as nat;
            lemma_pow10_pos(e);
            let q = pow10(e);
            assert(0 * (m as nat) * q == 0) by (nonlinear_arith);
            assert((0 * (m as nat)) / q == 0) by (nonlinear_arith)
                requires
                    q >= 1,
            ;
        }
        return 0;
    }
    if p >= 0 {
        if p >= 19 {
            proof {
                lemma_scaled_big(n, m as nat, p as int);
            }
            return VALUE_CAP;
        }
        if n_sat > cap {
            assert(n * (m as nat) * pow10(p as nat) >= n) by {
                lemma_pow10_pos(p as nat);
                let q = pow10(p as nat);
                assert(n * (m as nat) * q >= n) by (nonlinear_arith)
                    requires
                        m >= 1,
                        q >= 1,
                ;
            }
            return VALUE_CAP;
        }
        let pp = p as u32;
        assert(n_sat * (m as u128) <= VALUE_CAP * 36) by (nonlinear_arith)
            requires
                n_sat <= VALUE_CAP,
                m <= 36,
        ;
        let mut x: u128 = n_sat * (m as u128);
        if x > cap {
            x = cap + 1;
        }
        let mut i: u32 = 0;
        assert(pow10(0) == 1);
        while i < pp
            invariant
                i <= pp,
                pp == p,
                pp < 19,
                cap == VALUE_CAP,
                x == if n * (m as nat) * pow10(i as nat) > cap {
                    (cap + 1) as int
                } else {
                    (n * (m as nat) * pow10(i as nat)) as int
                },
            decreases pp - i,
        {
            proof {
                assert(pow10((i + 1) as nat) == 10 * pow10(i as nat));
                let q = pow10(i as nat);
                assert(n * (m as nat) * (10 * q) == 10 * (n * (m as nat) * q)) by (nonlinear_arith);
            }
            if x <= cap {
                let y = x * 10;
                x = if y > cap {
                    cap + 1
                } else {
                    y
                };
            }
            i = i + 1;
        }
        if x > cap {
            VALUE_CAP
        } else {
            x as u64
        }
    } else {
        let q: u128 = (0 - p) as u128;
        let len = d.len();
        proof {
            crate::float_text::lemma_digits_bound(d@);
        }
        if q >= (len as u128) + 2 {
            proof {
                lemma_scaled_small(n, m as nat, q as int, len as nat);
            }
            return 0;
        }
        if q >= len as u128 {
            let c = carry_of(d, m);
            if q == len as u128 {
                assert(n * (m as nat) == (m as nat) * n) by (nonlinear_arith);
                return c;
            }
            proof {
                assert(n * (m as nat) == (m as nat) * n) by (nonlinear_arith);
                lemma_pow10_pos(len as nat);
                vstd::arithmetic::div_mod::lemma_div_denominator(((m as nat) * n) as int, pow10(len as nat) as int, 10);
                assert(pow10((len + 1) as nat) == 10 * pow10(len as nat));
                assert(q == len + 1);
            }
            return c / 10;
        }
        let s = len - (q as usize);
        let head = chars_prefix(d, s);
        let tail = chars_from_index(d, s);
        proof {
            assert(all_digits(head@));
            assert(all_digits(tail@));
            lemma_digits_split(d@, s as int);
            assert(tail@.len() == q);
        }
        let h = saturating_value(head.as_slice(), cap);
        let c = carry_of(tail.as_slice(), m);
        let ghost hv = digits_value(head@);
        let ghost rv = digits_value(tail@);
        let ghost pq = pow10(q as nat);
        proof {
            lemma_pow10_pos(q as nat);
            assert(n * (m as nat) == (hv * (m as nat)) * pq + (m as nat) * rv) by (nonlinear_arith)
                requires
                    n == hv * pq + rv,
            ;
            lemma_div_whole((hv * (m as nat)) as int, ((m as nat) * rv) as int, pq as int);
            assert(scaled(n, m as nat, p as int) == hv * (m as nat) + c);
        }
        if h > cap {
            assert(hv * (m as nat) + c >= hv) by (nonlinear_arith)
                requires
                    m >= 1,
            ;
            return VALUE_CAP;
        }
        assert(h * (m as u128) <= VALUE_CAP * 36) by (nonlinear_arith)
            requires
                h <= VALUE_CAP,
                m <= 36,
        ;
        let val: u128 = h * (m as u128) + (c as u128);
        if val > cap {
            VALUE_CAP
        } else {
            val as u64
        }
    }
}

/// Above this, an exponent's size no longer matters to a count.
const EXPONENT_BOUND: u128 = 0x4_0000_0000_0000_0000;

/// Reads an exponent; its size is kept to at most `EXPONENT_BOUND + 1`.
fn read_exponent(t: &[char]) -> (r: Option<(bool, u128)>)
    ensures
        r is None <==> exponent_value(t@) is None,
        r matches Some((neg, v)) ==> {
            &&& v <= EXPONENT_BOUND + 1
            &&& exponent_value(t@) matches Some(x) && (if v <= EXPONENT_BOUND {
                x == if neg {
                    -(v as int)
                } else {
                    v as int
                }
            } else if neg {
                x < -(EXPONENT_BOUND as int)
            } else {
                x > EXPONENT_BOUND
            })
        },
{
    let en = t.len();
    let (neg, start): (bool, usize) = if en > 0 && t[0] == '-' {
        (true, 1)
    } else if en > 0 && t[0] == '+' {
        (false, 1)
    } else {
        (false, 0)
    };
    let d = chars_from_index(t, start);
    proof {
        assert(t@.skip(0) =~= t@);
        assert(en > 0 ==> t@.skip(1) =~= t@.drop_first());
        assert(unsigned_part(t@) == (neg, d@));
    }
    if d.len() == 0 || !all_digits_exec(d.as_slice()) {
        return None;
    }
    let v = saturating_value(d.as_slice(), EXPONENT_BOUND);
    Some((neg, v))
}

/// Reads a mantissa into its digits and the count of those after the point.
fn read_mantissa(mant: &[char]) -> (r: Option<(Vec<char>, usize)>)
    ensures
        r is None <==> mantissa_parts(mant@) is None,
        r matches Some((d, f)) ==> mantissa_parts(mant@) == Some((d@, f as nat)),
{
    let dot_text = chars_of(".");
    proof {
        reveal_strlit(".");
    }
    let (int_part, frac): (Vec<char>, Vec<char>) = match index_of_exec(mant, dot_text.as_slice()) {
        Some(i) => (chars_prefix(mant, i), chars_from_index(mant, i + 1)),
        None => (chars_prefix(mant, mant.len()), Vec::new()),
    };
    proof {
        assert(mant@.take(mant@.len() as int) =~= mant@);
    }
    assert(int_part@.len() + frac@.len() <= mant@.len());
    if int_part.len() + frac.len() == 0 || !all_digits_exec(int_part.as_slice()) || !all_digits_exec(
        frac.as_slice(),
    ) {
        return None;
    }
    let f = frac.len();
    let mut digits = int_part.clone();
    let mut rest = frac.clone();
    digits.append(&mut rest);
    assert(digits@ == int_part@ + frac@);
    Some((digits, f))
}

/// The capped count of an unsigned finite decimal, in units of
/// `1 / (m * 10^z)`.
#[verifier::rlimit(30)]
fn read_finite(body: &[char], m: u64, z: u64) -> (r: Option<u64>)
    requires
        1 <= m <= 36,
        z <= 11,
    ensures
        r == match finite_literal(body@) {
            Some((d, x)) => Some(capped(scaled(digits_value(d), m as nat, x + z)) as u64),
            None => None::<u64>,
        },
{
    let bn = body.len();
    let mut e: usize = 0;
    while e < bn && !(body[e] == 'e' || body[e] == 'E')
        invariant
            bn == body@.len(),
            e <= bn,
            forall|j: int| 0 <= j < e ==> !exp_marker()(#[trigger] body@[j]),
        decreases bn - e,
    {
        e = e + 1;
    }
    proof {
        lemma_find_first(body@, exp_marker(), e as int);
    }
    let mant = chars_prefix(body, e);
    assert(e == bn ==> mant@ =~= body@);
    let (exp_neg, exp_sat): (bool, u128) = if e < bn {
        let et = chars_from_index(body, e + 1);
        match read_exponent(et.as_slice()) {
            Some(pair) => pair,
            None => {
                return None;
            },
        }
    } else {
        (false, 0)
    };
    let (digits, f) = match read_mantissa(mant.as_slice()) {
        Some(pair) => pair,
        None => {
            return None;
        },
    };
    proof {
        let t = body@.take(e as int);
        assert(mant@ == t);
    }
    assert(all_digits(digits@));
    let e_signed: i128 = if exp_neg { 0 - (exp_sat as i128) } else { exp_sat as i128 };
    let p: i128 = e_signed - (f as i128) + (z as i128);
    let mag = scaled_capped(digits.as_slice(), m, p);
    proof {
        let x: int = match finite_literal(body@) {
            Some((_, x)) => x,
            None => 0,
        };
        assert(finite_literal(body@) == Some((digits@, x)));
        let p_true = x + z;
        let nv = digits_value(digits@);
        if p_true != p {
            // Only when the exponent was cut at its bound.
            assert(exp_sat == EXPONENT_BOUND + 1);
            if exp_neg {
                assert(digits@.len() == digits.len());
                assert(f <= digits.len());
                lemma_digits_bound(digits@);
                lemma_scaled_small(nv, m as nat, -p_true, digits@.len());
                lemma_scaled_small(nv, m as nat, -p, digits@.len());
            } else if nv == 0 {
                lemma_pow10_pos(p as nat);
                lemma_pow10_pos(p_true as nat);
                let q1 = pow10(p as nat);
                let q2 = pow10(p_true as nat);
                assert(0 * (m as nat) * q1 == 0) by (nonlinear_arith);
                assert(0 * (m as nat) * q2 == 0) by (nonlinear_arith);
            } else {
                lemma_scaled_big(nv, m as nat, p_true);
                lemma_scaled_big(nv, m as nat, p as int);
            }
        }
    }
    Some(mag)
}

/// Reads the number `s` writes as a count of units of which one is
/// `1 / (m * 10^z)` of the number's own unit.
pub fn read_float(s: &[char], m: u64, z: u64) -> (r: Option<Reading>)
    requires
        1 <= m <= 36,
        z <= 11,
    ensures
        r == float_reading(s@, m as nat, z as nat),
{
    let n = s.len();
    let (neg, start): (bool, usize) = if n > 0 && s[0] == '-' {
        (true, 1)
    } else if n > 0 && s[0] == '+' {
        (false, 1)
    } else {
        (false, 0)
    };
    let body = chars_from_index(s, start);
    proof {
        assert(s@.skip(0) =~= s@);
        assert(n > 0 ==> s@.skip(1) =~= s@.drop_first());
        assert(unsigned_part(s@) == (neg, body@));
    }
    let low = lower_ascii_exec(body.as_slice());
    let inf_text = chars_of("inf");
    let infinity_text = chars_of("infinity");
    let nan_text = chars_of("nan");
    if chars_eq(low.as_slice(), inf_text.as_slice()) || chars_eq(low.as_slice(), infinity_text.as_slice()) {
        return Some(Reading::Value(if neg { 0 - (VALUE_CAP as i64) } else { VALUE_CAP as i64 }));
    }
    if chars_eq(low.as_slice(), nan_text.as_slice()) {
        return Some(Reading::NotANumber);
    }
    match read_finite(body.as_slice(), m, z) {
        None => None,
        Some(mag) => Some(Reading::Value(if neg { 0 - (mag as i64) } else { mag as i64 })),
    }
}

} // verus!
