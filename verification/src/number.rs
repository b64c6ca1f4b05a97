//! Decimal numerals: writing, reading and recognising them.
use vstd::prelude::*;

use crate::text;

verus! {

// ---------------------------------------------------------------------------
// Writing
// ---------------------------------------------------------------------------

/// The character of a decimal digit.
pub open spec fn digit(d: int) -> char {
    (('0' as int) + d) as char
}

/// The decimal numeral of a natural number.
pub open spec fn decimal(n: nat) -> Seq<char>
    decreases n,
{
    if n < 10 {
        seq![digit(n as int)]
    } else {
        decimal(n / 10).push(digit((n % 10) as int))
    }
}

/// The decimal numeral of an integer, with a minus sign where it is negative.
pub open spec fn signed_decimal(n: int) -> Seq<char> {
    if n < 0 {
        seq!['-'] + decimal((-n) as nat)
    } else {
        decimal(n as nat)
    }
}

fn digit_char(d: u8) -> (r: char)
    requires
        d < 10,
    ensures
        r == digit(d as int),
{
    (48 + d) as char
}

/// Writes a number in decimal.
pub fn decimal_of(n: u64) -> (r: String)
    ensures
        r@ == decimal(n as nat),
    decreases n,
{
    if n < 10 {
        let mut out = String::new();
        out.push(digit_char(n as u8));
        assert(out@ =~= decimal(n as nat));
        out
    } else {
        let mut out = decimal_of(n / 10);
        out.push(digit_char((n % 10) as u8));
        out
    }
}

/// Writes a signed number in decimal.
pub fn signed_decimal_of(n: i64) -> (r: String)
    ensures
        r@ == signed_decimal(n as int),
{
    if n < 0 {
        let magnitude: u64 = (-(n as i128)) as u64;
        let mut out = String::new();
        out.push('-');
        assert(out@ =~= seq!['-']);
        out.append(decimal_of(magnitude).as_str());
        out
    } else {
        decimal_of(n as u64)
    }
}

// ---------------------------------------------------------------------------
// Reading
// ---------------------------------------------------------------------------

/// Whether a character is an ASCII decimal digit.
pub open spec fn is_digit(c: char) -> bool {
    '0' <= c && c <= '9'
}

/// Whether a text is one or more decimal digits.
pub open spec fn all_digits(s: Seq<char>) -> bool {
    s.len() > 0 && forall|i: int| 0 <= i < s.len() ==> is_digit(#[trigger] s[i])
}

/// The number that a run of decimal digits stands for.
pub open spec fn digits_value(s: Seq<char>) -> nat
    decreases s.len(),
{
    if s.len() == 0 {
        0
    } else {
        digits_value(s.drop_last()) * 10 + ((s.last() as int) - ('0' as int)) as nat
    }
}

/// A number is what its numeral stands for; so different numbers have
/// different numerals.
pub proof fn lemma_decimal_value(n: nat)
    ensures
        digits_value(decimal(n)) == n,
        all_digits(decimal(n)),
    decreases n,
{
    let s = decimal(n);
    if n < 10 {
        assert(s.drop_last() =~= Seq::empty());
        assert(digits_value(s.drop_last()) == 0);
    } else {
        lemma_decimal_value(n / 10);
        assert(s.drop_last() =~= decimal(n / 10));
        assert forall|i: int| 0 <= i < s.len() implies is_digit(#[trigger] s[i]) by {
            if i < s.len() - 1 {
                assert(s[i] == decimal(n / 10)[i]);
            }
        }
    }
}

/// What an unsigned numeral stands for: digits behind an optional plus sign,
/// if the number is not above `max`.
pub open spec fn unsigned_value(s: Seq<char>, max: nat) -> Option<nat> {
    let digits = if s.len() > 0 && s[0] == '+' {
        s.skip(1)
    } else {
        s
    };
    if all_digits(digits) && digits_value(digits) <= max {
        Some(digits_value(digits))
    } else {
        None
    }
}

/// A longer numeral stands for no smaller a number.
proof fn lemma_digits_grow(s: Seq<char>, i: int)
    requires
        0 <= i <= s.len(),
        forall|k: int| 0 <= k < s.len() ==> is_digit(#[trigger] s[k]),
    ensures
        digits_value(s.take(i)) <= digits_value(s),
    decreases s.len(),
{
    if i == s.len() {
        assert(s.take(i) =~= s);
    } else {
        assert(s.drop_last().take(i) =~= s.take(i));
        lemma_digits_grow(s.drop_last(), i);
    }
}

/// Reads an unsigned numeral that is not above `max`.
pub fn read_unsigned(s: &str, max: u32) -> (r: Option<u32>)
    ensures
        match r {
            Some(n) => unsigned_value(s@, max as nat) == Some(n as nat),
            None => unsigned_value(s@, max as nat) is None,
        },
{
    let cs = text::chars_of(s);
    let n = cs.len();
    let start: usize = if n > 0 && cs[0] == '+' {
        1
    } else {
        0
    };
    let ghost digits = if s@.len() > 0 && s@[0] == '+' {
        s@.skip(1)
    } else {
        s@
    };
    assert(s@.skip(0) =~= s@);
    assert(digits =~= s@.skip(start as int));
    if start >= n {
        return None;
    }
    let mut value: u64 = 0;
    let mut i: usize = start;
    let mut over: bool = false;
    assert(digits.take(0).len() == 0);
    while i < n
        invariant
            cs@ == s@,
            n == s@.len(),
            start <= i <= n,
            start <= 1,
            start == (if s@.len() > 0 && s@[0] == '+' {
                1int
            } else {
                0int
            }),
            digits == s@.skip(start as int),
            forall|k: int| 0 <= k < i - start ==> is_digit(#[trigger] digits[k]),
            !over ==> value == digits_value(digits.take(i - start)),
            !over ==> value <= max,
            over ==> exists|k: int| 0 <= k <= i - start && #[trigger] digits_value(digits.take(k)) > max,
        decreases n - i,
    {
        let c = cs[i];
        assert(digits[i - start] == c);
        if !('0' <= c && c <= '9') {
            assert(!is_digit(digits[i - start]));
            assert(s@.skip(0) =~= s@);
            return None;
        }
        proof {
            assert(digits.take(i - start + 1).drop_last() =~= digits.take(i - start));
        }
        if !over {
            value = value * 10 + ((c as u32) - 48) as u64;
            assert(value == digits_value(digits.take(i - start + 1)));
            if value > max as u64 {
                over = true;
            }
        }
        i += 1;
    }
    assert(digits.take(n - start) =~= digits);
    if over {
        proof {
            let k = choose|k: int| 0 <= k <= n - start && #[trigger] digits_value(digits.take(k)) > max;
            lemma_digits_grow(digits, k);
        }
        None
    } else {
        Some(value as u32)
    }
}

// ---------------------------------------------------------------------------
// Recognising decimal fractions
// ---------------------------------------------------------------------------

/// Whether a text is decimal digits, possibly none.
pub open spec fn some_digits(s: Seq<char>) -> bool {
    forall|i: int| 0 <= i < s.len() ==> is_digit(#[trigger] s[i])
}

/// A text without one sign in front.
pub open spec fn unsigned_part(s: Seq<char>) -> Seq<char> {
    if s.len() > 0 && (s[0] == '+' || s[0] == '-') {
        s.skip(1)
    } else {
        s
    }
}

/// Digits with at most one point among them, and at least one digit.
pub open spec fn is_mantissa(s: Seq<char>) -> bool {
    ||| all_digits(s)
    ||| exists|k: int| 0 <= k < s.len() && s.len() >= 2 && is_point_at(s, k)
}

/// Whether `k` is the place of a point between two runs of digits.
pub open spec fn is_point_at(s: Seq<char>, k: int) -> bool {
    s[k] == '.' && some_digits(s.take(k)) && some_digits(s.skip(k + 1))
}

/// A mantissa, possibly with an exponent behind an `e`.
pub open spec fn is_decimal_fraction(s: Seq<char>) -> bool {
    ||| is_mantissa(s)
    ||| exists|k: int| 0 <= k < s.len() && is_exponent_at(s, k)
}

/// Whether an exponent starts at `k`.
pub open spec fn is_exponent_at(s: Seq<char>, k: int) -> bool {
    (s[k] == 'e' || s[k] == 'E') && is_mantissa(s.take(k)) && all_digits(
        unsigned_part(s.skip(k + 1)),
    )
}

/// The texts that a decimal floating-point reader accepts: an optional sign
/// before `inf`, `infinity`, `nan` in any case, or before a decimal fraction.
pub open spec fn is_real_numeral(s: Seq<char>) -> bool {
    let body = unsigned_part(s);
    ||| text::lower(body) == "inf"@
    ||| text::lower(body) == "infinity"@
    ||| text::lower(body) == "nan"@
    ||| is_decimal_fraction(body)
}

/// Whether the characters from `from` to `to` are digits.
fn digits_between(cs: &Vec<char>, from: usize, to: usize) -> (r: bool)
    requires
        from <= to <= cs@.len(),
    ensures
        r == some_digits(cs@.subrange(from as int, to as int)),
{
    for i in from..to
        invariant
            from <= to <= cs@.len(),
            forall|k: int| from <= k < i ==> is_digit(#[trigger] cs@[k]),
    {
        let c = cs[i];
        if !('0' <= c && c <= '9') {
            assert(!is_digit(cs@.subrange(from as int, to as int)[i - from]));
            return false;
        }
    }
    true
}

/// Whether the characters from `from` to `to` are a mantissa.
fn mantissa_between(cs: &Vec<char>, from: usize, to: usize) -> (r: bool)
    requires
        from <= to <= cs@.len(),
    ensures
        r == is_mantissa(cs@.subrange(from as int, to as int)),
{
    let ghost s = cs@.subrange(from as int, to as int);
    if from == to {
        return false;
    }
    if digits_between(cs, from, to) {
        return true;
    }
    if to - from < 2 {
        return false;
    }
    for i in from..to
        invariant
            from <= to <= cs@.len(),
            s == cs@.subrange(from as int, to as int),
            s.len() >= 2,
            !all_digits(s),
            forall|k: int| 0 <= k < i - from ==> !is_point_at(s, k),
    {
        if cs[i] == '.' {
            proof {
                assert(s.take(i - from) =~= cs@.subrange(from as int, i as int));
                assert(s.skip(i - from + 1) =~= cs@.subrange(i + 1, to as int));
            }
            if digits_between(cs, from, i) && digits_between(cs, i + 1, to) {
                assert(is_point_at(s, i - from));
                return true;
            }
        }
        assert(!is_point_at(s, i - from));
    }
    false
}

/// Whether a decimal floating-point reader accepts the string.
pub fn reads_as_real(s: &str) -> (r: bool)
    ensures
        r == is_real_numeral(s@),
{
    let all = text::chars_of(s);
    let signed = all.len() > 0 && (all[0] == '+' || all[0] == '-');
    let body = if signed {
        let n = all.len();
        let b = s.substring_char(1, n);
        assert(b@ =~= s@.skip(1));
        b
    } else {
        s
    };
    let word = text::to_lower(body);
    if text::same(word.as_str(), "inf") || text::same(word.as_str(), "infinity") || text::same(word.as_str(), "nan") {
        return true;
    }
    let cs = text::chars_of(body);
    let ghost t = cs@;
    let n = cs.len();
    assert(cs@.subrange(0, n as int) =~= cs@);
    if mantissa_between(&cs, 0, n) {
        return true;
    }
    for i in 0..n
        invariant
            n == cs@.len(),
            t == cs@,
            t == unsigned_part(s@),
            !is_mantissa(t),
            forall|k: int| 0 <= k < i ==> !is_exponent_at(t, k),
    {
        if cs[i] == 'e' || cs[i] == 'E' {
            let j: usize = if i + 1 < n && (cs[i + 1] == '+' || cs[i + 1] == '-') {
                i + 2
            } else {
                i + 1
            };
            proof {
                assert(t.take(i as int) =~= cs@.subrange(0, i as int));
                let tail = t.skip(i + 1);
                if j == i + 2 {
                    assert(tail[0] == cs@[i + 1]);
                } else if tail.len() > 0 {
                    assert(tail[0] == cs@[i + 1]);
                }
                assert(unsigned_part(tail) =~= cs@.subrange(j as int, n as int));
            }
            if j < n && mantissa_between(&cs, 0, i) && digits_between(&cs, j, n) {
                assert(is_exponent_at(t, i as int));
                return true;
            }
        }
        assert(!is_exponent_at(t, i as int));
    }
    false
}

// ---------------------------------------------------------------------------
// Rounding
// ---------------------------------------------------------------------------

/// A quotient rounded to the nearest integer, to the even one of two equally
/// near.
pub open spec fn round_div(n: nat, d: nat) -> nat {
    let q = n / d;
    let r = n % d;
    if 2 * r < d {
        q
    } else if 2 * r > d {
        q + 1
    } else {
        q + q % 2
    }
}

/// The smallest of `s`, `2s`, `4s`, … that `n` is below `step` times of.
pub open spec fn spacing(n: nat, step: nat, s: nat) -> nat
    decreases
            (if step * s <= n {
                n + 1 - step * s
            } else {
                0
            }) as nat,
{
    if s == 0 || step == 0 || n < step * s {
        s
    } else {
        proof {
            assert(step * (2 * s) > step * s) by (nonlinear_arith)
                requires
                    s > 0,
                    step > 0,
            ;
        }
        spacing(n, step, 2 * s)
    }
}

/// The fraction `n / d` rounded to the nearest multiple of a power of two that
/// leaves it below `limit` multiples, ties to even: what a binary floating
/// point format with `limit` significands makes of it.
pub open spec fn nearest(n: nat, d: nat, limit: nat) -> nat {
    let s = spacing(n, limit * d, 1);
    round_div(n, d * s) * s
}

/// Rounding does not pass a bound that is itself a multiple of the spacing.
pub proof fn lemma_nearest_bound(n: nat, d: nat, limit: nat, cap: nat)
    requires
        d > 0,
        n <= d * cap,
        spacing(n, limit * d, 1) > 0,
        cap % spacing(n, limit * d, 1) == 0,
    ensures
        nearest(n, d, limit) <= cap,
{
    let s = spacing(n, limit * d, 1);
    let k = cap / s;
    let q = n / (d * s);
    let r = n % (d * s);
    assert(d * s > 0) by (nonlinear_arith)
        requires
            d > 0,
            s > 0,
    ;
    assert(cap == k * s) by {
        vstd::arithmetic::div_mod::lemma_fundamental_div_mod(cap as int, s as int);
        vstd::arithmetic::mul::lemma_mul_is_commutative(k as int, s as int);
    }
    vstd::arithmetic::div_mod::lemma_fundamental_div_mod(n as int, (d * s) as int);
    assert(d * cap == (d * s) * k) by (nonlinear_arith)
        requires
            cap == k * s,
    ;
    assert(q < k || (q == k && r == 0)) by (nonlinear_arith)
        requires
            n == (d * s) * q + r,
            n <= (d * s) * k,
            d * s > 0,
            r >= 0,
    ;
    assert(round_div(n, d * s) <= k);
    assert(round_div(n, d * s) * s <= k * s) by (nonlinear_arith)
        requires
            round_div(n, d * s) <= k,
            s > 0,
    ;
}

/// Rounding keeps a multiple of the spacing.
pub proof fn lemma_nearest_exact(n: nat, limit: nat)
    requires
        spacing(n, limit, 1) > 0,
        n % spacing(n, limit, 1) == 0,
    ensures
        nearest(n, 1, limit) == n,
{
    let s = spacing(n, limit, 1);
    assert(limit * 1 == limit && 1 * s == s);
    vstd::arithmetic::div_mod::lemma_fundamental_div_mod(n as int, s as int);
    vstd::arithmetic::mul::lemma_mul_is_commutative((n / s) as int, s as int);
}

/// A quotient rounded to the nearest integer, ties to even.
pub fn rounded_div(n: u128, d: u128) -> (r: u128)
    requires
        0 < d < 0x1_0000_0000_0000_0000_0000_0000,
        n < 0x1_0000_0000_0000_0000_0000_0000,
    ensures
        r == round_div(n as nat, d as nat),
        r <= n / d + 1,
{
    let q = n / d;
    let r = n % d;
    proof {
        assert(q <= n) by (nonlinear_arith)
            requires
                q == n / d,
                d > 0,
                n >= 0,
        ;
    }
    if 2 * r < d {
        q
    } else if 2 * r > d {
        q + 1
    } else {
        q + q % 2
    }
}

/// A fraction rounded as a binary floating point format rounds it.
pub fn nearest_to(n: u128, d: u128, limit: u128) -> (r: u128)
    requires
        n < 0x100_0000_0000_0000_0000,
        0 < d < 0x1000,
        2 <= limit < 0x100_0000_0000_0000,
    ensures
        r == nearest(n as nat, d as nat, limit as nat),
        r <= 2 * n + 1,
{
    proof {
        assert(0 < limit * d < 0x1000_0000_0000_0000_0000) by (nonlinear_arith)
            requires
                0 < d < 0x1000,
                2 <= limit < 0x100_0000_0000_0000,
        ;
        assert((limit * d) as nat == (limit as nat) * (d as nat));
    }
    let step = limit * d;
    let mut s: u128 = 1;
    let mut bound: u128 = step;
    while n >= bound
        invariant
            n < 0x100_0000_0000_0000_0000,
            0 < step < 0x1000_0000_0000_0000_0000,
            1 <= s,
            bound == step * s,
            s == 1 || bound <= 2 * n,
            spacing(n as nat, step as nat, s as nat) == spacing(n as nat, step as nat, 1),
        decreases 2 * n + step + 1 - bound,
    {
        proof {
            assert(step * (2 * s) == 2 * (step * s)) by (nonlinear_arith);
            assert(bound >= s) by (nonlinear_arith)
                requires
                    bound == step * s,
                    step > 0,
                    s > 0,
            ;
        }
        s = 2 * s;
        bound = 2 * bound;
    }
    proof {
        assert(s * d * 2 <= bound) by (nonlinear_arith)
            requires
                bound == step * s,
                step == limit * d,
                limit >= 2,
                d > 0,
                s > 0,
        ;
        assert(s <= n || s == 1) by (nonlinear_arith)
            requires
                s == 1 || bound <= 2 * n,
                s * d * 2 <= bound,
                d > 0,
                s > 0,
        ;
        assert(0 < d * s < 0x1_0000_0000_0000_0000_0000_0000) by (nonlinear_arith)
            requires
                0 < d < 0x1000,
                s <= n || s == 1,
                s > 0,
                n < 0x100_0000_0000_0000_0000,
        ;
        assert((d * s) as nat == (d as nat) * (s as nat));
    }
    let ds = d * s;
    let q = rounded_div(n, ds);
    proof {
        assert(q * s <= n + s) by (nonlinear_arith)
            requires
                q <= n / ds + 1,
                ds == d * s,
                d > 0,
                s > 0,
                n >= 0,
                q >= 0,
        ;
        assert((q * s) as nat == (q as nat) * (s as nat));
    }
    q * s
}

} // verus!
