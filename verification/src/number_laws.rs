//! What holds of numerals.
use vstd::prelude::*;

use crate::number;
use crate::text;

verus! {

/// A digit more makes ten times as much, and its own worth.
pub proof fn law_digits(s: Seq<char>, c: char)
    requires
        '0' <= c && c <= '9',
    ensures
        number::digits_value(s.push(c)) == 10 * number::digits_value(s) + (c as int - '0' as int),
        number::digits_value(Seq::empty()) == 0,
{
    assert(s.push(c).drop_last() =~= s);
}

/// A number is written in digits that are worth it, without a needless zero in
/// front; so two numbers are never written alike.
pub proof fn law_decimal(n: nat)
    ensures
        number::digits_value(number::decimal(n)) == n,
        number::decimal(n).len() > 0,
        forall|i: int|
            0 <= i < number::decimal(n).len() ==> '0' <= #[trigger] number::decimal(n)[i]
                && number::decimal(n)[i] <= '9',
        number::decimal(n).len() > 1 ==> number::decimal(n)[0] != '0',
    decreases n,
{
    number::lemma_decimal_value(n);
    let s = number::decimal(n);
    assert forall|i: int| 0 <= i < s.len() implies '0' <= #[trigger] s[i] && s[i] <= '9' by {
        assert(number::is_digit(s[i]));
    }
    if n >= 10 {
        law_decimal(n / 10);
        let less = number::decimal(n / 10);
        assert(s[0] == less[0]);
        if less.len() == 1 {
            assert(n / 10 < 10) by {
                if n / 10 >= 10 {
                    assert(less == number::decimal(n / 10 / 10).push(
                        number::digit(((n / 10) % 10) as int),
                    ));
                    law_decimal_len(n / 10 / 10);
                }
            }
            assert(less[0] == number::digit((n / 10) as int));
        }
    }
}

proof fn law_decimal_len(n: nat)
    ensures
        number::decimal(n).len() > 0,
{
}

/// A number below zero is written as one above it, behind a minus sign.
pub proof fn law_signed(n: int)
    ensures
        n >= 0 ==> number::digits_value(number::signed_decimal(n)) == n && number::all_digits(
            number::signed_decimal(n),
        ),
        n < 0 ==> number::signed_decimal(n).len() > 1 && number::signed_decimal(n)[0] == '-'
            && number::all_digits(number::signed_decimal(n).skip(1)) && number::digits_value(
            number::signed_decimal(n).skip(1),
        ) == -n,
{
    if n >= 0 {
        number::lemma_decimal_value(n as nat);
    } else {
        number::lemma_decimal_value((-n) as nat);
        assert(number::signed_decimal(n).skip(1) =~= number::decimal((-n) as nat));
    }
}

/// What was written is read back, with a plus sign in front as well, as far as
/// it is no more than allowed.
pub proof fn law_numbers_read_back(n: nat, max: nat)
    ensures
        n <= max ==> number::unsigned_value(number::decimal(n), max) == Some(n),
        n <= max ==> number::unsigned_value(seq!['+'] + number::decimal(n), max) == Some(n),
        n > max ==> number::unsigned_value(number::decimal(n), max) is None,
{
    law_decimal(n);
    number::lemma_decimal_value(n);
    let s = number::decimal(n);
    assert(s[0] != '+');
    assert((seq!['+'] + s).skip(1) =~= s);
}

/// Only digits behind a sign are read as a number.
pub proof fn law_no_number(s: Seq<char>, max: nat, i: int)
    requires
        s.len() == 0 || (0 <= i < s.len() && !('0' <= s[i] && s[i] <= '9') && (i > 0 || s[i]
            != '+')),
    ensures
        number::unsigned_value(s, max) is None,
{
    if s.len() > 0 && s[0] == '+' {
        assert(s.skip(1)[i - 1] == s[i]);
        assert(!number::is_digit(s.skip(1)[i - 1]));
    } else if s.len() > 0 {
        assert(!number::is_digit(s[i]));
    }
}

/// Whether all characters are digits.
pub open spec fn digits_only(s: Seq<char>) -> bool {
    forall|i: int| 0 <= i < s.len() ==> '0' <= #[trigger] s[i] && s[i] <= '9'
}

/// Digits are a numeral, with a sign or without, and so are digits with a point
/// among or beside them.
pub proof fn law_numerals(a: Seq<char>, b: Seq<char>, sign: char)
    requires
        digits_only(a),
        digits_only(b),
        a.len() > 0,
        sign == '+' || sign == '-',
    ensures
        number::is_real_numeral(a),
        number::is_real_numeral(seq![sign] + a),
        number::is_real_numeral(a.push('.') + b),
        number::is_real_numeral(seq![sign] + (a.push('.') + b)),
        number::is_real_numeral(b.push('.') + a),
{
    assert(number::all_digits(a)) by {
        assert forall|i: int| 0 <= i < a.len() implies number::is_digit(#[trigger] a[i]) by {}
    }
    lemma_point(a, b);
    lemma_point(b, a);
    let x = a.push('.') + b;
    let y = b.push('.') + a;
    assert(x[0] == a[0]);
    assert(number::unsigned_part(a) == a);
    assert(number::unsigned_part(x) == x);
    assert(y[0] == if b.len() > 0 {
        b[0]
    } else {
        '.'
    });
    assert(number::unsigned_part(y) == y);
    assert((seq![sign] + a).skip(1) =~= a);
    assert((seq![sign] + x).skip(1) =~= x);
}

proof fn lemma_point(a: Seq<char>, b: Seq<char>)
    requires
        digits_only(a),
        digits_only(b),
        a.len() + b.len() > 0,
    ensures
        number::is_mantissa(a.push('.') + b),
{
    let s = a.push('.') + b;
    let k = a.len() as int;
    assert(s.take(k) =~= a);
    assert(s.skip(k + 1) =~= b);
    assert forall|i: int| 0 <= i < a.len() implies number::is_digit(#[trigger] a[i]) by {}
    assert forall|i: int| 0 <= i < b.len() implies number::is_digit(#[trigger] b[i]) by {}
    assert(number::is_point_at(s, k));
}

/// Digits with a power of ten behind them are a numeral.
pub proof fn law_powers(a: Seq<char>, e: Seq<char>, mark: char)
    requires
        digits_only(a),
        digits_only(e),
        a.len() > 0,
        e.len() > 0,
        mark == 'e' || mark == 'E',
    ensures
        number::is_real_numeral(a.push(mark) + e),
{
    let s = a.push(mark) + e;
    let k = a.len() as int;
    assert(s.take(k) =~= a);
    assert(s.skip(k + 1) =~= e);
    assert forall|i: int| 0 <= i < a.len() implies number::is_digit(#[trigger] a[i]) by {}
    assert forall|i: int| 0 <= i < e.len() implies number::is_digit(#[trigger] e[i]) by {}
    assert(number::unsigned_part(e) == e);
    assert(number::is_exponent_at(s, k));
    assert(s[0] == a[0]);
    assert(number::unsigned_part(s) == s);
}

/// Whether a character can stand in a numeral.
pub open spec fn in_numeral(c: char) -> bool {
    ('0' <= c && c <= '9') || c == '+' || c == '-' || c == '.' || c == 'e' || c == 'E'
}

/// Nothing else is a numeral, but for the names of the infinite and of what is no
/// number; and what holds no digit is none either.
pub proof fn law_no_numeral(s: Seq<char>, i: int)
    requires
        number::is_real_numeral(s),
        0 <= i < s.len(),
        !in_numeral(s[i]),
    ensures
        ({
            let name = text::lower(
                if s[0] == '+' || s[0] == '-' {
                    s.skip(1)
                } else {
                    s
                },
            );
            name == "inf"@ || name == "infinity"@ || name == "nan"@
        }),
{
    let body = number::unsigned_part(s);
    if number::is_decimal_fraction(body) {
        let j = if s[0] == '+' || s[0] == '-' {
            i - 1
        } else {
            i
        };
        assert(body[j] == s[i]);
        lemma_fraction_chars(body, j);
    }
}

proof fn lemma_mantissa_chars(s: Seq<char>, j: int)
    requires
        number::is_mantissa(s),
        0 <= j < s.len(),
    ensures
        in_numeral(s[j]),
{
    if number::all_digits(s) {
        assert(number::is_digit(s[j]));
    } else {
        let k = choose|k: int| 0 <= k < s.len() && s.len() >= 2 && number::is_point_at(s, k);
        if j < k {
            assert(s.take(k)[j] == s[j]);
            assert(number::is_digit(s.take(k)[j]));
        } else if j > k {
            assert(s.skip(k + 1)[j - k - 1] == s[j]);
            assert(number::is_digit(s.skip(k + 1)[j - k - 1]));
        }
    }
}

proof fn lemma_fraction_chars(s: Seq<char>, j: int)
    requires
        number::is_decimal_fraction(s),
        0 <= j < s.len(),
    ensures
        in_numeral(s[j]),
{
    if number::is_mantissa(s) {
        lemma_mantissa_chars(s, j);
    } else {
        let k = choose|k: int| 0 <= k < s.len() && number::is_exponent_at(s, k);
        if j < k {
            assert(s.take(k)[j] == s[j]);
            lemma_mantissa_chars(s.take(k), j);
        } else if j > k {
            let rest = s.skip(k + 1);
            let at = j - k - 1;
            assert(rest[at] == s[j]);
            let body = number::unsigned_part(rest);
            if rest[0] == '+' || rest[0] == '-' {
                if at > 0 {
                    assert(body[at - 1] == rest[at]);
                    assert(number::is_digit(body[at - 1]));
                }
            } else {
                assert(number::is_digit(body[at]));
            }
        }
    }
}

/// A numeral holds something: a text without any character is none.
pub proof fn law_nothing_is_no_numeral()
    ensures
        !number::is_real_numeral(Seq::empty()),
{
    reveal_strlit("inf");
    reveal_strlit("infinity");
    reveal_strlit("nan");
    let s = Seq::<char>::empty();
    assert(number::unsigned_part(s) == s);
    assert(text::lower(s).len() == 0);
}

// ---------------------------------------------------------------------------
// Rounding
// ---------------------------------------------------------------------------

proof fn lemma_spacing(n: nat, step: nat, s: nat)
    requires
        s > 0,
        step > 0,
    ensures
        number::spacing(n, step, s) >= s,
        number::spacing(n, step, s) == s || step * number::spacing(n, step, s) <= 2 * n,
    decreases
            (if step * s <= n {
                n + 1 - step * s
            } else {
                0
            }) as nat,
{
    if n >= step * s {
        assert(step * (2 * s) > step * s) by (nonlinear_arith)
            requires
                s > 0,
                step > 0,
        ;
        assert(step * (2 * s) == 2 * (step * s)) by (nonlinear_arith);
        lemma_spacing(n, step, 2 * s);
    }
}

/// A rounded quotient is as near as a whole number can be, and of two that are
/// equally near it is the even one.
pub proof fn law_rounding(n: nat, d: nat)
    requires
        d > 0,
    ensures
        -(d as int) <= 2 * (number::round_div(n, d) * d - n) <= d,
        2 * (number::round_div(n, d) * d - n) == d || 2 * (number::round_div(n, d) * d - n) == -(
        d as int) ==> number::round_div(n, d) % 2 == 0,
{
    let q = (n / d) as int;
    let r = (n % d) as int;
    assert(n == q * d + r) by (nonlinear_arith)
        requires
            d > 0,
            q == n as int / d as int,
            r == n as int % d as int,
    ;
    assert((q + 1) * d == q * d + d) by (nonlinear_arith);
    assert(number::round_div(n, d) == q || number::round_div(n, d) == q + 1);
}

/// A number that floating point cannot hold is off by at most half a unit of
/// its last place, which is that of a significand below `limit`.
pub proof fn law_floating(n: nat, d: nat, limit: nat)
    requires
        d > 0,
        limit > 0,
    ensures
        ({
            let off = number::nearest(n, d, limit) * d - n;
            let size = if off < 0 {
                -off
            } else {
                off
            };
            2 * size <= d || limit * size <= n
        }),
        d == 1 && n < limit ==> number::nearest(n, d, limit) == n,
{
    let step = limit * d;
    assert(step > 0) by (nonlinear_arith)
        requires
            limit > 0,
            d > 0,
            step == limit * d,
    ;
    lemma_spacing(n, step, 1);
    let s = number::spacing(n, step, 1);
    let unit = d * s;
    assert(unit > 0) by (nonlinear_arith)
        requires
            d > 0,
            s >= 1,
            unit == d * s,
    ;
    law_rounding(n, unit);
    if d == 1 && n < limit {
        assert(s == 1);
        assert(unit == 1);
    }
    let q = number::round_div(n, unit);
    assert((q * s) * d == q * unit) by (nonlinear_arith)
        requires
            unit == d * s,
    ;
    let off = q * unit - n;
    let size = if off < 0 {
        -off
    } else {
        off
    };
    if s > 1 {
        assert(limit * unit == step * s) by (nonlinear_arith)
            requires
                unit == d * s,
                step == limit * d,
        ;
        assert(limit * (2 * size) <= limit * unit) by (nonlinear_arith)
            requires
                2 * size <= unit,
                limit > 0,
        ;
        assert(limit * (2 * size) == 2 * (limit * size)) by (nonlinear_arith);
    } else {
        assert(unit == d) by (nonlinear_arith)
            requires
                unit == d * s,
                s == 1,
        ;
    }
}

} // verus!
