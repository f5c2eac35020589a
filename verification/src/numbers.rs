//! How numbers are shown, computed with integers: decimal digits, sizes in
//! binary units, and the rounding of integers to double precision.

use vstd::prelude::*;
use crate::text::push_char;

verus! {

pub open spec fn digit_char(d: nat) -> char {
    (48 + d) as char
}

/// The decimal digits of a natural number, without leading zeros.
pub open spec fn decimal_chars(n: nat) -> Seq<char>
    decreases n,
{
    if n < 10 {
        seq![digit_char(n)]
    } else {
        decimal_chars(n / 10).push(digit_char(n % 10))
    }
}

fn digit(d: u128) -> (c: char)
    requires
        d < 10,
    ensures
        c == digit_char(d as nat),
{
    if d == 0 { '0' }
    else if d == 1 { '1' }
    else if d == 2 { '2' }
    else if d == 3 { '3' }
    else if d == 4 { '4' }
    else if d == 5 { '5' }
    else if d == 6 { '6' }
    else if d == 7 { '7' }
    else if d == 8 { '8' }
    else { '9' }
}

/// Appends the decimal digits of `n`.
pub fn push_decimal(out: &mut String, n: u128)
    ensures
        final(out)@ == old(out)@ + decimal_chars(n as nat),
    decreases n,
{
    if n >= 10 {
        push_decimal(out, n / 10);
    }
    push_char(out, digit(n % 10));
    proof {
        if n < 10 {
            assert(n % 10 == n);
        }
    }
}

/// The decimal text of `n`.
pub fn decimal_text(n: u128) -> (text: String)
    ensures
        text@ == decimal_chars(n as nat),
{
    let mut text = String::new();
    push_decimal(&mut text, n);
    text
}


/// The decimal text of an integer, with a minus sign when negative.
pub open spec fn signed_decimal_chars(value: int) -> Seq<char> {
    if value < 0 {
        seq!['-'] + decimal_chars((-value) as nat)
    } else {
        decimal_chars(value as nat)
    }
}

/// The decimal text of `value` (as `{}` prints an `i64`).
pub fn signed_decimal_text(value: i64) -> (text: String)
    ensures
        text@ == signed_decimal_chars(value as int),
{
    let mut text = String::new();
    if value < 0 {
        let magnitude: u128 = ((-(value as i128)) as u128);
        push_char(&mut text, '-');
        push_decimal(&mut text, magnitude);
    } else {
        push_decimal(&mut text, value as u128);
    }
    text
}

/// `u64::saturating_mul`.
pub fn saturating_mul_u64(a: u64, b: u64) -> (product: u64)
    ensures
        product == if a * b > u64::MAX { u64::MAX as int } else { a * b },
{
    assert((a as int) * (b as int) <= 0xffff_ffff_ffff_ffff_ffff_ffff_ffff_ffff) by (nonlinear_arith)
        requires
            a <= u64::MAX,
            b <= u64::MAX,
    ;
    let wide: u128 = a as u128 * b as u128;
    if wide > u64::MAX as u128 {
        u64::MAX
    } else {
        wide as u64
    }
}

/// `v` held to the range of `i64`.
pub open spec fn clamp_i64(v: int) -> int {
    if v < i64::MIN {
        i64::MIN as int
    } else if v > i64::MAX {
        i64::MAX as int
    } else {
        v
    }
}

/// `i64::saturating_add`.
pub fn saturating_add_i64(a: i64, b: i64) -> (sum: i64)
    ensures
        sum == clamp_i64(a + b),
{
    let wide: i128 = a as i128 + b as i128;
    if wide > i64::MAX as i128 {
        i64::MAX
    } else if wide < i64::MIN as i128 {
        i64::MIN
    } else {
        wide as i64
    }
}

/// `i64::saturating_sub`.
pub fn saturating_sub_i64(a: i64, b: i64) -> (difference: i64)
    ensures
        difference == clamp_i64(a - b),
{
    let wide: i128 = a as i128 - b as i128;
    if wide > i64::MAX as i128 {
        i64::MAX
    } else if wide < i64::MIN as i128 {
        i64::MIN
    } else {
        wide as i64
    }
}

/// `i64::saturating_mul`.
pub fn saturating_mul_i64(a: i64, b: i64) -> (product: i64)
    ensures
        product == clamp_i64(a * b),
{
    assert(-0x4000_0000_0000_0000_0000_0000_0000_0000 <= (a as int) * (b as int) <= 0x4000_0000_0000_0000_0000_0000_0000_0000) by (nonlinear_arith)
        requires
            i64::MIN <= a <= i64::MAX,
            i64::MIN <= b <= i64::MAX,
    ;
    let wide: i128 = a as i128 * b as i128;
    if wide > i64::MAX as i128 {
        i64::MAX
    } else if wide < i64::MIN as i128 {
        i64::MIN
    } else {
        wide as i64
    }
}

/// Largest integer that a double holds with unit spacing.
pub open spec fn double_significand_limit() -> nat {
    0x20_0000_0000_0000
}

/// The spacing of doubles around `m`: the least power of two by which `m`
/// must be divided to fit in 53 bits.
pub open spec fn double_unit(m: nat) -> nat
    decreases m,
{
    if m < double_significand_limit() {
        1
    } else {
        2 * double_unit(m / 2)
    }
}

/// The double nearest to the natural number `m`, ties to even, as an integer
/// (the conversion `m as f64` of Rust).
pub open spec fn round_to_double(m: nat) -> nat {
    let unit = double_unit(m);
    let quotient = m / unit;
    let remainder = m % unit;
    let up = 2 * remainder > unit || (2 * remainder == unit && quotient % 2 == 1);
    (if up { quotient + 1 } else { quotient }) * unit
}

proof fn lemma_double_unit_positive(m: nat)
    ensures
        double_unit(m) >= 1,
    decreases m,
{
    if m >= double_significand_limit() {
        lemma_double_unit_positive(m / 2);
    }
}

proof fn lemma_div_twice(m: nat, unit: nat)
    requires
        unit >= 1,
    ensures
        m / unit / 2 == m / (unit * 2),
{
    vstd::arithmetic::div_mod::lemma_div_denominator(m as int, unit as int, 2);
}

/// The double nearest to `m`, ties to even, as an integer.
pub fn rounded_to_double(m: u64) -> (rounded: u128)
    ensures
        rounded == round_to_double(m as nat),
        rounded <= 0x2_0000_0000_0000_0000,
{
    let mut unit: u128 = 1;
    let mut rest: u128 = m as u128;
    while rest >= 0x20_0000_0000_0000
        invariant
            unit >= 1,
            unit <= 0x1_0000_0000_0000_0000,
            rest == (m as nat) / (unit as nat),
            rest * unit <= m,
            double_unit(m as nat) == unit * double_unit(rest as nat),
        decreases rest,
    {
        proof {
            lemma_div_twice(m as nat, unit as nat);
            lemma_double_unit_positive((rest / 2) as nat);
            assert(unit * 2 <= 0x1_0000_0000_0000_0000) by (nonlinear_arith)
                requires
                    rest * unit <= m,
                    rest >= 0x20_0000_0000_0000,
                    m <= 0xffff_ffff_ffff_ffff,
            ;
            assert((rest / 2) * (unit * 2) <= m) by (nonlinear_arith)
                requires
                    rest * unit <= m,
            ;
            assert(unit * double_unit(rest as nat) == (unit * 2) * double_unit((rest / 2) as nat))
                by (nonlinear_arith)
                requires
                    double_unit(rest as nat) == 2 * double_unit((rest / 2) as nat),
            ;
        }
        rest = rest / 2;
        unit = unit * 2;
    }
    assert(double_unit(rest as nat) == 1);
    assert(double_unit(m as nat) == unit) by (nonlinear_arith)
        requires
            double_unit(m as nat) == unit * double_unit(rest as nat),
            double_unit(rest as nat) == 1,
    ;
    let remainder: u128 = m as u128 - rest * unit;
    proof {
        vstd::arithmetic::div_mod::lemma_fundamental_div_mod(m as int, unit as int);
        assert(remainder == (m as nat) % (unit as nat)) by (nonlinear_arith)
            requires
                m == unit * ((m as nat) / (unit as nat)) + (m as nat) % (unit as nat),
                rest == (m as nat) / (unit as nat),
                remainder == m - rest * unit,
        ;
    }
    let up = 2 * remainder > unit || (2 * remainder == unit && rest % 2 == 1);
    let quotient = if up { rest + 1 } else { rest };
    proof {
        assert(quotient * unit <= 0x2_0000_0000_0000_0000) by (nonlinear_arith)
            requires
                quotient <= rest + 1,
                rest * unit <= m,
                unit <= 0x1_0000_0000_0000_0000,
                m <= 0xffff_ffff_ffff_ffff,
                remainder == m - rest * unit,
                up ==> 2 * remainder >= unit,
                !up ==> quotient == rest,
        ;
    }
    quotient * unit
}


pub open spec fn kibi_power(k: nat) -> nat
    decreases k,
{
    if k == 0 {
        1
    } else {
        1024 * kibi_power((k - 1) as nat)
    }
}

/// Index of the largest binary unit (B, KiB, MiB, GiB, TiB) that fits in `r`.
pub open spec fn size_unit_index(r: nat) -> nat {
    if r >= kibi_power(4) {
        4
    } else if r >= kibi_power(3) {
        3
    } else if r >= kibi_power(2) {
        2
    } else if r >= kibi_power(1) {
        1
    } else {
        0
    }
}

pub open spec fn size_unit_label(k: nat) -> Seq<char> {
    if k == 0 {
        seq!['B']
    } else if k == 1 {
        seq!['K', 'i', 'B']
    } else if k == 2 {
        seq!['M', 'i', 'B']
    } else if k == 3 {
        seq!['G', 'i', 'B']
    } else {
        seq!['T', 'i', 'B']
    }
}

/// `num / den` rounded to the nearest integer, ties to even.
pub open spec fn round_half_even(num: nat, den: nat) -> nat {
    let quotient = num / den;
    let remainder = num % den;
    if 2 * remainder > den || (2 * remainder == den && quotient % 2 == 1) {
        quotient + 1
    } else {
        quotient
    }
}

/// `n / 100` written with two decimals.
pub open spec fn hundredths_text(n: nat) -> Seq<char> {
    decimal_chars(n / 100).push('.').push(digit_char((n % 100) / 10)).push(digit_char(n % 10))
}

/// A byte count for people: bytes below 1 KiB as an integer, otherwise the
/// value in the largest unit up to TiB with two decimals, rounded half to
/// even from the double nearest to the count.
pub open spec fn spec_human_readable_size(bytes: nat) -> Seq<char> {
    let r = round_to_double(bytes);
    let k = size_unit_index(r);
    if k == 0 {
        decimal_chars(bytes).push(' ') + size_unit_label(0)
    } else {
        hundredths_text(round_half_even(r * 100, kibi_power(k))).push(' ') + size_unit_label(k)
    }
}

fn push_unit_label(out: &mut String, k: u128)
    requires
        k <= 4,
    ensures
        final(out)@ == old(out)@ + size_unit_label(k as nat),
{
    if k == 0 {
        push_char(out, 'B');
    } else {
        if k == 1 {
            push_char(out, 'K');
        } else if k == 2 {
            push_char(out, 'M');
        } else if k == 3 {
            push_char(out, 'G');
        } else {
            push_char(out, 'T');
        }
        push_char(out, 'i');
        push_char(out, 'B');
    }
}

/// A byte count for people, as in "512 B" or "1.50 MiB".
pub fn human_readable_size(bytes: u64) -> (text: String)
    ensures
        text@ == spec_human_readable_size(bytes as nat),
{
    let r = rounded_to_double(bytes);
    proof {
        reveal_with_fuel(kibi_power, 5);
        assert(round_to_double(bytes as nat) <= 0x2_0000_0000_0000_0000) by {
            assert(r <= 0x2_0000_0000_0000_0000);
        }
    }
    let k: u128 = if r >= 0x100_0000_0000 {
        4
    } else if r >= 0x4000_0000 {
        3
    } else if r >= 0x10_0000 {
        2
    } else if r >= 0x400 {
        1
    } else {
        0
    };
    let mut text = String::new();
    if k == 0 {
        push_decimal(&mut text, bytes as u128);
        push_char(&mut text, ' ');
        push_unit_label(&mut text, 0);
        return text;
    }
    let den: u128 = if k == 4 {
        0x100_0000_0000
    } else if k == 3 {
        0x4000_0000
    } else if k == 2 {
        0x10_0000
    } else {
        0x400
    };
    assert(den == kibi_power(k as nat));
    let num = r * 100;
    let quotient = num / den;
    let remainder = num % den;
    let n = if 2 * remainder > den || (2 * remainder == den && quotient % 2 == 1) {
        quotient + 1
    } else {
        quotient
    };
    push_decimal(&mut text, n / 100);
    push_char(&mut text, '.');
    push_char(&mut text, digit((n % 100) / 10));
    push_char(&mut text, digit(n % 10));
    push_char(&mut text, ' ');
    push_unit_label(&mut text, k);
    text
}


pub open spec fn pow10(p: nat) -> nat
    decreases p,
{
    if p == 0 {
        1
    } else {
        10 * pow10((p - 1) as nat)
    }
}

/// Whether the integer `c` reads back as the double `d`, whose spacing is
/// `unit`: it lies within half the gap to each neighbouring double (the
/// gap below a power of two is half as wide), bounds included when the
/// double's significand is even.
pub open spec fn reads_back_as(d: nat, unit: nat, c: nat) -> bool {
    let significand = d / unit;
    let lower4: int = if significand == 0x10_0000_0000_0000 {
        unit as int
    } else {
        2 * unit as int
    };
    let upper4: int = 2 * unit as int;
    if c <= d {
        if significand % 2 == 0 {
            4 * (d - c) <= lower4
        } else {
            4 * (d - c) < lower4
        }
    } else {
        if significand % 2 == 0 {
            4 * (c - d) <= upper4
        } else {
            4 * (c - d) < upper4
        }
    }
}

/// The multiple of `10^p` next below or above `d` that reads back as `d`,
/// the nearer one when both do (the upper one on a tie).
pub open spec fn candidate_at(d: nat, unit: nat, p: nat) -> Option<nat> {
    let s = pow10(p);
    let low = d / s * s;
    let high = low + s;
    let low_ok = reads_back_as(d, unit, low);
    let high_ok = reads_back_as(d, unit, high);
    if low_ok && high_ok {
        if 2 * (d - low) >= s {
            Some(high)
        } else {
            Some(low)
        }
    } else if low_ok {
        Some(low)
    } else if high_ok {
        Some(high)
    } else {
        None
    }
}

/// The candidate at the largest scale from `10^p` down that has one.
pub open spec fn shortest_from(d: nat, unit: nat, p: nat) -> nat
    decreases p,
{
    match candidate_at(d, unit, p) {
        Some(c) => c,
        None => if p == 0 {
            d
        } else {
            shortest_from(d, unit, (p - 1) as nat)
        },
    }
}

/// The integer whose digits a writer of doubles prints for the double `d`
/// (a whole number): `d` itself below 2^53; above, the number with the
/// fewest significant digits that reads back as `d`, the nearest such (the
/// upper on a tie), its remaining digits zeros.
pub open spec fn printed_double(d: nat) -> nat {
    if d < double_significand_limit() {
        d
    } else {
        shortest_from(d, double_unit(d), 19)
    }
}

/// The text that a JSON writer gives an integer stored as a double: the
/// digits that the double nearest to it is printed with, with a minus sign
/// when negative.
pub open spec fn integer_json_chars(value: int) -> Seq<char> {
    if value < 0 {
        seq!['-'] + decimal_chars(printed_double(round_to_double((-value) as nat)))
    } else {
        decimal_chars(printed_double(round_to_double(value as nat)))
    }
}

/// The spacing of doubles around `d`.
fn unit_of(d: u128) -> (unit: u128)
    requires
        d <= 0x2_0000_0000_0000_0000,
    ensures
        unit == double_unit(d as nat),
        1 <= unit <= 0x1_0000_0000_0000_0000,
{
    let mut unit: u128 = 1;
    let mut rest: u128 = d;
    while rest >= 0x20_0000_0000_0000
        invariant
            unit >= 1,
            unit <= 0x1_0000_0000_0000_0000,
            d <= 0x2_0000_0000_0000_0000,
            rest == (d as nat) / (unit as nat),
            rest * unit <= d,
            double_unit(d as nat) == unit * double_unit(rest as nat),
        decreases rest,
    {
        proof {
            lemma_div_twice(d as nat, unit as nat);
            lemma_double_unit_positive((rest / 2) as nat);
            assert(unit * 2 <= 0x1_0000_0000_0000_0000) by (nonlinear_arith)
                requires
                    rest * unit <= d,
                    rest >= 0x20_0000_0000_0000,
                    d <= 0x2_0000_0000_0000_0000,
            ;
            assert((rest / 2) * (unit * 2) <= d) by (nonlinear_arith)
                requires
                    rest * unit <= d,
            ;
            assert(unit * double_unit(rest as nat) == (unit * 2) * double_unit((rest / 2) as nat))
                by (nonlinear_arith)
                requires
                    double_unit(rest as nat) == 2 * double_unit((rest / 2) as nat),
            ;
        }
        rest = rest / 2;
        unit = unit * 2;
    }
    assert(double_unit(rest as nat) == 1);
    assert(double_unit(d as nat) == unit) by (nonlinear_arith)
        requires
            double_unit(d as nat) == unit * double_unit(rest as nat),
            double_unit(rest as nat) == 1,
    ;
    unit
}

fn reads_back(d: u128, unit: u128, c: u128) -> (ok: bool)
    requires
        1 <= unit,
        d <= 0x2_0000_0000_0000_0000,
        c <= 0x4_0000_0000_0000_0000,
        unit <= 0x1_0000_0000_0000_0000,
    ensures
        ok == reads_back_as(d as nat, unit as nat, c as nat),
{
    let significand = d / unit;
    let lower4: u128 = if significand == 0x10_0000_0000_0000 {
        unit
    } else {
        2 * unit
    };
    let upper4: u128 = 2 * unit;
    if c <= d {
        if significand % 2 == 0 {
            4 * (d - c) <= lower4
        } else {
            4 * (d - c) < lower4
        }
    } else {
        if significand % 2 == 0 {
            4 * (c - d) <= upper4
        } else {
            4 * (c - d) < upper4
        }
    }
}

/// The digits a writer of doubles prints for the double `d`, at least 2^53.
fn shortest_printed(d: u128) -> (printed: u128)
    requires
        0x20_0000_0000_0000 <= d <= 0x2_0000_0000_0000_0000,
    ensures
        printed == printed_double(d as nat),
{
    let unit = unit_of(d);
    let mut p: u128 = 19;
    let mut s: u128 = 10_000_000_000_000_000_000;
    proof {
        reveal_with_fuel(pow10, 20);
    }
    loop
        invariant
            1 <= unit <= 0x1_0000_0000_0000_0000,
            unit == double_unit(d as nat),
            0x20_0000_0000_0000 <= d <= 0x2_0000_0000_0000_0000,
            p <= 19,
            1 <= s <= 10_000_000_000_000_000_000,
            s == pow10(p as nat),
            shortest_from(d as nat, unit as nat, 19) == shortest_from(d as nat, unit as nat, p as nat),
        decreases p,
    {
        proof {
            vstd::arithmetic::div_mod::lemma_fundamental_div_mod(d as int, s as int);
            vstd::arithmetic::div_mod::lemma_mod_pos_bound(d as int, s as int);
        }
        let low = d / s * s;
        let high = low + s;
        let low_ok = reads_back(d, unit, low);
        let high_ok = reads_back(d, unit, high);
        let found: Option<u128> = if low_ok && high_ok {
            if 2 * (d - low) >= s {
                Some(high)
            } else {
                Some(low)
            }
        } else if low_ok {
            Some(low)
        } else if high_ok {
            Some(high)
        } else {
            None
        };
        match found {
            Some(c) => {
                return c;
            },
            None => {},
        }
        if p == 0 {
            return d;
        }
        p = p - 1;
        s = s / 10;
    }
}

/// The digits printed for the double `d`.
fn printed(d: u128) -> (value: u128)
    requires
        d <= 0x2_0000_0000_0000_0000,
    ensures
        value == printed_double(d as nat),
{
    if d < 0x20_0000_0000_0000 {
        d
    } else {
        shortest_printed(d)
    }
}

/// The JSON text of an integer that is stored as a double.
pub fn integer_json_text(value: i64) -> (text: String)
    ensures
        text@ == integer_json_chars(value as int),
{
    let mut text = String::new();
    if value < 0 {
        let magnitude: u64 = ((-(value + 1)) as u64) + 1;
        push_char(&mut text, '-');
        push_decimal(&mut text, printed(rounded_to_double(magnitude)));
    } else {
        push_decimal(&mut text, printed(rounded_to_double(value as u64)));
    }
    text
}

} // verus!
