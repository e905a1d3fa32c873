//! Fixed-point price and quantity arithmetic.
//!
//! Cluster ladders key cells by exact price, so a price is never a float:
//! every price and quantity is an `i64` in minor units, scaled by [`SCALE`].
//! That gives 8 decimal places and a range of roughly 9.2e10 whole units on
//! either side of zero.

use crate::text::{push_decimal, push_padded, trim_chars};
use vstd::prelude::*;

verus! {

use crate::text::{all_digits, decimal, digit, digit_char, digit_value, number, padded, trimmed};

/// Number of decimal places carried by [`Price`] and [`Qty`].
pub const DECIMALS: u32 = 8;

/// Minor units per whole unit.
pub const SCALE: i64 = 100_000_000;

/// Why a decimal string could not be read.
#[derive(Debug, Clone, Copy, PartialEq, Eq, Structural)]
pub enum ParseFixedError {
    /// The input was empty or contained only a sign.
    Empty,
    /// The input contained a character that is not a digit, sign or point.
    InvalidChar(char),
    /// The input contained more than one decimal point.
    MultipleDecimalPoints,
    /// The value does not fit in 64 bits of minor units.
    OutOfRange,
}

/// The number that the digits before the first point denote.
pub open spec fn whole(s: Seq<char>) -> int
    decreases s.len(),
{
    if s.len() == 0 {
        0
    } else {
        let before = s.drop_last();
        if digit(s.last()) && !before.contains('.') {
            whole(before) * 10 + digit_value(s.last())
        } else {
            whole(before)
        }
    }
}

/// The digits after the first point.
pub open spec fn fraction(s: Seq<char>) -> Seq<char>
    decreases s.len(),
{
    if s.len() == 0 {
        s
    } else {
        let before = s.drop_last();
        if digit(s.last()) && before.contains('.') {
            fraction(before).push(s.last())
        } else {
            fraction(before)
        }
    }
}

/// Why the last character of `s` is refused when all before it were accepted.
///
/// The digits before the point are refused as soon as
/// they denote a number beyond 127 bits.
pub open spec fn refusal_of_last(s: Seq<char>) -> Option<ParseFixedError> {
    let c = s.last();
    let point_seen = s.drop_last().contains('.');
    if c == '.' {
        if point_seen {
            Some(ParseFixedError::MultipleDecimalPoints)
        } else {
            None
        }
    } else if digit(c) {
        if !point_seen && whole(s) > i128::MAX {
            Some(ParseFixedError::OutOfRange)
        } else {
            None
        }
    } else {
        Some(ParseFixedError::InvalidChar(c))
    }
}

/// The first refusal met when `s` is read from left to right.
pub open spec fn first_refusal(s: Seq<char>) -> Option<ParseFixedError>
    decreases s.len(),
{
    if s.len() == 0 {
        None
    } else {
        match first_refusal(s.drop_last()) {
            Some(e) => Some(e),
            None => refusal_of_last(s),
        }
    }
}

/// The first eight digits of a fraction, zeros where it has fewer.
pub open spec fn eight_places(f: Seq<char>) -> Seq<char> {
    Seq::new(
        8,
        |i: int|
            if i < f.len() {
                f[i]
            } else {
                '0'
            },
    )
}

/// The minor units that unsigned digits denote, rounded half away from zero at
/// the eighth place.
pub open spec fn magnitude(s: Seq<char>) -> int {
    let f = fraction(s);
    whole(s) * SCALE + number(eight_places(f)) + if f.len() > 8 && digit_value(f[8]) >= 5 {
        1int
    } else {
        0int
    }
}

/// What a decimal string denotes, in minor units.
pub open spec fn parsed(s: Seq<char>) -> Result<i64, ParseFixedError> {
    let t = trimmed(s);
    if t.len() == 0 {
        Err(ParseFixedError::Empty)
    } else {
        let digits = if t[0] == '-' || t[0] == '+' {
            t.drop_first()
        } else {
            t
        };
        if digits.len() == 0 {
            Err(ParseFixedError::Empty)
        } else {
            match first_refusal(digits) {
                Some(e) => Err(e),
                None => {
                    let value = if t[0] == '-' {
                        -magnitude(digits)
                    } else {
                        magnitude(digits)
                    };
                    if i64::MIN <= value <= i64::MAX {
                        Ok(value as i64)
                    } else {
                        Err(ParseFixedError::OutOfRange)
                    }
                },
            }
        }
    }
}

pub proof fn lemma_refusal_is_kept(s: Seq<char>, k: int)
    requires
        0 <= k <= s.len(),
        first_refusal(s.take(k)) is Some,
    ensures
        first_refusal(s) == first_refusal(s.take(k)),
    decreases s.len() - k,
{
    if k == s.len() {
        assert(s.take(k) =~= s);
    } else {
        assert(s.take(k + 1).drop_last() =~= s.take(k));
        lemma_refusal_is_kept(s, k + 1);
    }
}

proof fn lemma_fraction_digits(s: Seq<char>)
    ensures
        all_digits(fraction(s)),
        whole(s) >= 0,
    decreases s.len(),
{
    if s.len() > 0 {
        lemma_fraction_digits(s.drop_last());
    }
}

/// Eight places read so far, with the rest of the places filled by zeros.
pub proof fn lemma_eight_places(f: Seq<char>, head: Seq<char>, k: nat)
    requires
        head == f.take(if f.len() < 8 { f.len() as int } else { 8 }),
        head.len() + k == 8,
    ensures
        number(eight_places(f)) == number(head) * pow10(k),
    decreases k,
{
    if k == 0 {
        assert(eight_places(f) =~= head);
        lemma_times_one(number(head));
    } else {
        let zeros = Seq::new(k, |i: int| '0');
        assert(eight_places(f) =~= head + zeros);
        lemma_trailing_zeros(head, k);
    }
}

proof fn lemma_times_one(n: nat)
    ensures
        n * pow10(0) == n,
{
    assert(n * pow10(0) == n) by (nonlinear_arith)
        requires
            pow10(0) == 1,
    ;
}

proof fn lemma_trailing_zeros(head: Seq<char>, k: nat)
    ensures
        number(head + Seq::new(k, |i: int| '0')) == number(head) * pow10(k),
    decreases k,
{
    let all = head + Seq::new(k, |i: int| '0');
    if k == 0 {
        assert(all =~= head);
        lemma_times_one(number(head));
    } else {
        lemma_trailing_zeros(head, (k - 1) as nat);
        assert(all.drop_last() =~= head + Seq::new((k - 1) as nat, |i: int| '0'));
        assert(all.last() == '0');
        assert(number(head) * pow10(k) == number(head) * pow10((k - 1) as nat) * 10)
            by (nonlinear_arith)
            requires
                pow10(k) == 10 * pow10((k - 1) as nat),
        ;
    }
}

/// Ten to the power `n`.
pub open spec fn pow10(n: nat) -> nat
    decreases n,
{
    if n == 0 {
        1
    } else {
        10 * pow10((n - 1) as nat)
    }
}

/// Parse a plain decimal string (`"-1234.5678"`) into minor units.
///
/// Digits beyond [`DECIMALS`] are rounded half away from zero rather than
/// rejected: a live feed sending one extra digit must not kill the session.
pub fn parse_minor(s: &str) -> (r: Result<i64, ParseFixedError>)
    ensures
        r == parsed(s@),
{
    let chars = trim_chars(s);
    if chars.len() == 0 {
        return Err(ParseFixedError::Empty);
    }
    let negative = chars[0] == '-';
    let start: usize = if negative || chars[0] == '+' {
        1
    } else {
        0
    };
    if start == chars.len() {
        return Err(ParseFixedError::Empty);
    }
    let ghost digits = chars@.skip(start as int);
    assert(digits == if start == 1 {
        trimmed(s@).drop_first()
    } else {
        trimmed(s@)
    });

    let mut int_part: i128 = 0;
    let mut frac: i128 = 0;
    let mut frac_digits: u32 = 0;
    let mut seen_point = false;
    // Whether the first digit dropped past DECIMALS was read, and rounds up.
    let mut dropped = false;
    let mut round_up = false;
    let mut i: usize = start;
    assert(digits.take(0) =~= Seq::<char>::empty());
    assert(fraction(digits.take(0)).take(0) =~= Seq::<char>::empty());
    while i < chars.len()
        invariant
            start <= i <= chars.len(),
            digits == chars@.skip(start as int),
            start <= 1,
            digits.len() > 0,
            digits == if trimmed(s@)[0] == '-' || trimmed(s@)[0] == '+' {
                trimmed(s@).drop_first()
            } else {
                trimmed(s@)
            },
            trimmed(s@).len() > 0,
            first_refusal(digits.take(i - start)) is None,
            seen_point == digits.take(i - start).contains('.'),
            int_part == whole(digits.take(i - start)),
            0 <= int_part,
            frac_digits <= 8,
            frac_digits == if fraction(digits.take(i - start)).len() < 8 {
                fraction(digits.take(i - start)).len() as int
            } else {
                8
            },
            frac == number(fraction(digits.take(i - start)).take(frac_digits as int)),
            frac < pow10(frac_digits as nat),
            dropped == (fraction(digits.take(i - start)).len() > 8),
            round_up == (dropped && digit_value(fraction(digits.take(i - start))[8]) >= 5),
        decreases chars.len() - i,
    {
        let ch = chars[i];
        let ghost here = digits.take(i - start);
        let ghost next = digits.take(i - start + 1);
        proof {
            assert(next.drop_last() =~= here);
            assert(next.last() == ch);
            lemma_fraction_digits(here);
            assert(next =~= here.push(ch));
            assert(next.contains('.') <==> here.contains('.') || ch == '.') by {
                if here.contains('.') {
                    let j = choose|j: int| 0 <= j < here.len() && here[j] == '.';
                    assert(next[j] == '.');
                }
                if ch == '.' {
                    assert(next[next.len() - 1] == '.');
                }
            }
            if first_refusal(next) is Some {
                lemma_refusal_is_kept(digits, i - start + 1);
            }
        }
        if ch == '.' {
            if seen_point {
                return Err(ParseFixedError::MultipleDecimalPoints);
            }
            seen_point = true;
        } else if '0' <= ch && ch <= '9' {
            let d: u32 = ch as u32 - '0' as u32;
            assert(d == digit_value(ch));
            if !seen_point {
                match int_part.checked_mul(10) {
                    Some(tens) => match tens.checked_add(d as i128) {
                        Some(v) => {
                            int_part = v;
                        },
                        None => {
                            return Err(ParseFixedError::OutOfRange);
                        },
                    },
                    None => {
                        return Err(ParseFixedError::OutOfRange);
                    },
                }
            } else if frac_digits < DECIMALS {
                proof {
                    let f = fraction(here);
                    let g = fraction(next);
                    assert(f.take(frac_digits as int) =~= f);
                    assert(g.take(frac_digits + 1) =~= g);
                    assert(g.drop_last() =~= f);
                    reveal_with_fuel(pow10, 9);
                }
                frac = frac * 10 + d as i128;
                frac_digits += 1;
            } else {
                proof {
                    let f = fraction(here);
                    let g = fraction(next);
                    assert(g.take(8) =~= f.take(8));
                }
                if !dropped {
                    dropped = true;
                    round_up = d >= 5;
                }
            }
        } else {
            return Err(ParseFixedError::InvalidChar(ch));
        }
        i += 1;
    }
    assert(digits.take(i - start) =~= digits);
    let ghost f = fraction(digits);
    let ghost head = f.take(frac_digits as int);

    // Left-align the fraction to exactly DECIMALS places.
    let mut places: u32 = frac_digits;
    proof {
        lemma_times_one(number(head));
    }
    while places < DECIMALS
        invariant
            frac_digits <= places <= 8,
            frac_digits <= 8,
            0 <= frac < pow10(places as nat),
            frac == number(head) * pow10((places - frac_digits) as nat),
        decreases 8 - places,
    {
        proof {
            let k = (places - frac_digits) as nat;
            assert(number(head) * pow10(k + 1) == number(head) * pow10(k) * 10)
                by (nonlinear_arith)
                requires
                    pow10(k + 1) == 10 * pow10(k),
            ;
            reveal_with_fuel(pow10, 9);
        }
        frac = frac * 10;
        places += 1;
    }
    proof {
        lemma_eight_places(f, head, (8 - frac_digits) as nat);
        reveal_with_fuel(pow10, 9);
        assert(frac < 100_000_000);
        lemma_fraction_digits(digits);
    }

    let scaled: i128 = match int_part.checked_mul(SCALE as i128) {
        Some(v) => v,
        None => {
            assert(whole(digits) * SCALE > i128::MAX);
            return Err(ParseFixedError::OutOfRange);
        },
    };
    if scaled > i64::MAX as i128 + 1 {
        return Err(ParseFixedError::OutOfRange);
    }
    let mut minor: i128 = scaled + frac;
    if round_up {
        minor += 1;
    }
    assert(minor == magnitude(digits));
    if negative {
        minor = -minor;
    }
    if minor < i64::MIN as i128 || minor > i64::MAX as i128 {
        return Err(ParseFixedError::OutOfRange);
    }
    Ok(minor as i64)
}

/// The sign in front of `minor`.
pub open spec fn sign_text(minor: int) -> Seq<char> {
    if minor < 0 {
        seq!['-']
    } else {
        Seq::<char>::empty()
    }
}

/// The absolute value.
pub open spec fn magnitude_of(minor: int) -> nat {
    if minor < 0 {
        (-minor) as nat
    } else {
        minor as nat
    }
}

/// A fixed-point value written with `decimals` places, cut off after the last.
pub open spec fn formatted(minor: int, decimals: nat) -> Seq<char> {
    let units = magnitude_of(minor) / 100_000_000;
    let frac = magnitude_of(minor) % 100_000_000;
    let head = sign_text(minor) + decimal(units);
    if decimals == 0 {
        head
    } else {
        head + seq!['.'] + padded(frac / pow10((8 - decimals) as nat), decimals)
    }
}

/// `s` without the zeros at its end.
pub open spec fn without_trailing_zeros(s: Seq<char>) -> Seq<char>
    decreases s.len(),
{
    if s.len() > 0 && s.last() == '0' {
        without_trailing_zeros(s.drop_last())
    } else {
        s
    }
}

/// The fraction digits that are shown: no trailing zero, but at least one digit.
pub open spec fn shown_fraction(minor: int) -> Seq<char> {
    let kept = without_trailing_zeros(padded(magnitude_of(minor) % 100_000_000, 8));
    if kept.len() == 0 {
        seq!['0']
    } else {
        kept
    }
}

/// The plain decimal notation of a fixed-point value.
pub open spec fn displayed(minor: int) -> Seq<char> {
    sign_text(minor) + decimal(magnitude_of(minor) / 100_000_000) + seq!['.'] + shown_fraction(
        minor,
    )
}

fn power_of_ten(n: u32) -> (r: u128)
    requires
        n <= 8,
    ensures
        r == pow10(n as nat),
        1 <= r <= 100_000_000,
{
    let mut r: u128 = 1;
    let mut i: u32 = 0;
    while i < n
        invariant
            i <= n <= 8,
            r == pow10(i as nat),
            1 <= r <= 100_000_000,
        decreases n - i,
    {
        proof {
            reveal_with_fuel(pow10, 9);
        }
        r = r * 10;
        i += 1;
    }
    r
}

/// Render minor units as a plain decimal string with `decimals` places.
pub fn format_minor(minor: i64, decimals: u32) -> (r: String)
    requires
        decimals <= DECIMALS,
    ensures
        r@ == formatted(minor as int, decimals as nat),
{
    let abs: u128 = if minor < 0 {
        -(minor as i128) as u128
    } else {
        minor as u128
    };
    let units: u128 = abs / SCALE as u128;
    let frac: u128 = abs % SCALE as u128;
    let mut out = String::new();
    if minor < 0 {
        out.push('-');
    }
    assert(out@ =~= sign_text(minor as int));
    push_decimal(&mut out, units);
    if decimals > 0 {
        let divisor: u128 = power_of_ten(DECIMALS - decimals);
        out.push('.');
        push_padded(&mut out, frac / divisor, decimals);
        assert(out@ =~= formatted(minor as int, decimals as nat));
    }
    out
}

/// Render minor units with as many places as they need, and at least one.
pub fn display_minor(minor: i64) -> (r: String)
    ensures
        r@ == displayed(minor as int),
{
    let abs: u128 = if minor < 0 {
        -(minor as i128) as u128
    } else {
        minor as u128
    };
    let mut out = String::new();
    if minor < 0 {
        out.push('-');
    }
    assert(out@ =~= sign_text(minor as int));
    push_decimal(&mut out, abs / SCALE as u128);
    out.push('.');
    let ghost head = out@;
    let frac: u128 = abs % SCALE as u128;
    let mut rest: u128 = frac;
    let mut width: u32 = DECIMALS;
    while width > 0 && rest % 10 == 0
        invariant
            width <= 8,
            without_trailing_zeros(padded(rest as nat, width as nat)) == without_trailing_zeros(
                padded(frac as nat, 8),
            ),
        decreases width,
    {
        assert(padded(rest as nat, width as nat).drop_last() =~= padded(
            (rest / 10) as nat,
            (width - 1) as nat,
        ));
        rest = rest / 10;
        width -= 1;
    }
    if width == 0 {
        out.push('0');
        assert(out@ =~= head + shown_fraction(minor as int));
    } else {
        push_padded(&mut out, rest, width);
        assert(padded(rest as nat, width as nat).last() == digit_char((rest % 10) as int));
        assert(padded(rest as nat, width as nat).len() > 0);
        assert(out@ =~= head + shown_fraction(minor as int));
    }
    assert(out@ =~= displayed(minor as int));
    out
}

/// Padded notation has its width, and reads back as the number.
pub proof fn lemma_padded_digits(n: nat, width: nat)
    requires
        n < pow10(width),
    ensures
        padded(n, width).len() == width,
        all_digits(padded(n, width)),
        number(padded(n, width)) == n,
    decreases width,
{
    let s = padded(n, width);
    if width > 0 {
        lemma_padded_digits(n / 10, (width - 1) as nat);
        assert(s.drop_last() =~= padded(n / 10, (width - 1) as nat));
    }
}

proof fn lemma_kept_zeros(s: Seq<char>)
    requires
        all_digits(s),
    ensures
        without_trailing_zeros(s).len() <= s.len(),
        all_digits(without_trailing_zeros(s)),
        forall|i: int|
            0 <= i < without_trailing_zeros(s).len() ==> without_trailing_zeros(s)[i]
                == #[trigger] s[i],
        forall|i: int| without_trailing_zeros(s).len() <= i < s.len() ==> #[trigger] s[i] == '0',
    decreases s.len(),
{
    if s.len() > 0 && s.last() == '0' {
        let before = s.drop_last();
        lemma_kept_zeros(before);
        assert forall|i: int|
            0 <= i < without_trailing_zeros(s).len() implies without_trailing_zeros(s)[i]
            == #[trigger] s[i] by {
            assert(before[i] == s[i]);
        }
        assert forall|i: int| without_trailing_zeros(s).len() <= i < s.len() implies #[trigger] s[i]
            == '0' by {
            if i < before.len() {
                assert(before[i] == s[i]);
            }
        }
    }
}

/// Digits alone are read as the number they denote.
pub proof fn lemma_reads_digits(a: Seq<char>)
    requires
        all_digits(a),
        number(a) <= i128::MAX,
    ensures
        !a.contains('.'),
        whole(a) == number(a),
        fraction(a) == Seq::<char>::empty(),
        first_refusal(a) is None,
    decreases a.len(),
{
    assert(!a.contains('.')) by {
        if a.contains('.') {
            let j = choose|j: int| 0 <= j < a.len() && a[j] == '.';
            assert(digit(a[j]));
        }
    }
    if a.len() > 0 {
        assert(digit(a[a.len() - 1]));
        lemma_reads_digits(a.drop_last());
        assert(!a.drop_last().contains('.'));
    } else {
        assert(fraction(a) =~= Seq::<char>::empty());
    }
}

/// Digits, a point and digits are read as those two parts.
pub proof fn lemma_reads_decimal(a: Seq<char>, f: Seq<char>)
    requires
        all_digits(a),
        all_digits(f),
        number(a) <= i128::MAX,
    ensures
        (a + seq!['.'] + f).contains('.'),
        whole(a + seq!['.'] + f) == number(a),
        fraction(a + seq!['.'] + f) == f,
        first_refusal(a + seq!['.'] + f) is None,
    decreases f.len(),
{
    let s = a + seq!['.'] + f;
    assert(s[a.len() as int] == '.');
    if f.len() == 0 {
        lemma_reads_digits(a);
        assert(s.drop_last() =~= a);
        assert(s.last() == '.');
        assert(fraction(s) =~= f);
    } else {
        assert(all_digits(f.drop_last()));
        lemma_reads_decimal(a, f.drop_last());
        assert(s.drop_last() =~= a + seq!['.'] + f.drop_last());
        assert(s.last() == f[f.len() - 1]);
        assert(f.drop_last().push(f.last()) =~= f);
    }
}

pub proof fn lemma_nothing_to_trim(s: Seq<char>)
    requires
        s.len() > 0,
        s[0] == '-' || digit(s[0]),
        digit(s.last()),
    ensures
        trimmed(s) == s,
{
}

/// What is displayed reads back as the same value, for every value.
pub proof fn law_display_reads_back(minor: i64)
    ensures
        parsed(displayed(minor as int)) == Ok::<i64, ParseFixedError>(minor),
{
    let m = magnitude_of(minor as int);
    let units = m / 100_000_000;
    let frac = m % 100_000_000;
    let a = decimal(units);
    let f = shown_fraction(minor as int);
    let s = displayed(minor as int);
    reveal_with_fuel(pow10, 9);
    crate::text::lemma_decimal_number(units);
    lemma_padded_digits(frac, 8);
    lemma_kept_zeros(padded(frac, 8));
    assert(all_digits(f));
    assert(eight_places(f) =~= padded(frac, 8));
    lemma_reads_decimal(a, f);
    let body = a + seq!['.'] + f;
    assert(digit(a[0]));
    assert(digit(f[f.len() - 1]));
    assert(s =~= sign_text(minor as int) + body);
    if minor < 0 {
        assert(s.drop_first() =~= body);
    } else {
        assert(s =~= body);
    }
    lemma_nothing_to_trim(s);
}

/// A value written with all of its places reads back as the same value, for
/// every value.
pub proof fn law_full_format_reads_back(minor: i64)
    ensures
        parsed(formatted(minor as int, 8)) == Ok::<i64, ParseFixedError>(minor),
{
    let m = magnitude_of(minor as int);
    let units = m / 100_000_000;
    let frac = m % 100_000_000;
    let a = decimal(units);
    let f = padded(frac, 8);
    let s = formatted(minor as int, 8);
    reveal_with_fuel(pow10, 9);
    crate::text::lemma_decimal_number(units);
    lemma_padded_digits(frac, 8);
    assert(pow10(0) == 1);
    assert(frac / pow10(0) == frac) by (nonlinear_arith)
        requires
            pow10(0) == 1,
    ;
    assert(eight_places(f) =~= f);
    lemma_reads_decimal(a, f);
    let body = a + seq!['.'] + f;
    assert(digit(a[0]));
    assert(digit(f[f.len() - 1]));
    assert(s =~= sign_text(minor as int) + body);
    if minor < 0 {
        assert(s.drop_first() =~= body);
    } else {
        assert(s =~= body);
    }
    lemma_nothing_to_trim(s);
}

/// Whether a value fits in 64 bits of minor units.
pub open spec fn in_range(v: int) -> bool {
    i64::MIN <= v <= i64::MAX
}

/// The representable value closest to `v`.
pub open spec fn clamped(v: int) -> int {
    if v < i64::MIN {
        i64::MIN as int
    } else if v > i64::MAX {
        i64::MAX as int
    } else {
        v
    }
}

/// Division rounding toward zero.
pub open spec fn truncated_div(a: int, b: int) -> int {
    if (a >= 0) == (b > 0) {
        (magnitude_of(a) / magnitude_of(b)) as int
    } else {
        -((magnitude_of(a) / magnitude_of(b)) as int)
    }
}

/// Division by a positive number cuts off toward zero: the quotient is the last
/// whole number on the way from zero that does not go beyond.
pub proof fn law_division_cuts_off_toward_zero(a: int, b: int)
    requires
        b > 0,
    ensures
        a >= 0 ==> 0 <= truncated_div(a, b) * b <= a < (truncated_div(a, b) + 1) * b,
        a <= 0 ==> (truncated_div(a, b) - 1) * b < a <= truncated_div(a, b) * b <= 0,
{
    let m = magnitude_of(a) as int;
    vstd::arithmetic::div_mod::lemma_fundamental_div_mod(m, b);
    let q = m / b;
    assert(0 <= q * b <= m < (q + 1) * b) by (nonlinear_arith)
        requires
            m == b * q + m % b,
            0 <= m % b < b,
            m >= 0,
            b > 0,
    ;
    assert((-q) * b == -(q * b)) by (nonlinear_arith);
    assert((-q - 1) * b == -((q + 1) * b)) by (nonlinear_arith);
}

/// Clamping keeps what 64 bits hold and takes the nearest bound for the rest.
pub proof fn law_clamping_takes_the_nearest(v: int)
    ensures
        i64::MIN <= clamped(v) <= i64::MAX,
        i64::MIN <= v <= i64::MAX ==> clamped(v) == v,
        v > i64::MAX ==> clamped(v) == i64::MAX,
        v < i64::MIN ==> clamped(v) == i64::MIN,
{
}

/// The representable value closest to `v`.
pub fn clamp_wide(v: i128) -> (r: i64)
    ensures
        r == clamped(v as int),
{
    if v < i64::MIN as i128 {
        i64::MIN
    } else if v > i64::MAX as i128 {
        i64::MAX
    } else {
        v as i64
    }
}

/// A quotient is no larger than its dividend.
pub proof fn lemma_quotient_bound(a: int, b: int)
    requires
        b != 0,
    ensures
        magnitude_of(truncated_div(a, b)) <= magnitude_of(a),
{
    let x = magnitude_of(a);
    let y = magnitude_of(b);
    assert(0 <= x / y <= x) by (nonlinear_arith)
        requires
            x >= 0,
            y >= 1,
    ;
}

/// Division rounding toward zero.
pub fn quotient(a: i128, b: i128) -> (r: i128)
    requires
        b != 0,
        a != i128::MIN || b > 0,
    ensures
        r == truncated_div(a as int, b as int),
{
    proof {
        lemma_quotient_bound(a as int, b as int);
    }
    match a.checked_div(b) {
        Some(v) => v,
        None => 0,
    }
}

/// A price in fixed-point minor units (8 decimal places).
///
/// Ordering is exact, so prices are safe as keys and cluster-ladder indices.
#[derive(Debug, Clone, Copy, PartialEq, Eq, PartialOrd, Ord, Hash, Structural)]
pub struct Price(pub i64);

impl Price {
    /// Zero.
    pub fn zero() -> (r: Self)
        ensures
            r.0 == 0,
    {
        Price(0)
    }

    /// The smallest representable positive increment (1e-8).
    pub fn min_unit() -> (r: Self)
        ensures
            r.0 == 1,
    {
        Price(1)
    }

    /// Largest representable value.
    pub fn max_value() -> (r: Self)
        ensures
            r.0 == i64::MAX,
    {
        Price(i64::MAX)
    }

    /// Smallest representable value.
    pub fn min_value() -> (r: Self)
        ensures
            r.0 == i64::MIN,
    {
        Price(i64::MIN)
    }

    /// Build from whole units (`from_units(3)` is `3.0`).
    pub fn from_units(units: i64) -> (r: Self)
        requires
            i64::MIN <= units * SCALE <= i64::MAX,
        ensures
            r.0 == units * SCALE,
    {
        Price(units * SCALE)
    }

    /// Build directly from minor units.
    pub fn from_minor(minor: i64) -> (r: Self)
        ensures
            r.0 == minor,
    {
        Price(minor)
    }

    /// The underlying minor-unit count.
    pub fn minor(self) -> (r: i64)
        ensures
            r == self.0,
    {
        self.0
    }

    /// Parse a plain decimal string, as exchanges send them.
    pub fn parse(s: &str) -> (r: Result<Self, ParseFixedError>)
        ensures
            match r {
                Ok(v) => parsed(s@) == Ok::<i64, ParseFixedError>(v.0),
                Err(e) => parsed(s@) == Err::<i64, ParseFixedError>(e),
            },
    {
        match parse_minor(s) {
            Ok(minor) => Ok(Price(minor)),
            Err(e) => Err(e),
        }
    }

    /// Whether the value is exactly zero.
    pub fn is_zero(self) -> (r: bool)
        ensures
            r == (self.0 == 0),
    {
        self.0 == 0
    }

    /// Whether the value is greater than zero.
    pub fn is_positive(self) -> (r: bool)
        ensures
            r == (self.0 > 0),
    {
        self.0 > 0
    }

    /// Whether the value is less than zero.
    pub fn is_negative(self) -> (r: bool)
        ensures
            r == (self.0 < 0),
    {
        self.0 < 0
    }

    /// Absolute value.
    pub fn abs(self) -> (r: Self)
        requires
            self.0 != i64::MIN,
        ensures
            r.0 == magnitude_of(self.0 as int),
    {
        if self.0 < 0 {
            Price(-self.0)
        } else {
            self
        }
    }

    /// The smaller of the two values.
    pub fn min(self, other: Self) -> (r: Self)
        ensures
            r == if other.0 < self.0 {
                other
            } else {
                self
            },
            r.0 <= self.0 && r.0 <= other.0,
    {
        if other.0 < self.0 {
            other
        } else {
            self
        }
    }

    /// The larger of the two values.
    pub fn max(self, other: Self) -> (r: Self)
        ensures
            r == if other.0 > self.0 {
                other
            } else {
                self
            },
            r.0 >= self.0 && r.0 >= other.0,
    {
        if other.0 > self.0 {
            other
        } else {
            self
        }
    }

    /// Saturating add, for paths where a panic is worse than a clamped total.
    pub fn saturating_add(self, other: Self) -> (r: Self)
        ensures
            r.0 == clamped(self.0 + other.0),
    {
        Price(clamp_wide(self.0 as i128 + other.0 as i128))
    }

    /// Addition returning `None` on overflow.
    pub fn checked_add(self, other: Self) -> (r: Option<Self>)
        ensures
            r == if in_range(self.0 + other.0) {
                Some(Price((self.0 + other.0) as i64))
            } else {
                None
            },
            r matches Some(v) ==> v.0 - other.0 == self.0,
    {
        match self.0.checked_add(other.0) {
            Some(v) => Some(Price(v)),
            None => None,
        }
    }

    /// Subtraction returning `None` on overflow.
    pub fn checked_sub(self, other: Self) -> (r: Option<Self>)
        ensures
            r == if in_range(self.0 - other.0) {
                Some(Price((self.0 - other.0) as i64))
            } else {
                None
            },
            r matches Some(v) ==> v.0 + other.0 == self.0,
    {
        match self.0.checked_sub(other.0) {
            Some(v) => Some(Price(v)),
            None => None,
        }
    }

    /// Format with an explicit number of decimal places, eight at most.
    pub fn format(self, decimals: u32) -> (r: String)
        ensures
            r@ == formatted(
                self.0 as int,
                if decimals < DECIMALS {
                    decimals as nat
                } else {
                    DECIMALS as nat
                },
            ),
    {
        format_minor(
            self.0,
            if decimals < DECIMALS {
                decimals
            } else {
                DECIMALS
            },
        )
    }

    /// The plain decimal notation: trailing zeros of the fraction are dropped,
    /// and one decimal place is always kept.
    pub fn to_string(&self) -> (r: String)
        ensures
            r@ == displayed(self.0 as int),
    {
        display_minor(self.0)
    }
}

impl Default for Price {
    fn default() -> (r: Self)
        ensures
            r.0 == 0,
    {
        Price(0)
    }
}

impl std::str::FromStr for Price {
    type Err = ParseFixedError;

    fn from_str(s: &str) -> (r: Result<Self, ParseFixedError>)
        ensures
            match r {
                Ok(v) => parsed(s@) == Ok::<i64, ParseFixedError>(v.0),
                Err(e) => parsed(s@) == Err::<i64, ParseFixedError>(e),
            },
    {
        Price::parse(s)
    }
}

impl std::ops::Add for Price {
    type Output = Price;

    fn add(self, rhs: Price) -> Price {
        Price(self.0 + rhs.0)
    }
}

impl vstd::std_specs::ops::AddSpecImpl for Price {
    open spec fn obeys_add_spec() -> bool {
        true
    }

    open spec fn add_req(self, rhs: Price) -> bool {
        in_range(self.0 + rhs.0)
    }

    open spec fn add_spec(self, rhs: Price) -> Price {
        Price((self.0 + rhs.0) as i64)
    }
}

impl std::ops::Sub for Price {
    type Output = Price;

    fn sub(self, rhs: Price) -> Price {
        Price(self.0 - rhs.0)
    }
}

impl vstd::std_specs::ops::SubSpecImpl for Price {
    open spec fn obeys_sub_spec() -> bool {
        true
    }

    open spec fn sub_req(self, rhs: Price) -> bool {
        in_range(self.0 - rhs.0)
    }

    open spec fn sub_spec(self, rhs: Price) -> Price {
        Price((self.0 - rhs.0) as i64)
    }
}

impl std::ops::Neg for Price {
    type Output = Price;

    fn neg(self) -> Price {
        Price(-self.0)
    }
}

impl vstd::std_specs::ops::NegSpecImpl for Price {
    open spec fn obeys_neg_spec() -> bool {
        true
    }

    open spec fn neg_req(self) -> bool {
        self.0 != i64::MIN
    }

    open spec fn neg_spec(self) -> Price {
        Price((-self.0) as i64)
    }
}

impl std::ops::Mul<i64> for Price {
    type Output = Price;

    fn mul(self, rhs: i64) -> Price {
        Price(self.0 * rhs)
    }
}

impl vstd::std_specs::ops::MulSpecImpl<i64> for Price {
    open spec fn obeys_mul_spec() -> bool {
        true
    }

    open spec fn mul_req(self, rhs: i64) -> bool {
        in_range(self.0 * rhs)
    }

    open spec fn mul_spec(self, rhs: i64) -> Price {
        Price((self.0 * rhs) as i64)
    }
}

impl std::ops::Div<i64> for Price {
    type Output = Price;

    fn div(self, rhs: i64) -> Price {
        Price(quotient(self.0 as i128, rhs as i128) as i64)
    }
}

impl vstd::std_specs::ops::DivSpecImpl<i64> for Price {
    open spec fn obeys_div_spec() -> bool {
        true
    }

    open spec fn div_req(self, rhs: i64) -> bool {
        rhs != 0 && in_range(truncated_div(self.0 as int, rhs as int))
    }

    open spec fn div_spec(self, rhs: i64) -> Price {
        Price(truncated_div(self.0 as int, rhs as int) as i64)
    }
}

/// A quantity (contracts, coins, shares) in fixed-point minor units (8 decimal
/// places).
#[derive(Debug, Clone, Copy, PartialEq, Eq, PartialOrd, Ord, Hash, Structural)]
pub struct Qty(pub i64);

impl Qty {
    /// Zero.
    pub fn zero() -> (r: Self)
        ensures
            r.0 == 0,
    {
        Qty(0)
    }

    /// The smallest representable positive increment (1e-8).
    pub fn min_unit() -> (r: Self)
        ensures
            r.0 == 1,
    {
        Qty(1)
    }

    /// Largest representable value.
    pub fn max_value() -> (r: Self)
        ensures
            r.0 == i64::MAX,
    {
        Qty(i64::MAX)
    }

    /// Smallest representable value.
    pub fn min_value() -> (r: Self)
        ensures
            r.0 == i64::MIN,
    {
        Qty(i64::MIN)
    }

    /// Build from whole units (`from_units(3)` is `3.0`).
    pub fn from_units(units: i64) -> (r: Self)
        requires
            i64::MIN <= units * SCALE <= i64::MAX,
        ensures
            r.0 == units * SCALE,
    {
        Qty(units * SCALE)
    }

    /// Build directly from minor units.
    pub fn from_minor(minor: i64) -> (r: Self)
        ensures
            r.0 == minor,
    {
        Qty(minor)
    }

    /// The underlying minor-unit count.
    pub fn minor(self) -> (r: i64)
        ensures
            r == self.0,
    {
        self.0
    }

    /// Parse a plain decimal string, as exchanges send them.
    pub fn parse(s: &str) -> (r: Result<Self, ParseFixedError>)
        ensures
            match r {
                Ok(v) => parsed(s@) == Ok::<i64, ParseFixedError>(v.0),
                Err(e) => parsed(s@) == Err::<i64, ParseFixedError>(e),
            },
    {
        match parse_minor(s) {
            Ok(minor) => Ok(Qty(minor)),
            Err(e) => Err(e),
        }
    }

    /// Whether the value is exactly zero.
    pub fn is_zero(self) -> (r: bool)
        ensures
            r == (self.0 == 0),
    {
        self.0 == 0
    }

    /// Whether the value is greater than zero.
    pub fn is_positive(self) -> (r: bool)
        ensures
            r == (self.0 > 0),
    {
        self.0 > 0
    }

    /// Whether the value is less than zero.
    pub fn is_negative(self) -> (r: bool)
        ensures
            r == (self.0 < 0),
    {
        self.0 < 0
    }

    /// Absolute value.
    pub fn abs(self) -> (r: Self)
        requires
            self.0 != i64::MIN,
        ensures
            r.0 == magnitude_of(self.0 as int),
    {
        if self.0 < 0 {
            Qty(-self.0)
        } else {
            self
        }
    }

    /// The smaller of the two values.
    pub fn min(self, other: Self) -> (r: Self)
        ensures
            r == if other.0 < self.0 {
                other
            } else {
                self
            },
            r.0 <= self.0 && r.0 <= other.0,
    {
        if other.0 < self.0 {
            other
        } else {
            self
        }
    }

    /// The larger of the two values.
    pub fn max(self, other: Self) -> (r: Self)
        ensures
            r == if other.0 > self.0 {
                other
            } else {
                self
            },
            r.0 >= self.0 && r.0 >= other.0,
    {
        if other.0 > self.0 {
            other
        } else {
            self
        }
    }

    /// Saturating add, for paths where a panic is worse than a clamped total.
    pub fn saturating_add(self, other: Self) -> (r: Self)
        ensures
            r.0 == clamped(self.0 + other.0),
    {
        Qty(clamp_wide(self.0 as i128 + other.0 as i128))
    }

    /// Addition returning `None` on overflow.
    pub fn checked_add(self, other: Self) -> (r: Option<Self>)
        ensures
            r == if in_range(self.0 + other.0) {
                Some(Qty((self.0 + other.0) as i64))
            } else {
                None
            },
            r matches Some(v) ==> v.0 - other.0 == self.0,
    {
        match self.0.checked_add(other.0) {
            Some(v) => Some(Qty(v)),
            None => None,
        }
    }

    /// Subtraction returning `None` on overflow.
    pub fn checked_sub(self, other: Self) -> (r: Option<Self>)
        ensures
            r == if in_range(self.0 - other.0) {
                Some(Qty((self.0 - other.0) as i64))
            } else {
                None
            },
            r matches Some(v) ==> v.0 + other.0 == self.0,
    {
        match self.0.checked_sub(other.0) {
            Some(v) => Some(Qty(v)),
            None => None,
        }
    }

    /// Format with an explicit number of decimal places, eight at most.
    pub fn format(self, decimals: u32) -> (r: String)
        ensures
            r@ == formatted(
                self.0 as int,
                if decimals < DECIMALS {
                    decimals as nat
                } else {
                    DECIMALS as nat
                },
            ),
    {
        format_minor(
            self.0,
            if decimals < DECIMALS {
                decimals
            } else {
                DECIMALS
            },
        )
    }

    /// The plain decimal notation: trailing zeros of the fraction are dropped,
    /// and one decimal place is always kept.
    pub fn to_string(&self) -> (r: String)
        ensures
            r@ == displayed(self.0 as int),
    {
        display_minor(self.0)
    }
}

impl Default for Qty {
    fn default() -> (r: Self)
        ensures
            r.0 == 0,
    {
        Qty(0)
    }
}

impl std::str::FromStr for Qty {
    type Err = ParseFixedError;

    fn from_str(s: &str) -> (r: Result<Self, ParseFixedError>)
        ensures
            match r {
                Ok(v) => parsed(s@) == Ok::<i64, ParseFixedError>(v.0),
                Err(e) => parsed(s@) == Err::<i64, ParseFixedError>(e),
            },
    {
        Qty::parse(s)
    }
}

impl std::ops::Add for Qty {
    type Output = Qty;

    fn add(self, rhs: Qty) -> Qty {
        Qty(self.0 + rhs.0)
    }
}

impl vstd::std_specs::ops::AddSpecImpl for Qty {
    open spec fn obeys_add_spec() -> bool {
        true
    }

    open spec fn add_req(self, rhs: Qty) -> bool {
        in_range(self.0 + rhs.0)
    }

    open spec fn add_spec(self, rhs: Qty) -> Qty {
        Qty((self.0 + rhs.0) as i64)
    }
}

impl std::ops::Sub for Qty {
    type Output = Qty;

    fn sub(self, rhs: Qty) -> Qty {
        Qty(self.0 - rhs.0)
    }
}

impl vstd::std_specs::ops::SubSpecImpl for Qty {
    open spec fn obeys_sub_spec() -> bool {
        true
    }

    open spec fn sub_req(self, rhs: Qty) -> bool {
        in_range(self.0 - rhs.0)
    }

    open spec fn sub_spec(self, rhs: Qty) -> Qty {
        Qty((self.0 - rhs.0) as i64)
    }
}

impl std::ops::Neg for Qty {
    type Output = Qty;

    fn neg(self) -> Qty {
        Qty(-self.0)
    }
}

impl vstd::std_specs::ops::NegSpecImpl for Qty {
    open spec fn obeys_neg_spec() -> bool {
        true
    }

    open spec fn neg_req(self) -> bool {
        self.0 != i64::MIN
    }

    open spec fn neg_spec(self) -> Qty {
        Qty((-self.0) as i64)
    }
}

impl std::ops::Mul<i64> for Qty {
    type Output = Qty;

    fn mul(self, rhs: i64) -> Qty {
        Qty(self.0 * rhs)
    }
}

impl vstd::std_specs::ops::MulSpecImpl<i64> for Qty {
    open spec fn obeys_mul_spec() -> bool {
        true
    }

    open spec fn mul_req(self, rhs: i64) -> bool {
        in_range(self.0 * rhs)
    }

    open spec fn mul_spec(self, rhs: i64) -> Qty {
        Qty((self.0 * rhs) as i64)
    }
}

impl std::ops::Div<i64> for Qty {
    type Output = Qty;

    fn div(self, rhs: i64) -> Qty {
        Qty(quotient(self.0 as i128, rhs as i128) as i64)
    }
}

impl vstd::std_specs::ops::DivSpecImpl<i64> for Qty {
    open spec fn obeys_div_spec() -> bool {
        true
    }

    open spec fn div_req(self, rhs: i64) -> bool {
        rhs != 0 && in_range(truncated_div(self.0 as int, rhs as int))
    }

    open spec fn div_spec(self, rhs: i64) -> Qty {
        Qty(truncated_div(self.0 as int, rhs as int) as i64)
    }
}

/// Rounding direction when snapping a price to a tick boundary.
#[derive(Debug, Clone, Copy, PartialEq, Eq, Structural)]
pub enum Rounding {
    /// Toward negative infinity.
    Down,
    /// Toward positive infinity.
    Up,
    /// To the closest boundary, ties going up.
    Nearest,
}

/// The multiple of `tick` that `minor` snaps to.
pub open spec fn snapped(minor: int, tick: int, mode: Rounding) -> int {
    let below = minor - minor % tick;
    match mode {
        Rounding::Down => below,
        Rounding::Up => if below == minor {
            below
        } else {
            below + tick
        },
        Rounding::Nearest => if (minor % tick) * 2 >= tick {
            below + tick
        } else {
            below
        },
    }
}

/// The row of `minor` on a tick ladder anchored at zero.
pub open spec fn tick_row(minor: int, tick: int) -> int {
    minor / tick
}

/// The value of `qty` at `price`, in minor units.
pub open spec fn notional_of(price: int, qty: int) -> int {
    clamped(truncated_div(price * qty, SCALE as int))
}

impl Price {
    /// Snap this price to a multiple of `tick`.
    pub fn round_to_tick(self, tick: Price, mode: Rounding) -> (r: Price)
        requires
            tick.0 > 0,
            in_range(snapped(self.0 as int, tick.0 as int, mode)),
        ensures
            r.0 == snapped(self.0 as int, tick.0 as int, mode),
    {
        let p: i128 = self.0 as i128;
        let t: i128 = tick.0 as i128;
        // Euclidean remainder so negative prices round consistently.
        let rem: i128 = match p.checked_rem_euclid(t) {
            Some(v) => v,
            None => 0,
        };
        let below: i128 = p - rem;
        let snap: i128 = match mode {
            Rounding::Down => below,
            Rounding::Up => if rem == 0 {
                below
            } else {
                below + t
            },
            Rounding::Nearest => if rem * 2 >= t {
                below + t
            } else {
                below
            },
        };
        Price(snap as i64)
    }

    /// Index of this price on a tick ladder anchored at zero.
    ///
    /// This is the cluster-ladder row key: two trades at the same tick always
    /// produce the same index.
    pub fn tick_index(self, tick: Price) -> (r: i64)
        requires
            tick.0 > 0,
        ensures
            r == tick_row(self.0 as int, tick.0 as int),
    {
        proof {
            lemma_row_bound(self.0 as int, tick.0 as int);
        }
        match self.0.checked_div_euclid(tick.0) {
            Some(v) => v,
            None => 0,
        }
    }

    /// Inverse of [`Price::tick_index`].
    pub fn from_tick_index(index: i64, tick: Price) -> (r: Price)
        requires
            in_range(index * tick.0),
        ensures
            r.0 == index * tick.0,
    {
        Price(index * tick.0)
    }

    /// Notional value of `qty` at this price, as a [`Qty`]-scaled amount.
    ///
    /// Computed through `i128` so a large size at a large price cannot wrap.
    pub fn notional(self, qty: Qty) -> (r: Qty)
        ensures
            r.0 == notional_of(self.0 as int, qty.0 as int),
    {
        proof {
            lemma_product_fits(self.0, qty.0);
        }
        let product: i128 = (self.0 as i128) * (qty.0 as i128);
        Qty(clamp_wide(quotient(product, SCALE as i128)))
    }
}

/// The product of two 64-bit values fits in 128 bits with a bit to spare.
pub proof fn lemma_product_fits(a: i64, b: i64)
    ensures
        -0x4000_0000_0000_0000_0000_0000_0000_0000 <= a * b
            <= 0x4000_0000_0000_0000_0000_0000_0000_0000,
{
    let x = a as int;
    let y = b as int;
    let m: int = 0x8000_0000_0000_0000;
    assert(-(m * m) <= x * y <= m * m) by (nonlinear_arith)
        requires
            -m <= x <= m,
            -m <= y <= m,
            m == 0x8000_0000_0000_0000,
    ;
}

proof fn lemma_row_bound(minor: int, tick: int)
    requires
        tick > 0,
        in_range(minor),
    ensures
        in_range(tick_row(minor, tick)),
{
    vstd::arithmetic::div_mod::lemma_fundamental_div_mod(minor, tick);
    let q = minor / tick;
    let r = minor % tick;
    assert(in_range(q)) by (nonlinear_arith)
        requires
            minor == tick * q + r,
            0 <= r < tick,
            tick > 0,
            i64::MIN <= minor <= i64::MAX,
    ;
}

/// A price lies on its row: at or above the row's own price, below the next.
pub proof fn law_row_holds_its_price(minor: int, tick: int)
    requires
        tick > 0,
    ensures
        tick_row(minor, tick) * tick <= minor < (tick_row(minor, tick) + 1) * tick,
{
    vstd::arithmetic::div_mod::lemma_fundamental_div_mod(minor, tick);
    let q = minor / tick;
    let r = minor % tick;
    assert(q * tick <= minor < (q + 1) * tick) by (nonlinear_arith)
        requires
            minor == tick * q + r,
            0 <= r < tick,
    ;
}

/// The row of a row's own price is that row.
pub proof fn law_tick_index_inverts_from_tick_index(index: int, tick: int)
    requires
        tick > 0,
    ensures
        tick_row(index * tick, tick) == index,
{
    vstd::arithmetic::div_mod::lemma_div_multiples_vanish(index, tick);
    assert(index * tick == tick * index) by (nonlinear_arith);
}

/// A price on a tick boundary is the price of its own row.
pub proof fn law_from_tick_index_inverts_tick_index(minor: int, tick: int)
    requires
        tick > 0,
        minor % tick == 0,
    ensures
        tick_row(minor, tick) * tick == minor,
{
    vstd::arithmetic::div_mod::lemma_fundamental_div_mod(minor, tick);
    assert(tick * (minor / tick) == (minor / tick) * tick) by (nonlinear_arith);
}

/// Prices one tick apart are one row apart.
pub proof fn law_adjacent_ticks_differ_by_one_row(minor: int, tick: int)
    requires
        tick > 0,
    ensures
        tick_row(minor + tick, tick) == tick_row(minor, tick) + 1,
{
    vstd::arithmetic::div_mod::lemma_div_plus_one(minor, tick);
}

/// A price on a tick boundary snaps to itself in every mode.
pub proof fn law_boundaries_stay_put(minor: int, tick: int, mode: Rounding)
    requires
        tick > 0,
        minor % tick == 0,
    ensures
        snapped(minor, tick, mode) == minor,
{
}

/// Snapping lands on a multiple of the tick, on the asked side and less than a
/// tick away; to the nearest, at most half a tick away.
pub proof fn law_snapping_lands_on_a_boundary(minor: int, tick: int, mode: Rounding)
    requires
        tick > 0,
    ensures
        snapped(minor, tick, mode) % tick == 0,
        mode is Down ==> minor - tick < snapped(minor, tick, mode) <= minor,
        mode is Up ==> minor <= snapped(minor, tick, mode) < minor + tick,
        mode is Nearest ==> -tick < 2 * (snapped(minor, tick, mode) - minor) <= tick,
{
    vstd::arithmetic::div_mod::lemma_fundamental_div_mod(minor, tick);
    let q = minor / tick;
    let below = minor - minor % tick;
    assert(below == tick * q);
    assert(tick * q == q * tick) by (nonlinear_arith);
    assert(below + tick == (q + 1) * tick) by (nonlinear_arith)
        requires
            below == q * tick,
    ;
    vstd::arithmetic::div_mod::lemma_mod_multiples_basic(q, tick);
    vstd::arithmetic::div_mod::lemma_mod_multiples_basic(q + 1, tick);
}

} // verus!
