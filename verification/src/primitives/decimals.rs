//! What decimal notation says of a value, in whole numbers and powers of ten.

use crate::primitives::fixed::{ParseFixedError, Price, Qty};
use crate::primitives::time::Ts;
use vstd::prelude::*;

verus! {

use crate::primitives::fixed::{
    first_refusal, formatted, law_division_cuts_off_toward_zero, lemma_eight_places, lemma_nothing_to_trim, lemma_padded_digits,
    lemma_reads_decimal, lemma_reads_digits, lemma_refusal_is_kept, magnitude, parsed, pow10,
    truncated_div,
};
use crate::primitives::time::timestamp_text;
use crate::trading::pnl::is_whole_part;
use vstd::std_specs::ops::{AddSpec, DivSpec, MulSpec, NegSpec, SubSpec};
use crate::text::{
    all_digits, decimal, digit, number, padded, signed_text, trim_end, trim_start, trimmed,
    unsigned_text, white,
};

/// One followed by so many zeros.
pub open spec fn ten_to(k: nat) -> int
    decreases k,
{
    if k == 0 {
        1
    } else {
        10 * ten_to((k - 1) as nat)
    }
}

/// What digits say when each is worth ten times the one behind it.
pub open spec fn worth(s: Seq<char>) -> int
    decreases s.len(),
{
    if s.len() == 0 {
        0
    } else {
        10 * worth(s.drop_last()) + (s.last() as int - '0' as int)
    }
}

proof fn lemma_ten(k: nat)
    ensures
        pow10(k) == ten_to(k),
        ten_to(k) > 0,
    decreases k,
{
    if k > 0 {
        lemma_ten((k - 1) as nat);
    }
}

proof fn lemma_worth(s: Seq<char>)
    requires
        all_digits(s),
    ensures
        number(s) == worth(s),
        worth(s) >= 0,
    decreases s.len(),
{
    if s.len() > 0 {
        let less = s.drop_last();
        assert(digit(s[s.len() - 1]));
        assert forall|i: int| 0 <= i < less.len() implies digit(#[trigger] less[i]) by {
            assert(digit(s[i]));
        }
        lemma_worth(less);
    }
}

proof fn lemma_worth_of_two(a: Seq<char>, b: Seq<char>)
    ensures
        worth(a + b) == worth(a) * ten_to(b.len()) + worth(b),
    decreases b.len(),
{
    if b.len() == 0 {
        assert(a + b =~= a);
        assert(worth(a) * 1 == worth(a));
    } else {
        lemma_worth_of_two(a, b.drop_last());
        assert((a + b).drop_last() =~= a + b.drop_last());
        let (x, p) = (worth(a), ten_to((b.len() - 1) as nat));
        assert(10 * (x * p) == x * (10 * p)) by (nonlinear_arith);
    }
}

proof fn lemma_worth_bound(s: Seq<char>)
    requires
        all_digits(s),
    ensures
        0 <= worth(s) < ten_to(s.len()),
        s.len() > 0 ==> (s[0] as int - '0' as int) * ten_to((s.len() - 1) as nat) <= worth(s) < (
        s[0] as int - '0' as int + 1) * ten_to((s.len() - 1) as nat),
    decreases s.len(),
{
    if s.len() > 0 {
        let less = s.drop_last();
        assert(digit(s[s.len() - 1]));
        assert forall|i: int| 0 <= i < less.len() implies digit(#[trigger] less[i]) by {
            assert(digit(s[i]));
        }
        lemma_worth_bound(less);
        if s.len() > 1 {
            assert(less[0] == s[0]);
            let d = s[0] as int - '0' as int;
            let p = ten_to((s.len() - 2) as nat);
            assert(ten_to((s.len() - 1) as nat) == 10 * p);
            assert(d * (10 * p) == 10 * (d * p)) by (nonlinear_arith);
            assert((d + 1) * (10 * p) == 10 * ((d + 1) * p)) by (nonlinear_arith);
        } else {
            assert(worth(less) == 0);
            let d = s[0] as int - '0' as int;
            assert(ten_to(0) == 1);
            assert(d * 1 == d && (d + 1) * 1 == d + 1);
        }
    }
}

/// Whether `m` is `n` over a power of ten, in hundred-millionths, rounded to the
/// nearest; up where it is half way.
pub open spec fn is_rounded(m: int, n: int, k: nat) -> bool {
    -ten_to(k) < 2 * (m * ten_to(k) - n * 100_000_000) <= ten_to(k)
}

proof fn lemma_magnitude(a: Seq<char>, f: Seq<char>)
    requires
        all_digits(a),
        all_digits(f),
        number(a) <= i128::MAX,
    ensures
        is_rounded(magnitude(a + seq!['.'] + f), worth(a + f), f.len()),
        magnitude(a + seq!['.'] + f) >= 0,
{
    let s = a + seq!['.'] + f;
    let k = f.len();
    lemma_reads_decimal(a, f);
    lemma_worth(a);
    lemma_worth_of_two(a, f);
    lemma_worth_bound(f);
    lemma_ten(k);
    let x = worth(a);
    let p = ten_to(k);
    let n = worth(a + f);
    assert(n == x * p + worth(f));
    let head = f.take(if k < 8 {
        k as int
    } else {
        8
    });
    assert(all_digits(head));
    lemma_worth(head);
    if k <= 8 {
        let rest = (8 - k) as nat;
        assert(head =~= f);
        lemma_eight_places(f, head, rest);
        lemma_ten(rest);
        lemma_ten_product(k, rest);
        let m = magnitude(s);
        let q = ten_to(rest);
        let w = worth(f);
        assert(m == x * 100_000_000 + w * q);
        assert(m * p == n * 100_000_000) by (nonlinear_arith)
            requires
                m == x * 100_000_000 + w * q,
                n == x * p + w,
                q * p == 100_000_000,
        ;
        assert(m >= 0) by (nonlinear_arith)
            requires
                m == x * 100_000_000 + w * q,
                x >= 0,
                w >= 0,
                q > 0,
        ;
    } else {
        let tail = f.skip(8);
        let long = (k - 8) as nat;
        assert(f =~= head + tail);
        assert(all_digits(tail));
        lemma_worth_of_two(head, tail);
        lemma_worth_bound(tail);
        lemma_eight_places(f, head, 0);
        lemma_ten(0);
        lemma_ten(long);
        lemma_ten_product(8, long);
        let h = worth(head);
        let t = worth(tail);
        let q = ten_to(long);
        let d = tail[0] as int - '0' as int;
        assert(tail[0] == f[8]);
        let up = if d >= 5 {
            1int
        } else {
            0
        };
        let m = magnitude(s);
        assert(number(head) * pow10(0) == h) by (nonlinear_arith)
            requires
                pow10(0) == 1,
                number(head) == h,
        ;
        assert(m == x * 100_000_000 + h + up);
        assert(m * p - n * 100_000_000 == 100_000_000 * (up * q - t)) by (nonlinear_arith)
            requires
                m == x * 100_000_000 + h + up,
                n == x * p + (h * q + t),
                p == 100_000_000 * q,
        ;
        let r = ten_to((long - 1) as nat);
        assert(q == 10 * r);
        if d >= 5 {
            assert(5 * r <= t) by (nonlinear_arith)
                requires
                    d * r <= t,
                    d >= 5,
                    r > 0,
            ;
        } else {
            assert(t < 5 * r) by (nonlinear_arith)
                requires
                    t < (d + 1) * r,
                    d + 1 <= 5,
                    r > 0,
            ;
        }
        lemma_ten((long - 1) as nat);
        assert(up * q == if up == 1 {
            q
        } else {
            0
        }) by (nonlinear_arith)
            requires
                up == 0 || up == 1,
        ;
        assert(-p < 2 * (100_000_000 * (up * q - t)) <= p);
    }
}

proof fn lemma_ten_product(a: nat, b: nat)
    ensures
        ten_to(a) * ten_to(b) == ten_to(a + b),
        ten_to(8) == 100_000_000,
    decreases a,
{
    reveal_with_fuel(ten_to, 9);
    if a > 0 {
        lemma_ten_product((a - 1) as nat, b);
        let (x, y) = (ten_to((a - 1) as nat), ten_to(b));
        assert((10 * x) * y == 10 * (x * y)) by (nonlinear_arith);
    } else {
        assert(1 * ten_to(b) == ten_to(b));
    }
}

/// Digits with a point among them say that many whole units and parts of a unit,
/// to the nearest hundred-millionth, half away from zero; a minus in front makes
/// the value negative. A value that 64 bits do not hold is refused as such.
pub proof fn law_decimals_say_their_value(a: Seq<char>, f: Seq<char>, negative: bool, m: int)
    requires
        all_digits(a),
        all_digits(f),
        a.len() > 0,
        f.len() > 0,
        worth(a) <= i128::MAX,
        is_rounded(m, worth(a + f), f.len()),
    ensures
        ({
            let plain = a + seq!['.'] + f;
            let text = if negative {
                seq!['-'] + plain
            } else {
                plain
            };
            let value = if negative {
                -m
            } else {
                m
            };
            parsed(text) == if i64::MIN <= value <= i64::MAX {
                Ok::<i64, ParseFixedError>(value as i64)
            } else {
                Err(ParseFixedError::OutOfRange)
            }
        }),
{
    let plain = a + seq!['.'] + f;
    let text = if negative {
        seq!['-'] + plain
    } else {
        plain
    };
    lemma_worth(a);
    lemma_magnitude(a, f);
    lemma_reads_decimal(a, f);
    let p = ten_to(f.len());
    let n = worth(a + f);
    let c = magnitude(plain);
    lemma_ten(f.len());
    assert(c == m) by (nonlinear_arith)
        requires
            p > 0,
            -p < 2 * (m * p - n * 100_000_000) <= p,
            -p < 2 * (c * p - n * 100_000_000) <= p,
    ;
    assert(digit(a[0]));
    assert(digit(f[f.len() - 1]));
    assert(plain[0] == a[0]);
    assert(text.last() == f[f.len() - 1]);
    if negative {
        assert(text.drop_first() =~= plain);
        assert(text[0] == '-');
    }
    lemma_nothing_to_trim(text);
}

/// Whether a value is another without what lies beyond a step, toward zero.
pub open spec fn is_cut(value: int, from: int, step: int) -> bool {
    &&& value % step == 0
    &&& from >= 0 ==> value <= from < value + step
    &&& from <= 0 ==> value - step < from <= value
}

/// A value written with fewer places than it has reads back as the value cut off
/// behind the last of them, toward zero.
pub proof fn law_formatting_cuts_off(minor: i64, places: nat, value: int)
    requires
        0 < places <= 8,
        is_cut(value, minor as int, ten_to((8 - places) as nat)),
    ensures
        parsed(formatted(minor as int, places)) == Ok::<i64, ParseFixedError>(value as i64),
        i64::MIN <= value <= i64::MAX,
{
    let size = crate::primitives::fixed::magnitude_of(minor as int);
    let units = size / 100_000_000;
    let frac = size % 100_000_000;
    let rest = (8 - places) as nat;
    let step = ten_to(rest);
    lemma_ten(rest);
    lemma_ten(places);
    lemma_ten_product(places, rest);
    let q = frac / pow10(rest);
    assert(q < pow10(places)) by (nonlinear_arith)
        requires
            q == frac / pow10(rest),
            frac < 100_000_000,
            pow10(rest) * pow10(places) == 100_000_000,
            pow10(rest) > 0,
            pow10(places) > 0,
    ;
    let a = decimal(units);
    let f = padded(q, places);
    let s = formatted(minor as int, places);
    crate::text::lemma_decimal_number(units);
    lemma_padded_digits(q, places);
    lemma_reads_decimal(a, f);
    let head = f.take(if f.len() < 8 {
        f.len() as int
    } else {
        8
    });
    assert(head =~= f);
    lemma_eight_places(f, head, rest);
    let body = a + seq!['.'] + f;
    assert(digit(a[0]));
    assert(digit(f[f.len() - 1]));
    let sign = crate::primitives::fixed::sign_text(minor as int);
    assert(s =~= sign + body);
    if minor < 0 {
        assert(s.drop_first() =~= body);
    } else {
        assert(s =~= body);
    }
    lemma_nothing_to_trim(s);
    let m = magnitude(body);
    assert(frac - step < q * step <= frac) by (nonlinear_arith)
        requires
            q == frac / (step as nat),
            step > 0,
            frac >= 0,
    ;
    assert(number(f) == q);
    assert(m == units * 100_000_000 + q * step);
    lemma_cut(minor as int, value, units as int, q as int, step, ten_to(places));
}

proof fn lemma_cut(minor: int, value: int, units: int, q: int, step: int, t: int)
    requires
        step > 0,
        t * step == 100_000_000,
        is_cut(value, minor, step),
        ({
            let size = if minor < 0 {
                -minor
            } else {
                minor
            };
            size - step < units * 100_000_000 + q * step <= size
        }),
    ensures
        value == if minor < 0 {
            -(units * 100_000_000 + q * step)
        } else {
            units * 100_000_000 + q * step
        },
        minor >= 0 ==> 0 <= value <= minor,
        minor < 0 ==> minor <= value <= 0,
{
    let m = units * 100_000_000 + q * step;
    let y = units * t + q;
    assert(m == y * step) by (nonlinear_arith)
        requires
            m == units * 100_000_000 + q * step,
            t * step == 100_000_000,
            y == units * t + q,
    ;
    vstd::arithmetic::div_mod::lemma_fundamental_div_mod(value, step);
    let x = value / step;
    assert(value == x * step) by (nonlinear_arith)
        requires
            value == step * x + 0,
    ;
    if minor >= 0 {
        assert(x == y) by (nonlinear_arith)
            requires
                x * step <= minor < x * step + step,
                y * step <= minor < y * step + step,
                step > 0,
        ;
        assert(x >= 0) by (nonlinear_arith)
            requires
                0 <= minor < x * step + step,
                step > 0,
        ;
        assert(x * step >= 0) by (nonlinear_arith)
            requires
                x >= 0,
                step > 0,
        ;
    } else {
        let z = -x;
        assert(x * step == -(z * step)) by (nonlinear_arith)
            requires
                z == -x,
        ;
        assert(z == y) by (nonlinear_arith)
            requires
                z * step <= -minor < z * step + step,
                y * step <= -minor < y * step + step,
                step > 0,
        ;
        assert(z >= 0) by (nonlinear_arith)
            requires
                0 <= -minor < z * step + step,
                step > 0,
        ;
        assert(z * step >= 0) by (nonlinear_arith)
            requires
                z >= 0,
                step > 0,
        ;
    }
}

/// A text that is blank, or holds a sign alone, is refused as empty.
pub proof fn law_nothing_is_no_number(s: Seq<char>)
    ensures
        parsed(s) == Err::<i64, ParseFixedError>(ParseFixedError::Empty) <==> trimmed(s).len() == 0
            || (trimmed(s).len() == 1 && (trimmed(s)[0] == '-' || trimmed(s)[0] == '+')),
{
    let t = trimmed(s);
    if t.len() > 0 {
        let digits = if t[0] == '-' || t[0] == '+' {
            t.drop_first()
        } else {
            t
        };
        lemma_never_empty(digits);
    }
}

proof fn lemma_never_empty(s: Seq<char>)
    ensures
        first_refusal(s) != Some(ParseFixedError::Empty),
    decreases s.len(),
{
    if s.len() > 0 {
        lemma_never_empty(s.drop_last());
    }
}

/// A decimal is refused for the first character that has no place in it: one that
/// is no digit and no point, or a second point.
pub proof fn law_a_decimal_is_refused_at_its_first_fault(
    a: Seq<char>,
    f: Seq<char>,
    c: char,
    rest: Seq<char>,
)
    requires
        all_digits(a),
        all_digits(f),
        a.len() > 0,
        worth(a) <= i128::MAX,
    ensures
        ({
            let whole = a + seq![c] + rest;
            let parts = a + seq!['.'] + f + seq![c] + rest;
            let bad = !('0' <= c <= '9') && c != '.';
            &&& bad && trimmed(whole) == whole ==> parsed(whole) == Err::<i64, ParseFixedError>(
                ParseFixedError::InvalidChar(c),
            )
            &&& bad && trimmed(parts) == parts ==> parsed(parts) == Err::<i64, ParseFixedError>(
                ParseFixedError::InvalidChar(c),
            )
            &&& c == '.' && trimmed(parts) == parts ==> parsed(parts) == Err::<
                i64,
                ParseFixedError,
            >(ParseFixedError::MultipleDecimalPoints)
        }),
{
    let whole = a + seq![c] + rest;
    let parts = a + seq!['.'] + f + seq![c] + rest;
    let plain = a + seq!['.'] + f;
    lemma_worth(a);
    assert(digit(a[0]));
    assert(whole[0] == a[0] && parts[0] == a[0]);
    if !digit(c) && c != '.' {
        lemma_reads_digits(a);
        let upto = a.push(c);
        assert(upto.drop_last() =~= a);
        assert(whole.take(upto.len() as int) =~= upto);
        lemma_refusal_is_kept(whole, upto.len() as int);
    }
    if !digit(c) {
        lemma_reads_decimal(a, f);
        let upto = plain.push(c);
        assert(upto.drop_last() =~= plain);
        assert(parts.take(upto.len() as int) =~= upto);
        lemma_refusal_is_kept(parts, upto.len() as int);
    }
}

/// Digits alone are a whole number, taken up to a bound; a minus in front of a
/// signed one makes it negative.
pub proof fn law_digits_are_whole_numbers(s: Seq<char>, max: nat)
    requires
        all_digits(s),
        s.len() > 0,
    ensures
        unsigned_text(s, max) == if worth(s) <= max {
            Some(worth(s) as nat)
        } else {
            None
        },
        signed_text(s) == if worth(s) <= i64::MAX {
            Some(worth(s))
        } else {
            None
        },
        signed_text(seq!['-'] + s) == if -worth(s) >= i64::MIN {
            Some(-worth(s))
        } else {
            None
        },
{
    lemma_worth(s);
    assert(digit(s[0]));
    let negative = seq!['-'] + s;
    assert(negative.drop_first() =~= s);
    assert(negative[0] == '-');
}

proof fn lemma_trim_end(s: Seq<char>) -> (k: int)
    ensures
        0 <= k <= s.len(),
        trim_end(s) == s.take(k),
        forall|i: int| k <= i < s.len() ==> white(#[trigger] s[i]),
        k > 0 ==> !white(s[k - 1]),
    decreases s.len(),
{
    if s.len() > 0 && white(s.last()) {
        let less = s.drop_last();
        let k = lemma_trim_end(less);
        assert(less.take(k) =~= s.take(k));
        assert forall|i: int| k <= i < s.len() implies white(#[trigger] s[i]) by {
            if i < less.len() {
                assert(less[i] == s[i]);
            }
        }
        k
    } else {
        assert(s.take(s.len() as int) =~= s);
        s.len() as int
    }
}

proof fn lemma_trim_start(s: Seq<char>) -> (k: int)
    ensures
        0 <= k <= s.len(),
        trim_start(s) == s.skip(k),
        forall|i: int| 0 <= i < k ==> white(#[trigger] s[i]),
        k < s.len() ==> !white(s[k]),
    decreases s.len(),
{
    if s.len() > 0 && white(s.first()) {
        let rest = s.drop_first();
        let k = lemma_trim_start(rest);
        assert(rest.skip(k) =~= s.skip(k + 1));
        assert forall|i: int| 0 <= i < k + 1 implies white(#[trigger] s[i]) by {
            if i > 0 {
                assert(rest[i - 1] == s[i]);
            }
        }
        k + 1
    } else {
        assert(s.skip(0) =~= s);
        0
    }
}

/// Trimming takes white space off both ends, all of it and nothing else.
pub proof fn law_trimming_takes_white_space_off(s: Seq<char>) -> (bounds: (int, int))
    ensures
        0 <= bounds.0 <= bounds.1 <= s.len(),
        trimmed(s) == s.subrange(bounds.0, bounds.1),
        forall|i: int| 0 <= i < bounds.0 || bounds.1 <= i < s.len() ==> white(#[trigger] s[i]),
        bounds.0 < bounds.1 ==> !white(s[bounds.0]) && !white(s[bounds.1 - 1]),
        white(' ') && white('\t') && white('\n') && white('\r'),
        forall|c: char| 33 <= c as u32 <= 126 ==> !#[trigger] white(c),
{
    let from = lemma_trim_start(s);
    let rest = s.skip(from);
    let k = lemma_trim_end(rest);
    let to = from + k;
    assert(rest.take(k) =~= s.subrange(from, to));
    assert forall|i: int| 0 <= i < from || to <= i < s.len() implies white(#[trigger] s[i]) by {
        if i >= from {
            assert(rest[i - from] == s[i]);
        }
    }
    if k > 0 {
        assert(rest[k - 1] == s[to - 1]);
        assert(rest[0] == s[from]);
    }
    (from, to)
}

/// A time is written as whole seconds and nine digits of a second behind a point:
/// together they are its nanoseconds. Seconds before the start of the epoch have a
/// minus, and the digits still count up from them.
pub proof fn law_a_time_is_written_in_seconds(nanos: int) -> (parts: (Seq<char>, Seq<char>))
    ensures
        ({
            let (a, f) = parts;
            &&& all_digits(a)
            &&& all_digits(f)
            &&& f.len() == 9
            &&& nanos >= 0 ==> timestamp_text(nanos) == a + seq!['.'] + f && worth(a)
                * 1_000_000_000 + worth(f) == nanos
            &&& nanos < 0 ==> timestamp_text(nanos) == seq!['-'] + a + seq!['.'] + f && worth(f)
                - worth(a) * 1_000_000_000 == nanos
        }),
{
    let secs = nanos / 1_000_000_000;
    let rest = nanos % 1_000_000_000;
    let a = decimal(crate::primitives::fixed::magnitude_of(secs));
    let f = padded(rest as nat, 9);
    crate::text::lemma_decimal_number(crate::primitives::fixed::magnitude_of(secs));
    reveal_with_fuel(pow10, 10);
    lemma_padded_digits(rest as nat, 9);
    lemma_worth(a);
    lemma_worth(f);
    if nanos >= 0 {
        assert(timestamp_text(nanos) =~= a + seq!['.'] + f);
    }
    (a, f)
}

/// Sums, differences, negations and multiples of prices are those of their minor
/// units, and the same holds of sizes. A quotient is cut off toward zero.
pub proof fn law_values_are_reckoned_in_minor_units(a: Price, b: Price, p: Qty, q: Qty, n: i64)
    ensures
        i64::MIN <= a.0 + b.0 <= i64::MAX ==> a.add_spec(b).0 == a.0 + b.0,
        i64::MIN <= a.0 - b.0 <= i64::MAX ==> a.sub_spec(b).0 == a.0 - b.0,
        a.0 != i64::MIN ==> a.neg_spec().0 == -a.0,
        i64::MIN <= a.0 * n <= i64::MAX ==> a.mul_spec(n).0 == a.0 * n,
        n > 0 ==> is_whole_part(a.div_spec(n).0 as int, a.0 as int, n as int),
        i64::MIN <= p.0 + q.0 <= i64::MAX ==> p.add_spec(q).0 == p.0 + q.0,
        i64::MIN <= p.0 - q.0 <= i64::MAX ==> p.sub_spec(q).0 == p.0 - q.0,
        p.0 != i64::MIN ==> p.neg_spec().0 == -p.0,
        i64::MIN <= p.0 * n <= i64::MAX ==> p.mul_spec(n).0 == p.0 * n,
        n > 0 ==> is_whole_part(p.div_spec(n).0 as int, p.0 as int, n as int),
{
    if n > 0 {
        law_division_cuts_off_toward_zero(a.0 as int, n as int);
        law_division_cuts_off_toward_zero(p.0 as int, n as int);
        lemma_no_larger(a.0 as int, n as int);
        lemma_no_larger(p.0 as int, n as int);
    }
}

proof fn lemma_no_larger(a: int, n: int)
    requires
        n > 0,
        i64::MIN <= a <= i64::MAX,
    ensures
        i64::MIN <= truncated_div(a, n) <= i64::MAX,
{
    law_division_cuts_off_toward_zero(a, n);
    let q = truncated_div(a, n);
    if a >= 0 {
        assert(0 <= q <= a) by (nonlinear_arith)
            requires
                0 <= q * n <= a,
                n > 0,
        ;
    } else {
        assert(a <= q <= 0) by (nonlinear_arith)
            requires
                a <= q * n <= 0,
                n > 0,
        ;
    }
}

/// Times are moved by nanoseconds, and two times are that many apart.
pub proof fn law_times_are_reckoned_in_nanoseconds(a: Ts, b: Ts, n: i64)
    ensures
        i64::MIN <= a.0 + n <= i64::MAX ==> a.add_spec(n).0 == a.0 + n,
        i64::MIN <= a.0 - n <= i64::MAX ==> a.sub_spec(n).0 == a.0 - n,
        i64::MIN <= a.0 - b.0 <= i64::MAX ==> a.sub_spec(b) == a.0 - b.0,
{
}

} // verus!
