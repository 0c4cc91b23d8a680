//! Ratios as IEEE 754 binary64 numbers, computed with integers.
//!
//! A [`Ratio`] is the bit pattern of a binary64 number. Token counts, context
//! limits and thresholds meet in a handful of operations: a count is converted
//! to binary64, multiplied by a ratio or divided by another count, and the
//! result is compared or cut down to a whole number. Each of these rounds to
//! the nearest representable number, ties to even, and each is carried out here
//! on integers, so that its result is known exactly.
//!
//! Magnitudes are measured in units of `2^-1074`, the smallest positive
//! binary64 number. Every finite binary64 number is a whole number of units.

use vstd::arithmetic::div_mod::{
    lemma_div_denominator, lemma_fundamental_div_mod, lemma_fundamental_div_mod_converse,
};
use vstd::arithmetic::power2::{
    lemma_pow2_adds, lemma_pow2_pos, lemma_pow2_strictly_increases, lemma_pow2_unfold, pow2,
};
use vstd::prelude::*;

verus! {

/// Whole numbers below this bound fit a significand.
pub const SIGNIFICAND_BOUND: u64 = 0x20_0000_0000_0000;

/// The implicit leading bit of a normal number.
const HIDDEN_BIT: u64 = 0x10_0000_0000_0000;

/// Binary exponent of one: `1.0` is `2^1074` units.
pub const ONE_SHIFT: u32 = 1074;

/// Binary exponent, in units, of the first magnitude that is too large.
pub const OVERFLOW_SHIFT: u32 = 2098;

/// Sums of token counts stop at this many quarter tokens, far more than an
/// address space can hold.
pub const COUNT_CEILING: u128 = 0x4000_0000_0000_0000_0000_0000_0000_0000;

/// The distance between neighbouring representable magnitudes around `x`.
pub open spec fn spacing(x: nat) -> nat
    decreases x,
{
    if x < SIGNIFICAND_BOUND {
        1
    } else {
        2 * spacing(x / 2)
    }
}

/// The representable magnitude nearest to `n / d`, ties to even.
pub open spec fn nearest(n: nat, d: nat) -> nat
    recommends
        d > 0,
{
    let step = d * spacing(n / d);
    let below = n / step;
    let rest = n % step;
    if 2 * rest > step || (2 * rest == step && below % 2 == 1) {
        (below + 1) * spacing(n / d)
    } else {
        below * spacing(n / d)
    }
}

/// A whole number as binary64 holds it.
pub open spec fn rounded(n: nat) -> nat {
    nearest(n, 1)
}

/// The mathematical value of a binary64 number.
pub enum Number {
    /// Not a number.
    Nan,
    /// An infinity.
    Infinite { negative: bool },
    /// A finite number of units.
    Finite { negative: bool, units: nat },
}

/// The number that a bit pattern stands for.
pub open spec fn number(bits: u64) -> Number {
    let negative = bits >= 0x8000_0000_0000_0000;
    let exponent = (bits / 0x10_0000_0000_0000) % 0x800;
    let fraction = bits % 0x10_0000_0000_0000;
    if exponent == 0x7ff {
        if fraction == 0 {
            Number::Infinite { negative }
        } else {
            Number::Nan
        }
    } else if exponent == 0 {
        Number::Finite { negative, units: fraction as nat }
    } else {
        Number::Finite {
            negative,
            units: (0x10_0000_0000_0000 + fraction) as nat * pow2((exponent - 1) as nat),
        }
    }
}

/// A rounded result, infinite where it is too large to be finite.
pub open spec fn finish(negative: bool, units: nat) -> Number {
    if units >= pow2(OVERFLOW_SHIFT as nat) {
        Number::Infinite { negative }
    } else {
        Number::Finite { negative, units }
    }
}

/// A count, given exactly as `n / d`, times a number.
pub open spec fn product(n: nat, d: nat, x: Number) -> Number {
    match x {
        Number::Nan => Number::Nan,
        Number::Infinite { negative } => if n == 0 {
            Number::Nan
        } else {
            Number::Infinite { negative }
        },
        Number::Finite { negative, units } => finish(negative, nearest(n * units, d)),
    }
}

/// One count over another.
pub open spec fn quotient(n: nat, d: nat) -> Number {
    if d == 0 {
        if n == 0 {
            Number::Nan
        } else {
            Number::Infinite { negative: false }
        }
    } else {
        Number::Finite { negative: false, units: nearest(n * pow2(ONE_SHIFT as nat), d) }
    }
}

/// A count as a number.
pub open spec fn whole(n: nat) -> Number {
    Number::Finite { negative: false, units: n * pow2(ONE_SHIFT as nat) }
}

/// `a <= b`; false where either is not a number.
pub open spec fn at_most(a: Number, b: Number) -> bool {
    match (a, b) {
        (Number::Nan, _) => false,
        (_, Number::Nan) => false,
        (Number::Infinite { negative: m }, Number::Infinite { negative: n }) => m || !n,
        (Number::Infinite { negative }, Number::Finite { .. }) => negative,
        (Number::Finite { .. }, Number::Infinite { negative }) => !negative,
        (
            Number::Finite { negative: m, units: x },
            Number::Finite { negative: n, units: y },
        ) => if m {
            if n {
                y <= x
            } else {
                true
            }
        } else {
            if n {
                x == 0 && y == 0
            } else {
                x <= y
            }
        },
    }
}

/// `a > b`; false where either is not a number.
pub open spec fn above(a: Number, b: Number) -> bool {
    a != Number::Nan && b != Number::Nan && !at_most(a, b)
}

/// A number cut down to a whole number of type `usize`: the fraction is
/// dropped, what lies outside the type goes to its nearer end, and what is not
/// a number becomes zero.
pub open spec fn truncated(x: Number) -> nat {
    match x {
        Number::Nan => 0,
        Number::Infinite { negative } => if negative {
            0
        } else {
            usize::MAX as nat
        },
        Number::Finite { negative, units } => if negative {
            0
        } else if units / pow2(ONE_SHIFT as nat) > usize::MAX {
            usize::MAX as nat
        } else {
            units / pow2(ONE_SHIFT as nat)
        },
    }
}

// ---------------------------------------------------------------------------
// Facts about rounding
// ---------------------------------------------------------------------------

proof fn lemma_spacing_pos(x: nat)
    ensures
        spacing(x) >= 1,
    decreases x,
{
    if x >= SIGNIFICAND_BOUND {
        lemma_spacing_pos(x / 2);
    }
}

/// A common factor cancels.
proof fn lemma_nearest_cancel(n: nat, d: nat, c: nat)
    requires
        d > 0,
        c > 0,
    ensures
        nearest(n * c, d * c) == nearest(n, d),
{
    assert(d * c > 0) by (nonlinear_arith)
        requires
            d > 0,
            c > 0,
    ;
    lemma_cancel(n, d, c);
    let s = spacing(n / d);
    lemma_spacing_pos(n / d);
    let step = d * s;
    assert(step > 0) by (nonlinear_arith)
        requires
            d > 0,
            s >= 1,
            step == d * s,
    ;
    lemma_cancel(n, step, c);
    assert((d * c) * s == step * c) by (nonlinear_arith)
        requires
            step == d * s,
    ;
    let rest = n % step;
    assert(2 * (rest * c) > step * c <==> 2 * rest > step) by (nonlinear_arith)
        requires
            c > 0,
    ;
    assert(2 * (rest * c) == step * c <==> 2 * rest == step) by (nonlinear_arith)
        requires
            c > 0,
    ;
}

proof fn lemma_cancel(n: nat, d: nat, c: nat)
    requires
        d > 0,
        c > 0,
    ensures
        (n * c) / (d * c) == n / d,
        (n * c) % (d * c) == (n % d) * c,
{
    lemma_fundamental_div_mod(n as int, d as int);
    let q = n / d;
    let r = n % d;
    assert(n * c == q * (d * c) + r * c) by (nonlinear_arith)
        requires
            n == d * q + r,
    ;
    assert(0 <= r * c < d * c) by (nonlinear_arith)
        requires
            0 <= r < d,
            c > 0,
    ;
    lemma_fundamental_div_mod_converse((n * c) as int, (d * c) as int, q as int, (r * c) as int);
}

/// Doubling commutes with rounding above the range of exact whole numbers.
proof fn lemma_nearest_double(n: nat, d: nat)
    requires
        d > 0,
        (2 * n) / d >= SIGNIFICAND_BOUND,
    ensures
        nearest(2 * n, d) == 2 * nearest(n, d),
{
    let y = n / d;
    let z = (2 * n) / d;
    assert(z / 2 == y) by {
        lemma_div_denominator((2 * n) as int, d as int, 2);
        lemma_cancel(n, d, 2);
        assert(n * 2 == 2 * n);
    }
    assert(spacing(z) == 2 * spacing(y));
    let s = spacing(y);
    lemma_spacing_pos(y);
    let step = d * s;
    assert(step > 0) by (nonlinear_arith)
        requires
            d > 0,
            s >= 1,
            step == d * s,
    ;
    assert(d * (2 * s) == step * 2) by (nonlinear_arith)
        requires
            step == d * s,
    ;
    lemma_cancel(n, step, 2);
    assert(n * 2 == 2 * n);
    let below = n / step;
    assert(below * (2 * s) == 2 * (below * s)) by (nonlinear_arith);
    assert((below + 1) * (2 * s) == 2 * ((below + 1) * s)) by (nonlinear_arith);
}

/// A whole number below the significand bound is kept.
pub proof fn lemma_rounded_exact(x: nat)
    requires
        x < SIGNIFICAND_BOUND,
    ensures
        rounded(x) == x,
{
    assert(spacing(x / 1) == 1);
    assert(x / 1 == x && x % 1 == 0);
}

proof fn lemma_rounded_double(x: nat)
    ensures
        rounded(2 * x) == 2 * rounded(x),
{
    if 2 * x < SIGNIFICAND_BOUND {
        lemma_rounded_exact(2 * x);
        lemma_rounded_exact(x);
    } else {
        lemma_nearest_double(x, 1);
    }
}

/// Powers of two commute with the rounding of whole numbers.
proof fn lemma_rounded_scale(x: nat, k: nat)
    ensures
        rounded(x * pow2(k)) == rounded(x) * pow2(k),
    decreases k,
{
    if k == 0 {
        lemma_pow2_zero();
    } else {
        let j = (k - 1) as nat;
        lemma_rounded_scale(x, j);
        lemma_pow2_unfold(k);
        let p = pow2(j);
        lemma_rounded_double(x * p);
        assert(x * (2 * p) == 2 * (x * p)) by (nonlinear_arith);
        assert(rounded(x) * (2 * p) == 2 * (rounded(x) * p)) by (nonlinear_arith);
    }
}

/// Powers of two commute with rounding above the range of exact whole numbers.
proof fn lemma_nearest_scale(n: nat, d: nat, k: nat)
    requires
        d > 0,
        n / d >= SIGNIFICAND_BOUND,
    ensures
        nearest(n * pow2(k), d) == nearest(n, d) * pow2(k),
        (n * pow2(k)) / d >= SIGNIFICAND_BOUND,
    decreases k,
{
    if k == 0 {
        lemma_pow2_zero();
    } else {
        let j = (k - 1) as nat;
        lemma_nearest_scale(n, d, j);
        lemma_pow2_unfold(k);
        let p = pow2(j);
        let m = n * p;
        assert(n * (2 * p) == 2 * m) by (nonlinear_arith)
            requires
                m == n * p,
        ;
        assert((2 * m) / d >= m / d) by (nonlinear_arith)
            requires
                d > 0,
        ;
        lemma_nearest_double(m, d);
        assert(nearest(n, d) * (2 * p) == 2 * (nearest(n, d) * p)) by (nonlinear_arith);
    }
}

proof fn lemma_spacing_grows(x: nat, y: nat)
    requires
        x <= y,
    ensures
        spacing(x) == spacing(y) || 2 * spacing(x) <= spacing(y),
    decreases y,
{
    if y >= SIGNIFICAND_BOUND {
        lemma_spacing_pos(y / 2);
        if x >= SIGNIFICAND_BOUND {
            lemma_spacing_grows(x / 2, y / 2);
        }
    }
}

proof fn lemma_spacing_range(x: nat)
    ensures
        x / spacing(x) < SIGNIFICAND_BOUND,
        x >= SIGNIFICAND_BOUND ==> x / spacing(x) >= HIDDEN_BIT,
    decreases x,
{
    if x >= SIGNIFICAND_BOUND {
        let s = spacing(x / 2);
        lemma_spacing_pos(x / 2);
        lemma_spacing_range(x / 2);
        lemma_div_denominator(x as int, 2, s as int);
        if x / 2 < SIGNIFICAND_BOUND {
            assert((x / 2) / 1 == x / 2);
        }
    }
}

/// Rounding keeps order.
pub proof fn lemma_nearest_monotone(n: nat, m: nat, d: nat)
    requires
        d > 0,
        n <= m,
    ensures
        nearest(n, d) <= nearest(m, d),
{
    let (x, y) = (n / d, m / d);
    let (s, t) = (spacing(x), spacing(y));
    vstd::arithmetic::div_mod::lemma_div_is_ordered(n as int, m as int, d as int);
    lemma_spacing_pos(x);
    lemma_spacing_pos(y);
    lemma_spacing_grows(x, y);
    lemma_spacing_range(x);
    lemma_spacing_range(y);
    lemma_div_denominator(n as int, d as int, s as int);
    lemma_div_denominator(m as int, d as int, t as int);
    let (a, b) = (x / s, y / t);
    if s == t {
        let step = d * s;
        assert(step > 0) by (nonlinear_arith)
            requires
                d > 0,
                s >= 1,
                step == d * s,
        ;
        vstd::arithmetic::div_mod::lemma_div_is_ordered(n as int, m as int, step as int);
        lemma_fundamental_div_mod(n as int, step as int);
        lemma_fundamental_div_mod(m as int, step as int);
        assert(a * s <= (a + 1) * s) by (nonlinear_arith);
        assert(b * s <= (b + 1) * s) by (nonlinear_arith);
        if a < b {
            assert((a + 1) * s <= b * s) by (nonlinear_arith)
                requires
                    a + 1 <= b,
            ;
        }
    } else {
        assert(y >= SIGNIFICAND_BOUND);
        assert((a + 1) * s <= 0x20_0000_0000_0000 * s) by (nonlinear_arith)
            requires
                a + 1 <= 0x20_0000_0000_0000,
        ;
        assert(a * s <= (a + 1) * s) by (nonlinear_arith);
        assert(b * t >= 0x10_0000_0000_0000 * t) by (nonlinear_arith)
            requires
                b >= 0x10_0000_0000_0000,
        ;
        assert(b * t <= (b + 1) * t) by (nonlinear_arith);
    }
}

proof fn lemma_rounded_bound(n: nat)
    requires
        n <= pow2(64),
    ensures
        rounded(n) <= pow2(64),
        n == 0 <==> rounded(n) == 0,
{
    lemma_nearest_monotone(n, pow2(64), 1);
    lemma_rounded_exact(1);
    lemma_rounded_scale(1, 64);
    lemma_rounded_exact(0);
    if n > 0 {
        lemma_nearest_monotone(1, n, 1);
    }
}

proof fn lemma_pow2_zero()
    ensures
        pow2(0) == 1,
{
    vstd::arithmetic::power2::lemma2_to64();
}

// ---------------------------------------------------------------------------
// Integer arithmetic on magnitudes
// ---------------------------------------------------------------------------

/// A magnitude of `significand * 2^shift`.
#[derive(Clone, Copy)]
struct Magnitude {
    significand: u64,
    shift: u32,
}

impl Magnitude {
    spec fn units(self) -> nat {
        self.significand as nat * pow2(self.shift as nat)
    }

    spec fn wf(self) -> bool {
        self.significand <= SIGNIFICAND_BOUND
    }
}

proof fn lemma_pow2_values()
    ensures
        pow2(0) == 1,
        pow2(2) == 4,
        pow2(53) == SIGNIFICAND_BOUND,
        pow2(62) == 0x4000_0000_0000_0000,
        pow2(63) == 0x8000_0000_0000_0000,
        pow2(64) == 0x1_0000_0000_0000_0000,
        pow2(75) == 0x800_0000_0000_0000_0000,
        pow2(126) == COUNT_CEILING,
{
    vstd::arithmetic::power2::lemma2_to64();
    vstd::arithmetic::power2::lemma2_to64_rest();
    lemma_pow2_adds(64, 11);
    lemma_pow2_adds(64, 62);
}

/// `2^k`.
fn power_of_two(k: u32) -> (r: u128)
    requires
        k <= 126,
    ensures
        r == pow2(k as nat),
{
    let mut r: u128 = 1;
    let mut i: u32 = 0;
    proof {
        lemma_pow2_values();
    }
    while i < k
        invariant
            i <= k <= 126,
            r == pow2(i as nat),
        decreases k - i,
    {
        proof {
            lemma_pow2_values();
            lemma_pow2_unfold((i + 1) as nat);
            if i + 1 < 126 {
                lemma_pow2_strictly_increases((i + 1) as nat, 126);
            }
        }
        r = r * 2;
        i = i + 1;
    }
    r
}

/// The representable magnitude nearest to `n / d`.
fn round_quotient(n: u128, d: u128) -> (r: Magnitude)
    requires
        d > 0,
    ensures
        r.units() == nearest(n as nat, d as nat),
        r.wf(),
        r.shift <= 75,
{
    let whole_part: u128 = n / d;
    let remainder: u128 = n % d;
    let mut top: u128 = whole_part;
    let mut step: u128 = 1;
    let mut shift: u32 = 0;
    proof {
        lemma_pow2_values();
    }
    while top >= SIGNIFICAND_BOUND as u128
        invariant
            step > 0,
            step == pow2(shift as nat),
            top == whole_part / step,
            spacing(whole_part as nat) == spacing(top as nat) * step,
            shift <= 75,
        decreases top,
    {
        proof {
            assert(step * top <= whole_part) by {
                lemma_fundamental_div_mod(whole_part as int, step as int);
            }
            assert(step < 0x800_0000_0000_0000_0000) by (nonlinear_arith)
                requires
                    step * top <= whole_part,
                    whole_part <= u128::MAX,
                    top >= 0x20_0000_0000_0000,
            ;
            lemma_pow2_values();
            if shift >= 75 {
                assert(shift == 75);
            }
            lemma_pow2_unfold((shift + 1) as nat);
            lemma_div_denominator(whole_part as int, step as int, 2);
            let t = spacing((top / 2) as nat);
            assert((2 * t) * step == t * (step * 2)) by (nonlinear_arith);
        }
        top = top / 2;
        step = step * 2;
        shift = shift + 1;
    }
    assert(spacing(whole_part as nat) == step) by (nonlinear_arith)
        requires
            spacing(whole_part as nat) == spacing(top as nat) * step,
            spacing(top as nat) == 1,
    ;
    let rest: u128 = whole_part % step;
    let up: bool = if step == 1 {
        remainder > d - remainder || (remainder == d - remainder && top % 2 == 1)
    } else {
        let half: u128 = step / 2;
        rest > half || (rest == half && (remainder > 0 || top % 2 == 1))
    };
    proof {
        lemma_nearest_by_parts(n as nat, d as nat, whole_part as nat, remainder as nat, top as nat, rest as nat, step as nat);
        if shift > 0 {
            lemma_pow2_unfold(shift as nat);
        } else {
            lemma_pow2_values();
        }
    }
    let significand: u64 = if up {
        top as u64 + 1
    } else {
        top as u64
    };
    Magnitude { significand, shift }
}

/// How the rounding of `n / d` shows in the whole part and the remainder.
proof fn lemma_nearest_by_parts(
    n: nat,
    d: nat,
    whole_part: nat,
    remainder: nat,
    top: nat,
    rest: nat,
    step: nat,
)
    requires
        d > 0,
        whole_part == n / d,
        remainder == n % d,
        step > 0,
        step == spacing(whole_part),
        top == whole_part / step,
        rest == whole_part % step,
    ensures
        ({
            let up = if step == 1 {
                2 * remainder > d || (2 * remainder == d && top % 2 == 1)
            } else {
                2 * rest > step || (2 * rest == step && (remainder > 0 || top % 2 == 1))
            };
            nearest(n, d) == if up {
                (top + 1) * step
            } else {
                top * step
            }
        }),
{
    let big = d * step;
    lemma_fundamental_div_mod(n as int, d as int);
    lemma_fundamental_div_mod(whole_part as int, step as int);
    let tail = rest * d + remainder;
    assert(n == top * big + tail) by (nonlinear_arith)
        requires
            n == d * whole_part + remainder,
            whole_part == step * top + rest,
            big == d * step,
            tail == rest * d + remainder,
    ;
    assert(0 <= tail < big) by (nonlinear_arith)
        requires
            0 <= rest < step,
            0 <= remainder < d,
            big == d * step,
            tail == rest * d + remainder,
    ;
    lemma_fundamental_div_mod_converse(n as int, big as int, top as int, tail as int);
    if step == 1 {
        assert(rest == 0);
        assert(tail == remainder) by (nonlinear_arith)
            requires
                rest == 0,
                tail == rest * d + remainder,
        ;
        assert(big == d) by (nonlinear_arith)
            requires
                step == 1,
                big == d * step,
        ;
    } else {
        lemma_spacing_even(whole_part);
        assert(2 * tail > big <==> (2 * rest > step || (2 * rest == step && remainder > 0)))
            by (nonlinear_arith)
            requires
                0 <= rest < step,
                0 <= remainder < d,
                big == d * step,
                tail == rest * d + remainder,
                step % 2 == 0,
        {
            let half = step / 2;
            assert(step == 2 * half);
            if rest > half {
                assert(rest * d >= (half + 1) * d);
            } else if rest < half {
                assert((rest + 1) * d <= half * d);
            }
        }
        assert(2 * tail == big <==> (2 * rest == step && remainder == 0)) by (nonlinear_arith)
            requires
                0 <= rest < step,
                0 <= remainder < d,
                big == d * step,
                tail == rest * d + remainder,
                step % 2 == 0,
        {
            let half = step / 2;
            assert(step == 2 * half);
            if rest > half {
                assert(rest * d >= (half + 1) * d);
            } else if rest < half {
                assert((rest + 1) * d <= half * d);
            }
        }
    }
}

proof fn lemma_spacing_even(x: nat)
    ensures
        spacing(x) == 1 || spacing(x) % 2 == 0,
{
}

/// `a < b`, by the units that they stand for.
fn smaller(a: Magnitude, b: Magnitude) -> (r: bool)
    requires
        a.wf(),
        b.wf(),
    ensures
        r == (a.units() < b.units()),
{
    if a.shift >= b.shift {
        lifted_smaller(a.significand, a.shift - b.shift, b.significand, Ghost(b.shift as nat))
    } else {
        lifted_larger(b.significand, b.shift - a.shift, a.significand, Ghost(a.shift as nat))
    }
}

/// `x * 2^lift < y`, both over a common power of two.
fn lifted_smaller(x: u64, lift: u32, y: u64, Ghost(base): Ghost<nat>) -> (r: bool)
    requires
        x <= SIGNIFICAND_BOUND,
        y <= SIGNIFICAND_BOUND,
    ensures
        r == (x as nat * pow2((lift + base) as nat) < y as nat * pow2(base)),
{
    proof {
        lemma_pow2_values();
        lemma_pow2_adds(lift as nat, base);
        lemma_pow2_pos(base);
        let p = pow2(lift as nat);
        let b = pow2(base);
        assert(x as nat * (p * b) < y as nat * b <==> x as nat * p < y as nat) by (nonlinear_arith)
            requires
                b > 0,
        ;
        if lift >= 64 {
            if lift > 64 {
                lemma_pow2_strictly_increases(64, lift as nat);
            }
            if x > 0 {
                assert(x as nat * p >= p) by (nonlinear_arith)
                    requires
                        x >= 1,
                ;
            }
        }
    }
    if x == 0 {
        proof {
            assert(0 * pow2(lift as nat) == 0);
        }
        y > 0
    } else if lift >= 64 {
        false
    } else {
        proof {
            lemma_pow2_strictly_increases(lift as nat, 64);
            assert(x as nat * pow2(lift as nat) <= u128::MAX) by (nonlinear_arith)
                requires
                    x <= 0x20_0000_0000_0000,
                    pow2(lift as nat) < 0x1_0000_0000_0000_0000,
            ;
        }
        (x as u128) * power_of_two(lift) < y as u128
    }
}

/// `y < x * 2^lift`, both over a common power of two.
fn lifted_larger(x: u64, lift: u32, y: u64, Ghost(base): Ghost<nat>) -> (r: bool)
    requires
        x <= SIGNIFICAND_BOUND,
        y <= SIGNIFICAND_BOUND,
    ensures
        r == ((y as nat * pow2(base)) < x as nat * pow2((lift + base) as nat)),
{
    proof {
        lemma_pow2_values();
        lemma_pow2_adds(lift as nat, base);
        lemma_pow2_pos(base);
        let p = pow2(lift as nat);
        let b = pow2(base);
        assert((y as nat * b) < x as nat * (p * b) <==> y as nat <= x as nat * p - 1)
            by (nonlinear_arith)
            requires
                b > 0,
        ;
        if lift >= 64 {
            if lift > 64 {
                lemma_pow2_strictly_increases(64, lift as nat);
            }
            if x > 0 {
                assert(x as nat * p >= p) by (nonlinear_arith)
                    requires
                        x >= 1,
                ;
            }
        }
    }
    if x == 0 {
        proof {
            assert(0 * pow2(lift as nat) == 0);
        }
        false
    } else if lift >= 64 {
        true
    } else {
        proof {
            lemma_pow2_strictly_increases(lift as nat, 64);
            assert(x as nat * pow2(lift as nat) <= u128::MAX) by (nonlinear_arith)
                requires
                    x <= 0x20_0000_0000_0000,
                    pow2(lift as nat) < 0x1_0000_0000_0000_0000,
            ;
        }
        (y as u128) < (x as u128) * power_of_two(lift)
    }
}

// ---------------------------------------------------------------------------
// Numbers and ratios
// ---------------------------------------------------------------------------

/// A computed binary64 number.
#[derive(Clone, Copy)]
pub struct Quantity {
    kind: QuantityKind,
}

#[derive(Clone, Copy)]
enum QuantityKind {
    Nan,
    Infinite { negative: bool },
    Finite { negative: bool, magnitude: Magnitude },
}

impl View for Quantity {
    type V = Number;

    closed spec fn view(&self) -> Number {
        match self.kind {
            QuantityKind::Nan => Number::Nan,
            QuantityKind::Infinite { negative } => Number::Infinite { negative },
            QuantityKind::Finite { negative, magnitude } => Number::Finite {
                negative,
                units: magnitude.units(),
            },
        }
    }
}

impl Quantity {
    #[verifier::type_invariant]
    spec fn wf(self) -> bool {
        match self.kind {
            QuantityKind::Finite { magnitude, .. } => magnitude.wf(),
            _ => true,
        }
    }

    /// `self <= other`; false where either is not a number.
    pub fn at_most(self, other: Quantity) -> (r: bool)
        ensures
            r == at_most(self@, other@),
    {
        proof {
            use_type_invariant(&self);
            use_type_invariant(&other);
        }
        match (self.kind, other.kind) {
            (QuantityKind::Nan, _) => false,
            (_, QuantityKind::Nan) => false,
            (
                QuantityKind::Infinite { negative: m },
                QuantityKind::Infinite { negative: n },
            ) => m || !n,
            (QuantityKind::Infinite { negative }, QuantityKind::Finite { .. }) => negative,
            (QuantityKind::Finite { .. }, QuantityKind::Infinite { negative }) => !negative,
            (
                QuantityKind::Finite { negative: m, magnitude: x },
                QuantityKind::Finite { negative: n, magnitude: y },
            ) => {
                let zero = Magnitude { significand: 0, shift: 0 };
                proof {
                    assert(0 * pow2(0) == 0);
                }
                if m {
                    !n || !smaller(x, y)
                } else if n {
                    !smaller(zero, x) && !smaller(zero, y)
                } else {
                    !smaller(y, x)
                }
            },
        }
    }

    /// `self > other`; false where either is not a number.
    pub fn above(self, other: Quantity) -> (r: bool)
        ensures
            r == above(self@, other@),
    {
        match (self.kind, other.kind) {
            (QuantityKind::Nan, _) => false,
            (_, QuantityKind::Nan) => false,
            _ => !self.at_most(other),
        }
    }

    /// A count as a number.
    pub fn whole(n: usize) -> (r: Quantity)
        ensures
            r@ == whole(rounded(n as nat)),
    {
        let m = round_quotient(n as u128, 1);
        proof {
            lemma_pow2_adds(m.shift as nat, ONE_SHIFT as nat);
            let (a, b, c) = (m.significand as nat, pow2(m.shift as nat), pow2(ONE_SHIFT as nat));
            assert(a * (b * c) == (a * b) * c) by (nonlinear_arith);
        }
        Quantity {
            kind: QuantityKind::Finite {
                negative: false,
                magnitude: Magnitude { significand: m.significand, shift: m.shift + ONE_SHIFT },
            },
        }
    }

    /// One count over another.
    pub fn quotient(n: usize, d: usize) -> (r: Quantity)
        ensures
            r@ == quotient(rounded(n as nat), rounded(d as nat)),
    {
        let num = round_whole(n);
        let den = round_whole(d);
        if den == 0 {
            return if num == 0 {
                Quantity { kind: QuantityKind::Nan }
            } else {
                Quantity { kind: QuantityKind::Infinite { negative: false } }
            };
        }
        if num == 0 {
            proof {
                assert(0 * pow2(ONE_SHIFT as nat) == 0);
                assert(0nat / (den as nat) == 0);
                assert(den as nat * 1 == den as nat);
                assert(0nat % (den as nat) == 0);
                assert(0 * pow2(0) == 0);
            }
            return Quantity {
                kind: QuantityKind::Finite {
                    negative: false,
                    magnitude: Magnitude { significand: 0, shift: 0 },
                },
            };
        }
        let mut lifted: u128 = num;
        let mut lift: u32 = 0;
        proof {
            lemma_pow2_values();
        }
        while lifted < 0x8000_0000_0000_0000
            invariant
                lift <= 63,
                0 < lifted <= 0x1_0000_0000_0000_0000,
                lifted == num * pow2(lift as nat),
                num > 0,
            decreases 64 - lift,
        {
            proof {
                lemma_pow2_values();
                lemma_pow2_unfold((lift + 1) as nat);
                let p = pow2(lift as nat);
                assert(num * (2 * p) == 2 * (num * p)) by (nonlinear_arith);
                if lift == 63 {
                    assert(num * p >= p) by (nonlinear_arith)
                        requires
                            num >= 1,
                    ;
                }
            }
            lifted = lifted * 2;
            lift = lift + 1;
        }
        let wide: u128 = lifted * 0x4000_0000_0000_0000;
        let m = round_quotient(wide, den);
        proof {
            lemma_pow2_values();
            let k = (lift + 62) as nat;
            lemma_pow2_adds(lift as nat, 62);
            let p = pow2(lift as nat);
            assert(wide == num * (p * 0x4000_0000_0000_0000)) by (nonlinear_arith)
                requires
                    wide == (num * p) * 0x4000_0000_0000_0000,
            ;
            assert(wide as nat / den as nat >= SIGNIFICAND_BOUND) by (nonlinear_arith)
                requires
                    wide >= 0x8000_0000_0000_0000 * 0x4000_0000_0000_0000,
                    0 < den <= 0x1_0000_0000_0000_0000,
            ;
            let up = (ONE_SHIFT - k) as nat;
            lemma_nearest_scale(wide as nat, den as nat, up);
            lemma_pow2_adds(k, up);
            assert(num * (pow2(k) * pow2(up)) == (num * pow2(k)) * pow2(up)) by (nonlinear_arith);
            lemma_pow2_adds(m.shift as nat, up);
            let (a, b, c) = (m.significand as nat, pow2(m.shift as nat), pow2(up));
            assert(a * (b * c) == (a * b) * c) by (nonlinear_arith);
        }
        Quantity {
            kind: QuantityKind::Finite {
                negative: false,
                magnitude: Magnitude {
                    significand: m.significand,
                    shift: m.shift + (ONE_SHIFT - 62 - lift),
                },
            },
        }
    }
}

/// A count, rounded.
fn round_whole(n: usize) -> (r: u128)
    ensures
        r == rounded(n as nat),
        r <= 0x1_0000_0000_0000_0000,
        n == 0 <==> r == 0,
{
    let m = round_quotient(n as u128, 1);
    proof {
        lemma_pow2_values();
        lemma_rounded_bound(n as nat);
        if m.shift > 0 {
            lemma_pow2_pos(m.shift as nat);
        }
        if m.shift < 75 {
            lemma_pow2_strictly_increases(m.shift as nat, 75);
        }
    }
    (m.significand as u128) * power_of_two(m.shift)
}

/// The rounded product of two magnitudes.
fn multiply(a: Magnitude, b: Magnitude) -> (r: Magnitude)
    requires
        a.wf(),
        b.wf(),
        a.shift <= 0x1000,
        b.shift <= 0x1000,
    ensures
        r.units() == rounded(a.units() * b.units()),
        r.wf(),
        r.shift <= a.shift + b.shift + 75,
{
    proof {
        assert(a.significand * b.significand <= u128::MAX) by (nonlinear_arith)
            requires
                a.significand <= 0x20_0000_0000_0000,
                b.significand <= 0x20_0000_0000_0000,
        ;
    }
    let raw: u128 = (a.significand as u128) * (b.significand as u128);
    let p = round_quotient(raw, 1);
    proof {
        lemma_product_units(a, b, raw as nat);
        let j = (a.shift + b.shift) as nat;
        lemma_rounded_scale(raw as nat, j);
        lemma_pow2_adds(p.shift as nat, j);
        let (x, y, z) = (p.significand as nat, pow2(p.shift as nat), pow2(j));
        assert(x * (y * z) == (x * y) * z) by (nonlinear_arith);
    }
    Magnitude { significand: p.significand, shift: p.shift + (a.shift + b.shift) }
}

proof fn lemma_product_units(a: Magnitude, b: Magnitude, raw: nat)
    requires
        raw == a.significand * b.significand,
    ensures
        a.units() * b.units() == raw * pow2((a.shift + b.shift) as nat),
{
    lemma_pow2_adds(a.shift as nat, b.shift as nat);
    let (w, x, y, z) = (
        a.significand as nat,
        pow2(a.shift as nat),
        b.significand as nat,
        pow2(b.shift as nat),
    );
    assert((w * x) * (y * z) == (w * y) * (x * z)) by (nonlinear_arith);
}

/// The whole number of `2^one` in a magnitude, at most `usize::MAX`.
fn whole_part(m: Magnitude, one: u32) -> (r: usize)
    requires
        m.wf(),
    ensures
        r == if m.units() / pow2(one as nat) > usize::MAX {
            usize::MAX as nat
        } else {
            m.units() / pow2(one as nat)
        },
{
    proof {
        lemma_pow2_values();
        lemma_pow2_pos(one as nat);
        lemma_pow2_pos(m.shift as nat);
    }
    let c = m.significand;
    if c == 0 {
        proof {
            assert(0 * pow2(m.shift as nat) == 0);
            assert(0nat / pow2(one as nat) == 0);
        }
        0
    } else if m.shift >= one {
        let k: u32 = m.shift - one;
        proof {
            lemma_pow2_adds(k as nat, one as nat);
            let (x, y, z) = (c as nat, pow2(k as nat), pow2(one as nat));
            assert(x * (y * z) == (x * y) * z) by (nonlinear_arith);
            lemma_fundamental_div_mod_converse(m.units() as int, z as int, (x * y) as int, 0);
            if k >= 64 {
                if k > 64 {
                    lemma_pow2_strictly_increases(64, k as nat);
                }
                assert(x * y >= y) by (nonlinear_arith)
                    requires
                        x >= 1,
                ;
            } else {
                lemma_pow2_strictly_increases(k as nat, 64);
                assert(x * y <= u128::MAX) by (nonlinear_arith)
                    requires
                        x <= 0x20_0000_0000_0000,
                        y < 0x1_0000_0000_0000_0000,
                ;
            }
        }
        if k >= 64 {
            usize::MAX
        } else {
            let v: u128 = (c as u128) * power_of_two(k);
            if v > usize::MAX as u128 {
                usize::MAX
            } else {
                v as usize
            }
        }
    } else {
        let k: u32 = one - m.shift;
        proof {
            lemma_pow2_adds(k as nat, m.shift as nat);
            lemma_pow2_pos(k as nat);
            lemma_cancel(c as nat, pow2(k as nat), pow2(m.shift as nat));
            if k >= 64 {
                if k > 64 {
                    lemma_pow2_strictly_increases(64, k as nat);
                }
                vstd::arithmetic::div_mod::lemma_basic_div(c as int, pow2(k as nat) as int);
            } else {
                vstd::arithmetic::div_mod::lemma_div_is_ordered_by_denominator(c as int, 1, pow2(k as nat) as int);
            }
        }
        if k >= 64 {
            0
        } else {
            let v: u128 = (c as u128) / power_of_two(k);
            if v > usize::MAX as u128 {
                usize::MAX
            } else {
                v as usize
            }
        }
    }
}

/// A fraction or factor: a binary64 number, given by its bit pattern.
#[derive(Clone, Copy, Debug, PartialEq, Eq, Structural)]
pub struct Ratio {
    /// The bit pattern.
    pub bits: u64,
}

impl View for Ratio {
    type V = Number;

    open spec fn view(&self) -> Number {
        number(self.bits)
    }
}

impl Ratio {
    /// The number with the given bit pattern.
    pub fn from_bits(bits: u64) -> (r: Ratio)
        ensures
            r.bits == bits,
            r@ == number(bits),
    {
        Ratio { bits }
    }

    /// The number itself.
    pub fn value(self) -> (r: Quantity)
        ensures
            r@ == self@,
    {
        Quantity { kind: self.kind() }
    }

    fn kind(self) -> (r: QuantityKind)
        ensures
            self@ == (match r {
                QuantityKind::Nan => Number::Nan,
                QuantityKind::Infinite { negative } => Number::Infinite { negative },
                QuantityKind::Finite { negative, magnitude } => Number::Finite {
                    negative,
                    units: magnitude.units(),
                },
            }),
            r matches QuantityKind::Finite { magnitude, .. } ==> magnitude.wf() && magnitude.shift
                <= 2046,
    {
        let negative: bool = self.bits >= 0x8000_0000_0000_0000;
        let exponent: u64 = (self.bits / HIDDEN_BIT) % 0x800;
        let fraction: u64 = self.bits % HIDDEN_BIT;
        if exponent == 0x7ff {
            if fraction == 0 {
                QuantityKind::Infinite { negative }
            } else {
                QuantityKind::Nan
            }
        } else if exponent == 0 {
            proof {
                lemma_pow2_zero();
                assert(fraction as nat * 1 == fraction as nat);
            }
            QuantityKind::Finite { negative, magnitude: Magnitude { significand: fraction, shift: 0 } }
        } else {
            QuantityKind::Finite {
                negative,
                magnitude: Magnitude {
                    significand: HIDDEN_BIT + fraction,
                    shift: exponent as u32 - 1,
                },
            }
        }
    }

    /// The ratio of a count.
    pub fn times(self, n: usize) -> (r: Quantity)
        ensures
            r@ == product(rounded(n as nat), 1, self@),
    {
        match self.kind() {
            QuantityKind::Nan => Quantity { kind: QuantityKind::Nan },
            QuantityKind::Infinite { negative } => {
                proof {
                    lemma_pow2_values();
                    lemma_rounded_bound(n as nat);
                }
                if n == 0 {
                    Quantity { kind: QuantityKind::Nan }
                } else {
                    Quantity { kind: QuantityKind::Infinite { negative } }
                }
            },
            QuantityKind::Finite { negative, magnitude } => {
                let count = round_quotient(n as u128, 1);
                let p = multiply(count, magnitude);
                let limit = Magnitude { significand: 1, shift: OVERFLOW_SHIFT };
                if smaller(p, limit) {
                    Quantity { kind: QuantityKind::Finite { negative, magnitude: p } }
                } else {
                    Quantity { kind: QuantityKind::Infinite { negative } }
                }
            },
        }
    }

    /// The ratio of a number of quarter tokens, in whole tokens.
    pub fn scale(self, quarters: u128) -> (r: usize)
        requires
            is_count(quarters as nat),
        ensures
            r == truncated(product(quarters as nat, 4, self@)),
    {
        match self.kind() {
            QuantityKind::Nan => 0,
            QuantityKind::Infinite { negative } => if quarters == 0 || negative {
                0
            } else {
                usize::MAX
            },
            QuantityKind::Finite { negative, magnitude } => {
                let count = round_quotient(quarters, 1);
                let p = multiply(count, magnitude);
                proof {
                    lemma_quarter_product(count, magnitude, p);
                }
                if negative {
                    0
                } else {
                    whole_part(p, ONE_SHIFT + 2)
                }
            },
        }
    }

    /// The ratio of a count, in whole tokens.
    pub fn of(self, n: usize) -> (r: usize)
        ensures
            r == truncated(product(rounded(n as nat), 1, self@)),
    {
        let count = round_whole(n);
        proof {
            lemma_pow2_values();
            let c = rounded(n as nat);
            lemma_rounded_bound(n as nat);
            lemma_rounded_idempotent(n as nat);
            lemma_rounded_scale(c, 2);
            if let Number::Finite { units, .. } = self@ {
                lemma_nearest_cancel(c * units, 1, 4);
                assert((c * units) * 4 == (c * 4) * units) by (nonlinear_arith);
            }
        }
        self.scale(count * 4)
    }
}

/// A number of quarter tokens as sums hold it.
pub open spec fn is_count(q: nat) -> bool {
    q <= COUNT_CEILING && rounded(q) == q
}

proof fn lemma_rounded_idempotent(n: nat)
    ensures
        rounded(rounded(n)) == rounded(n),
{
    let s = spacing(n);
    lemma_spacing_range(n);
    assert(n / 1 == n && 1 * s == s);
    let k = (rounded(n) / s);
    lemma_spacing_power(n);
    let j = choose|j: nat| s == pow2(j);
    let below = n / s;
    let c = if rounded(n) == below * s { below } else { below + 1 };
    assert(rounded(n) == c * pow2(j));
    lemma_rounded_scale(c, j);
    if c < SIGNIFICAND_BOUND {
        lemma_rounded_exact(c);
    } else {
        lemma_pow2_values();
        lemma_rounded_scale(1, 53);
        lemma_rounded_exact(1);
    }
}

proof fn lemma_spacing_power(x: nat)
    ensures
        exists|j: nat| spacing(x) == pow2(j),
    decreases x,
{
    if x < SIGNIFICAND_BOUND {
        lemma_pow2_zero();
        assert(spacing(x) == pow2(0));
    } else {
        lemma_spacing_power(x / 2);
        let j = choose|j: nat| spacing(x / 2) == pow2(j);
        lemma_pow2_unfold((j + 1) as nat);
        assert(spacing(x) == pow2((j + 1) as nat));
    }
}

/// The product of quarter tokens and a magnitude, in whole tokens.
proof fn lemma_quarter_product(count: Magnitude, m: Magnitude, p: Magnitude)
    requires
        count.wf(),
        m.wf(),
        p.units() == rounded(count.units() * m.units()),
    ensures
        ({
            let exact = count.units() * m.units();
            let one = pow2(ONE_SHIFT as nat);
            let whole = p.units() / pow2((ONE_SHIFT + 2) as nat);
            &&& nearest(exact, 4) < pow2(OVERFLOW_SHIFT as nat) ==> nearest(exact, 4) / one == whole
            &&& nearest(exact, 4) >= pow2(OVERFLOW_SHIFT as nat) ==> whole > usize::MAX
        }),
{
    let raw = (count.significand * m.significand) as nat;
    let j = (count.shift + m.shift) as nat;
    let exact = count.units() * m.units();
    let one = pow2(ONE_SHIFT as nat);
    lemma_product_units(count, m, raw);
    lemma_pow2_values();
    lemma_pow2_adds(ONE_SHIFT as nat, 2);
    lemma_pow2_pos(ONE_SHIFT as nat);
    if j >= 2 {
        let i = (j - 2) as nat;
        lemma_pow2_adds(i, 2);
        let part = raw * pow2(i);
        assert(raw * (pow2(i) * 4) == part * 4) by (nonlinear_arith)
            requires
                part == raw * pow2(i),
        ;
        assert(exact == part * 4);
        lemma_nearest_cancel(part, 1, 4);
        lemma_rounded_scale(part, 2);
        assert(p.units() == rounded(part) * 4);
        lemma_cancel(rounded(part), one, 4);
        if nearest(exact, 4) >= pow2(OVERFLOW_SHIFT as nat) {
            lemma_pow2_adds(1024, ONE_SHIFT as nat);
            lemma_pow2_strictly_increases(64, 1024);
            let x = rounded(part);
            assert(x / one >= pow2(1024)) by {
                vstd::arithmetic::div_mod::lemma_div_is_ordered((pow2(1024) * one) as int, x as int, one as int);
                lemma_fundamental_div_mod_converse((pow2(1024) * one) as int, one as int, pow2(1024) as int, 0);
            }
        }
    } else {
        assert(raw <= 0x20_0000_0000_0000 * 0x20_0000_0000_0000) by (nonlinear_arith)
            requires
                raw == count.significand * m.significand,
                count.significand <= 0x20_0000_0000_0000,
                m.significand <= 0x20_0000_0000_0000,
        ;
        lemma_pow2_unfold(1);
        assert(exact <= 2 * raw) by (nonlinear_arith)
            requires
                exact == raw * pow2(j),
                pow2(j) <= 2,
        ;
        lemma_nearest_monotone(exact, COUNT_CEILING as nat, 1);
        lemma_rounded_scale(1, 126);
        lemma_rounded_exact(1);
        lemma_nearest_monotone(exact, (COUNT_CEILING * 4) as nat, 4);
        lemma_nearest_cancel(COUNT_CEILING as nat, 1, 4);
        lemma_pow2_strictly_increases(126, ONE_SHIFT as nat);
        lemma_pow2_strictly_increases(ONE_SHIFT as nat, OVERFLOW_SHIFT as nat);
        vstd::arithmetic::div_mod::lemma_basic_div(nearest(exact, 4) as int, one as int);
        vstd::arithmetic::div_mod::lemma_basic_div(p.units() as int, (one * 4) as int);
    }
}

/// The sum of two counts.
pub open spec fn plus(a: nat, b: nat) -> nat {
    if a + b >= COUNT_CEILING {
        COUNT_CEILING as nat
    } else {
        rounded(a + b)
    }
}

/// Adds two counts.
pub fn add_counts(a: u128, b: u128) -> (r: u128)
    requires
        is_count(a as nat),
        is_count(b as nat),
    ensures
        r == plus(a as nat, b as nat),
        is_count(r as nat),
{
    proof {
        lemma_plus_is_count(a as nat, b as nat);
    }
    if a + b >= COUNT_CEILING {
        COUNT_CEILING
    } else {
        let m = round_quotient(a + b, 1);
        proof {
            lemma_pow2_values();
            if m.shift < 75 {
                lemma_pow2_strictly_increases(m.shift as nat, 75);
            }
        }
        (m.significand as u128) * power_of_two(m.shift)
    }
}

/// A sum of counts is a count.
pub proof fn lemma_plus_is_count(a: nat, b: nat)
    ensures
        is_count(plus(a, b)),
{
    lemma_pow2_values();
    lemma_rounded_scale(1, 126);
    lemma_rounded_exact(1);
    if a + b < COUNT_CEILING {
        lemma_nearest_monotone(a + b, COUNT_CEILING as nat, 1);
        lemma_rounded_idempotent(a + b);
    }
}

/// A length in bytes as a number of quarter tokens: one for each byte, or two.
pub fn count_bytes(n: u128, double: bool) -> (r: u128)
    requires
        n <= 0x2_0000_0000_0000_0000,
    ensures
        r == rounded(n as nat) * if double {
            2nat
        } else {
            1nat
        },
        is_count(r as nat),
{
    let m = round_quotient(n, 1);
    proof {
        lemma_pow2_values();
        lemma_rounded_double(n as nat);
        lemma_rounded_scale(1, 126);
        lemma_rounded_exact(1);
        lemma_nearest_monotone(2 * (n as nat), COUNT_CEILING as nat, 1);
        lemma_rounded_idempotent(n as nat);
        lemma_rounded_double(rounded(n as nat));
        if m.shift < 75 {
            lemma_pow2_strictly_increases(m.shift as nat, 75);
        }
    }
    let whole: u128 = (m.significand as u128) * power_of_two(m.shift);
    if double {
        whole * 2
    } else {
        whole
    }
}

// ---------------------------------------------------------------------------
// Order
// ---------------------------------------------------------------------------

/// A sum of counts grows with its parts, and is no smaller than either.
pub proof fn lemma_plus_monotone(a: nat, b: nat, c: nat, d: nat)
    requires
        a <= c,
        b <= d,
    ensures
        plus(a, b) <= plus(c, d),
        is_count(a) ==> a <= plus(a, b),
        is_count(b) ==> b <= plus(a, b),
{
    lemma_plus_is_count(a, b);
    lemma_plus_is_count(c, d);
    lemma_nearest_monotone(a + b, c + d, 1);
    lemma_nearest_monotone(a, a + b, 1);
    lemma_nearest_monotone(b, a + b, 1);
}

/// Zero is a count, and nothing of anything is nothing.
pub proof fn lemma_zero(d: nat, x: Number)
    requires
        d > 0,
    ensures
        is_count(0),
        truncated(product(0, d, x)) == 0,
{
    lemma_rounded_exact(0);
    lemma_spacing_pos(0);
    lemma_pow2_pos(ONE_SHIFT as nat);
    assert(0nat / d == 0) by (nonlinear_arith)
        requires
            d > 0,
    ;
    assert(nearest(0, d) == 0) by {
        let step = d * spacing(0);
        assert(spacing(0) == 1);
        assert(step == d) by (nonlinear_arith)
            requires
                step == d * spacing(0),
                spacing(0) == 1,
        ;
        assert(0nat / step == 0 && 0nat % step == 0) by (nonlinear_arith)
            requires
                step > 0,
        ;
    }
    match x {
        Number::Finite { negative, units } => {
            assert(0nat * units == 0) by (nonlinear_arith);
            lemma_pow2_pos(OVERFLOW_SHIFT as nat);
            vstd::arithmetic::div_mod::lemma_basic_div(0, pow2(ONE_SHIFT as nat) as int);
        },
        _ => {},
    }
}

/// Scaling keeps the order of counts.
pub proof fn lemma_scale_monotone(n: nat, m: nat, d: nat, x: Number)
    requires
        n <= m,
        d > 0,
    ensures
        truncated(product(n, d, x)) <= truncated(product(m, d, x)),
{
    match x {
        Number::Finite { negative, units } => {
            assert(n * units <= m * units) by (nonlinear_arith)
                requires
                    n <= m,
            ;
            let a = nearest(n * units, d);
            let b = nearest(m * units, d);
            let one = pow2(ONE_SHIFT as nat);
            lemma_nearest_monotone(n * units, m * units, d);
            lemma_pow2_pos(ONE_SHIFT as nat);
            vstd::arithmetic::div_mod::lemma_div_is_ordered(a as int, b as int, one as int);
        },
        _ => {},
    }
}

/// A larger count is above whatever a smaller one is above.
pub proof fn lemma_whole_monotone(n: nat, m: nat, x: Number)
    requires
        n <= m,
    ensures
        above(whole(rounded(n)), x) ==> above(whole(rounded(m)), x),
{
    lemma_nearest_monotone(n, m, 1);
    let one = pow2(ONE_SHIFT as nat);
    assert(rounded(n) * one <= rounded(m) * one) by (nonlinear_arith)
        requires
            rounded(n) <= rounded(m),
    ;
}

/// A larger count over the same limit is a larger quotient.
pub proof fn lemma_quotient_monotone(n: nat, m: nat, limit: nat)
    requires
        n <= m,
        limit > 0,
    ensures
        ({
            let a = quotient(rounded(n), rounded(limit));
            let b = quotient(rounded(m), rounded(limit));
            &&& a is Finite && b is Finite
            &&& !a->Finite_negative && !b->Finite_negative
            &&& a->units <= b->units
        }),
{
    lemma_nearest_monotone(n, m, 1);
    lemma_rounded_exact(1);
    lemma_nearest_monotone(1, limit, 1);
    let one = pow2(ONE_SHIFT as nat);
    assert(rounded(n) * one <= rounded(m) * one) by (nonlinear_arith)
        requires
            rounded(n) <= rounded(m),
    ;
    lemma_nearest_monotone(rounded(n) * one, rounded(m) * one, rounded(limit));
}

/// A sum below `2^53` is exact.
pub proof fn lemma_plus_exact(a: nat, b: nat)
    ensures
        plus(a, b) < SIGNIFICAND_BOUND <==> a + b < SIGNIFICAND_BOUND,
        a + b < SIGNIFICAND_BOUND ==> plus(a, b) == a + b,
{
    if a + b < SIGNIFICAND_BOUND {
        lemma_rounded_exact(a + b);
    } else {
        lemma_pow2_values();
        lemma_rounded_scale(1, 53);
        lemma_rounded_exact(1);
        lemma_nearest_monotone(SIGNIFICAND_BOUND as nat, a + b, 1);
    }
}

/// A multiple of `2^k`, by a small factor, over anything times it is exact.
proof fn lemma_coarse(c: nat, k: nat, d: nat)
    requires
        c < SIGNIFICAND_BOUND,
        d > 0,
    ensures
        nearest((c * pow2(k)) * d, d) == c * pow2(k),
{
    lemma_rounded_scale(c, k);
    lemma_rounded_exact(c);
    lemma_nearest_cancel(c * pow2(k), 1, d);
    assert(1nat * d == d) by (nonlinear_arith);
}

/// Powers of two that stand between a unit and one.
proof fn lemma_coarse_values()
    ensures
        pow2(1030) > 0,
        pow2(ONE_SHIFT as nat) == pow2(44) * pow2(1030),
        pow2(44) == 0x1000_0000_0000,
        0x1_0000_0000 * pow2(1030) <= pow2(ONE_SHIFT as nat),
        0x100_0000_0000 * pow2(ONE_SHIFT as nat) < pow2(OVERFLOW_SHIFT as nat),
{
    vstd::arithmetic::power2::lemma2_to64();
    vstd::arithmetic::power2::lemma2_to64_rest();
    lemma_pow2_pos(1030);
    lemma_pow2_adds(44, 1030);
    lemma_pow2_adds(32, 1030);
    lemma_pow2_strictly_increases(1062, ONE_SHIFT as nat);
    lemma_pow2_adds(40, ONE_SHIFT as nat);
    lemma_pow2_strictly_increases((40 + ONE_SHIFT) as nat, OVERFLOW_SHIFT as nat);
}

/// A count that exceeds a fraction of a limit by one or more is told to do so.
proof fn lemma_over_threshold(n: nat, limit: nat, negative: bool, t: nat)
    requires
        0 < limit <= 0x1_0000_0000,
        t <= 0x100 * pow2(ONE_SHIFT as nat),
        negative ==> t == 0,
        n * pow2(ONE_SHIFT as nat) >= t * limit + pow2(ONE_SHIFT as nat),
    ensures
        ({
            let x = Number::Finite { negative, units: t };
            &&& above(whole(rounded(n)), product(rounded(limit), 1, x))
            &&& !at_most(quotient(rounded(n), rounded(limit)), x)
        }),
{
    let one = pow2(ONE_SHIFT as nat);
    let grain = pow2(1030);
    lemma_coarse_values();
    lemma_pow2_pos(ONE_SHIFT as nat);
    lemma_rounded_exact(limit);
    let part = t * limit;
    assert(limit * t == part) by (nonlinear_arith)
        requires
            part == t * limit,
    ;
    assert(part <= 0x100_0000_0000 * one) by (nonlinear_arith)
        requires
            part == t * limit,
            t <= 0x100 * one,
            limit <= 0x1_0000_0000,
    ;
    assert(n >= 1) by (nonlinear_arith)
        requires
            n * one >= part + one,
            one > 0,
    ;
    let k: nat = if n <= 0x100_0000_0000 {
        (n - 1) as nat
    } else {
        0x100_0000_0000
    };
    assert(part <= k * one) by (nonlinear_arith)
        requires
            n * one >= part + one,
            part <= 0x100_0000_0000 * one,
            k == n - 1 || k == 0x100_0000_0000,
    ;
    let r = rounded(n);
    lemma_nearest_monotone(k + 1, n, 1);
    lemma_rounded_exact(k + 1);
    assert((k + 1) * one <= r * one) by (nonlinear_arith)
        requires
            k + 1 <= r,
    ;
    assert((k + 1) * one == k * one + one) by (nonlinear_arith);
    // The product is no larger than `k`.
    lemma_nearest_monotone(part, k * one, 1);
    lemma_rounded_scale(k, ONE_SHIFT as nat);
    lemma_rounded_exact(k);
    assert(k * one <= 0x100_0000_0000 * one) by (nonlinear_arith)
        requires
            k <= 0x100_0000_0000,
    ;
    // The quotient is no smaller than the next multiple of `grain`.
    let c = t / grain + 1;
    lemma_fundamental_div_mod(t as int, grain as int);
    assert(t < c * grain <= t + grain) by (nonlinear_arith)
        requires
            t == grain * (t / grain) + t % grain,
            0 <= t % grain < grain,
            c == t / grain + 1,
    ;
    assert(c <= 0x100 * pow2(44) + 1) by (nonlinear_arith)
        requires
            c * grain <= t + grain,
            t <= 0x100 * (pow2(44) * grain),
            grain > 0,
    ;
    assert((c * grain) * limit <= part + one) by (nonlinear_arith)
        requires
            c * grain <= t + grain,
            part == t * limit,
            limit <= 0x1_0000_0000,
            0x1_0000_0000 * grain <= one,
    ;
    lemma_coarse(c, 1030, limit);
    lemma_nearest_monotone((c * grain) * limit, r * one, limit);
}

/// A count that stays under a fraction of a limit by one or more is told to do
/// so.
proof fn lemma_under_threshold(n: nat, limit: nat, negative: bool, t: nat)
    requires
        0 < limit <= 0x1_0000_0000,
        t <= 0x100 * pow2(ONE_SHIFT as nat),
        negative ==> t == 0,
        n * pow2(ONE_SHIFT as nat) + pow2(ONE_SHIFT as nat) <= t * limit,
    ensures
        ({
            let x = Number::Finite { negative, units: t };
            &&& !above(whole(rounded(n)), product(rounded(limit), 1, x))
            &&& at_most(quotient(rounded(n), rounded(limit)), x)
        }),
{
    let one = pow2(ONE_SHIFT as nat);
    let grain = pow2(1030);
    lemma_coarse_values();
    lemma_pow2_pos(ONE_SHIFT as nat);
    lemma_rounded_exact(limit);
    let part = t * limit;
    assert(limit * t == part) by (nonlinear_arith)
        requires
            part == t * limit,
    ;
    assert(part <= 0x100_0000_0000 * one) by (nonlinear_arith)
        requires
            part == t * limit,
            t <= 0x100 * one,
            limit <= 0x1_0000_0000,
    ;
    assert(t > 0) by (nonlinear_arith)
        requires
            part == t * limit,
            part >= one,
            one > 0,
    ;
    assert(n + 1 <= 0x100_0000_0000) by (nonlinear_arith)
        requires
            n * one + one <= part,
            part <= 0x100_0000_0000 * one,
            one > 0,
    ;
    lemma_rounded_exact(n);
    // The product is no smaller than `n + 1`.
    assert((n + 1) * one == n * one + one) by (nonlinear_arith);
    lemma_nearest_monotone((n + 1) * one, part, 1);
    lemma_nearest_monotone(part, 0x100_0000_0000 * one, 1);
    lemma_rounded_scale(n + 1, ONE_SHIFT as nat);
    lemma_rounded_scale(0x100_0000_0000, ONE_SHIFT as nat);
    lemma_rounded_exact(n + 1);
    lemma_rounded_exact(0x100_0000_0000);
    // The quotient is no larger than the last multiple of `grain`.
    let c = t / grain;
    lemma_fundamental_div_mod(t as int, grain as int);
    assert(t - grain < c * grain <= t) by (nonlinear_arith)
        requires
            t == grain * (t / grain) + t % grain,
            0 <= t % grain < grain,
            c == t / grain,
    ;
    assert(c <= 0x100 * pow2(44)) by (nonlinear_arith)
        requires
            c * grain <= t,
            t <= 0x100 * (pow2(44) * grain),
            grain > 0,
    ;
    assert((c * grain) * limit >= part - one) by (nonlinear_arith)
        requires
            t - grain < c * grain,
            part == t * limit,
            0 < limit <= 0x1_0000_0000,
            0x1_0000_0000 * grain <= one,
    ;
    lemma_coarse(c, 1030, limit);
    lemma_nearest_monotone(n * one, (c * grain) * limit, limit);
}

/// Whether a count exceeds a fraction of a limit: where it is at least one away
/// from it, comparing with the product and comparing the quotient both tell so.
pub proof fn lemma_threshold(n: nat, limit: nat, negative: bool, t: nat)
    requires
        0 < limit <= 0x1_0000_0000,
        t <= 0x100 * pow2(ONE_SHIFT as nat),
        negative ==> t == 0,
        n * pow2(ONE_SHIFT as nat) >= t * limit + pow2(ONE_SHIFT as nat) || n * pow2(
            ONE_SHIFT as nat,
        ) + pow2(ONE_SHIFT as nat) <= t * limit,
    ensures
        ({
            let x = Number::Finite { negative, units: t };
            let exceeds = n * pow2(ONE_SHIFT as nat) > t * limit;
            &&& above(whole(rounded(n)), product(rounded(limit), 1, x)) == exceeds
            &&& at_most(quotient(rounded(n), rounded(limit)), x) == !exceeds
        }),
{
    lemma_pow2_pos(ONE_SHIFT as nat);
    if n * pow2(ONE_SHIFT as nat) > t * limit {
        lemma_over_threshold(n, limit, negative, t);
    } else {
        lemma_under_threshold(n, limit, negative, t);
    }
}

// ---------------------------------------------------------------------------
// Powers of two
// ---------------------------------------------------------------------------

/// A count over `2^k`, times `2^e` units, is exact.
proof fn lemma_power_of_two_product(n: nat, k: nat, e: nat)
    requires
        is_count(n),
        k <= e <= ONE_SHIFT,
    ensures
        product(n, pow2(k), Number::Finite { negative: false, units: pow2(e) }) == (
        Number::Finite { negative: false, units: n * pow2((e - k) as nat) }),
        (n * pow2((e - k) as nat)) / pow2(ONE_SHIFT as nat) == n / pow2(
            (ONE_SHIFT + k - e) as nat,
        ),
{
    let j = (e - k) as nat;
    let one = pow2(ONE_SHIFT as nat);
    let part = n * pow2(j);
    lemma_pow2_adds(j, k);
    lemma_pow2_pos(k);
    lemma_pow2_pos(j);
    assert(n * (pow2(j) * pow2(k)) == part * pow2(k)) by (nonlinear_arith)
        requires
            part == n * pow2(j),
    ;
    lemma_nearest_cancel(part, 1, pow2(k));
    assert(1nat * pow2(k) == pow2(k)) by (nonlinear_arith);
    lemma_rounded_scale(n, j);
    lemma_pow2_values();
    lemma_pow2_adds(126, ONE_SHIFT as nat);
    if j < ONE_SHIFT {
        lemma_pow2_strictly_increases(j, ONE_SHIFT as nat);
    }
    lemma_pow2_strictly_increases((126 + ONE_SHIFT) as nat, OVERFLOW_SHIFT as nat);
    assert(part <= pow2(126) * one) by (nonlinear_arith)
        requires
            part == n * pow2(j),
            n <= pow2(126),
            pow2(j) <= one,
    ;
    let rest = (ONE_SHIFT - j) as nat;
    lemma_pow2_adds(rest, j);
    lemma_pow2_pos(rest);
    lemma_cancel(n, pow2(rest), pow2(j));
}

/// `1.0`, in units.
proof fn lemma_one()
    ensures
        number(0x3ff0_0000_0000_0000) == (Number::Finite {
            negative: false,
            units: pow2(ONE_SHIFT as nat),
        }),
{
    assert(0x3ff0_0000_0000_0000u64 / 0x10_0000_0000_0000 == 0x3ff);
    assert(0x3ff0_0000_0000_0000u64 % 0x10_0000_0000_0000 == 0);
    vstd::arithmetic::power2::lemma2_to64_rest();
    lemma_pow2_adds(52, 1022);
}

/// Quarter tokens scaled by `1.0` are as many tokens as they hold whole ones.
pub proof fn lemma_scale_by_one(quarters: nat)
    requires
        is_count(quarters),
    ensures
        truncated(product(quarters, 4, number(0x3ff0_0000_0000_0000))) == if quarters / 4
            > usize::MAX {
            usize::MAX as nat
        } else {
            quarters / 4
        },
{
    lemma_one();
    lemma_pow2_values();
    lemma_power_of_two_product(quarters, 2, ONE_SHIFT as nat);
}

// ---------------------------------------------------------------------------
// Rounding, told by whole numbers
// ---------------------------------------------------------------------------

/// What a bit pattern stands for is a number that rounding keeps.
pub proof fn lemma_number_kept(bits: u64)
    ensures
        number(bits) matches Number::Finite { units, .. } ==> rounded(units) == units,
{
    let exponent = (bits / 0x10_0000_0000_0000) % 0x800;
    let fraction = bits % 0x10_0000_0000_0000;
    if exponent == 0 {
        lemma_rounded_exact(fraction as nat);
    } else if exponent < 0x7ff {
        let significand = (0x10_0000_0000_0000 + fraction) as nat;
        lemma_rounded_exact(significand);
        lemma_rounded_scale(significand, (exponent - 1) as nat);
    }
}

/// A scaled count, cut down to a whole number, lies between the whole numbers
/// around the exact product: it is no less than any that the exact product
/// reaches, and no more than any that it does not exceed.
pub proof fn lemma_scaled(n: nat, d: nat, units: nat, k: nat)
    requires
        d > 0,
        k < SIGNIFICAND_BOUND,
        k <= usize::MAX,
    ensures
        ({
            let r = truncated(product(n, d, Number::Finite { negative: false, units }));
            let exact = n * units;
            let bound = (k * pow2(ONE_SHIFT as nat)) * d;
            &&& bound <= exact ==> k <= r
            &&& exact <= bound ==> r <= k
        }),
{
    let one = pow2(ONE_SHIFT as nat);
    let exact = n * units;
    let bound = (k * one) * d;
    lemma_pow2_pos(ONE_SHIFT as nat);
    lemma_coarse(k, ONE_SHIFT as nat, d);
    let found = nearest(exact, d);
    assert((k * one) / one == k) by {
        vstd::arithmetic::div_mod::lemma_div_multiples_vanish(k as int, one as int);
        assert(k * one == one * k) by (nonlinear_arith);
    }
    if bound <= exact {
        lemma_nearest_monotone(bound, exact, d);
        vstd::arithmetic::div_mod::lemma_div_is_ordered(
            (k * one) as int,
            found as int,
            one as int,
        );
    }
    if exact <= bound {
        lemma_nearest_monotone(exact, bound, d);
        vstd::arithmetic::div_mod::lemma_div_is_ordered(
            found as int,
            (k * one) as int,
            one as int,
        );
        vstd::arithmetic::power2::lemma2_to64_rest();
        lemma_pow2_adds(53, ONE_SHIFT as nat);
        lemma_pow2_strictly_increases((53 + ONE_SHIFT) as nat, OVERFLOW_SHIFT as nat);
        assert(k * one <= pow2(53) * one) by (nonlinear_arith)
            requires
                k <= pow2(53),
        ;
    }
}

/// A scaled count, cut down to a whole number, does not reach `k` where the exact
/// product stays under it by a millionth.
pub proof fn lemma_scaled_below(n: nat, d: nat, units: nat, k: nat)
    requires
        d > 0,
        k <= 0x1_0000_0000,
        0x10_0000 * (n * units) + pow2(ONE_SHIFT as nat) * d <= 0x10_0000 * ((k * pow2(
            ONE_SHIFT as nat,
        )) * d),
    ensures
        truncated(product(n, d, Number::Finite { negative: false, units })) < k,
{
    let one = pow2(ONE_SHIFT as nat);
    let grain = pow2(1054);
    let exact = n * units;
    vstd::arithmetic::power2::lemma2_to64();
    lemma_pow2_adds(20, 1054);
    lemma_pow2_pos(1054);
    lemma_pow2_pos(ONE_SHIFT as nat);
    assert(k > 0) by (nonlinear_arith)
        requires
            0x10_0000 * exact + one * d <= 0x10_0000 * ((k * one) * d),
            one > 0,
            d > 0,
    ;
    let c = (0x10_0000 * k - 1) as nat;
    let bound = (c * grain) * d;
    assert(exact <= bound) by (nonlinear_arith)
        requires
            0x10_0000 * exact + one * d <= 0x10_0000 * ((k * one) * d),
            one == 0x10_0000 * grain,
            c == 0x10_0000 * k - 1,
            bound == (c * grain) * d,
    ;
    assert(c * grain < k * one) by (nonlinear_arith)
        requires
            one == 0x10_0000 * grain,
            c == 0x10_0000 * k - 1,
            grain > 0,
    ;
    lemma_coarse(c, 1054, d);
    lemma_nearest_monotone(exact, bound, d);
    let found = nearest(exact, d);
    assert(found / one < k) by (nonlinear_arith)
        requires
            found < k * one,
            one > 0,
    ;
    lemma_coarse_values();
    assert(k * one <= 0x1_0000_0000 * one) by (nonlinear_arith)
        requires
            k <= 0x1_0000_0000,
    ;
}

/// A quotient of counts reaches a number wherever the exact quotient does, and
/// stays within it wherever that does. So does a count, compared with the
/// product.
pub proof fn lemma_reaches(n: nat, limit: nat, negative: bool, units: nat)
    requires
        n < SIGNIFICAND_BOUND,
        0 < limit < SIGNIFICAND_BOUND,
        rounded(units) == units,
        negative ==> units == 0,
    ensures
        ({
            let x = Number::Finite { negative, units };
            let one = pow2(ONE_SHIFT as nat);
            &&& n * one >= units * limit ==> at_most(x, quotient(rounded(n), rounded(limit)))
            &&& n * one <= units * limit ==> {
                &&& at_most(quotient(rounded(n), rounded(limit)), x)
                &&& !above(whole(rounded(n)), product(rounded(limit), 1, x))
            }
        }),
{
    let one = pow2(ONE_SHIFT as nat);
    lemma_rounded_exact(n);
    lemma_rounded_exact(limit);
    lemma_nearest_cancel(units, 1, limit);
    assert(1nat * limit == limit) by (nonlinear_arith);
    if n * one >= units * limit {
        lemma_nearest_monotone(units * limit, n * one, limit);
    }
    if n * one <= units * limit {
        lemma_nearest_monotone(n * one, units * limit, limit);
        assert(limit * units == units * limit) by (nonlinear_arith);
        lemma_nearest_monotone(n * one, limit * units, 1);
        lemma_rounded_scale(n, ONE_SHIFT as nat);
        if negative {
            assert(limit * units == 0) by (nonlinear_arith)
                requires
                    units == 0,
            ;
            lemma_rounded_exact(0);
            lemma_pow2_pos(OVERFLOW_SHIFT as nat);
        }
    }
}

/// A count that stays under a fraction of a limit by one or more has a quotient
/// strictly under it.
pub proof fn lemma_stays_under(n: nat, limit: nat, units: nat)
    requires
        0 < limit <= 0x1_0000_0000,
        units <= 0x100 * pow2(ONE_SHIFT as nat),
        n * pow2(ONE_SHIFT as nat) + pow2(ONE_SHIFT as nat) <= units * limit,
    ensures
        !at_most(
            Number::Finite { negative: false, units },
            quotient(rounded(n), rounded(limit)),
        ),
{
    let one = pow2(ONE_SHIFT as nat);
    let grain = pow2(1030);
    lemma_coarse_values();
    lemma_pow2_pos(ONE_SHIFT as nat);
    lemma_rounded_exact(limit);
    let part = units * limit;
    assert(part <= 0x100_0000_0000 * one) by (nonlinear_arith)
        requires
            part == units * limit,
            units <= 0x100 * one,
            limit <= 0x1_0000_0000,
    ;
    assert(n + 1 <= 0x100_0000_0000) by (nonlinear_arith)
        requires
            n * one + one <= part,
            part <= 0x100_0000_0000 * one,
            one > 0,
    ;
    lemma_rounded_exact(n);
    assert(units > 0) by (nonlinear_arith)
        requires
            part == units * limit,
            part >= one,
            one > 0,
    ;
    let u = (units - 1) as nat;
    let c = u / grain;
    lemma_fundamental_div_mod(u as int, grain as int);
    assert(u - grain < c * grain <= u) by (nonlinear_arith)
        requires
            u == grain * (u / grain) + u % grain,
            0 <= u % grain < grain,
            c == u / grain,
    ;
    assert(c <= 0x100 * pow2(44)) by (nonlinear_arith)
        requires
            c * grain <= u,
            u <= 0x100 * (pow2(44) * grain),
            grain > 0,
    ;
    assert((c * grain) * limit >= part - one) by (nonlinear_arith)
        requires
            units - grain <= c * grain,
            part == units * limit,
            0 < limit <= 0x1_0000_0000,
            0x1_0000_0000 * grain <= one,
    ;
    lemma_coarse(c, 1030, limit);
    lemma_nearest_monotone(n * one, (c * grain) * limit, limit);
}

/// What some bit patterns stand for, as fractions of one: `1.2`, `0.95`, `0.90`,
/// `0.85`, `0.75`, `0.70` and `0.50`, each as near as binary64 can hold it.
pub proof fn lemma_fractions()
    ensures
        ({
            let one = pow2(ONE_SHIFT as nat);
            let grain = pow2(1021);
            &&& one == 0x20_0000_0000_0000 * grain
            &&& grain > 0
            &&& number(0x3ff3_3333_3333_3333) matches Number::Finite { negative, units }
                && !negative && 10 * units + 4 * grain == 12 * one
            &&& number(0x3fee_6666_6666_6666) matches Number::Finite { negative, units }
                && !negative && 20 * units + 8 * grain == 19 * one
            &&& number(0x3fec_cccc_cccc_cccd) matches Number::Finite { negative, units }
                && !negative && 10 * units == 9 * one + 2 * grain
            &&& number(0x3feb_3333_3333_3333) matches Number::Finite { negative, units }
                && !negative && 20 * units + 4 * grain == 17 * one
            &&& number(0x3fe8_0000_0000_0000) matches Number::Finite { negative, units }
                && !negative && 4 * units == 3 * one
            &&& number(0x3fe6_6666_6666_6666) matches Number::Finite { negative, units }
                && !negative && 10 * units + 4 * grain == 7 * one
            &&& number(0x3fe0_0000_0000_0000) matches Number::Finite { negative, units }
                && !negative && 2 * units == one
        }),
{
    vstd::arithmetic::power2::lemma2_to64_rest();
    lemma_pow2_adds(53, 1021);
    lemma_pow2_pos(1021);
    lemma_pow2_unfold(1022);
    lemma_pattern(0x3ff3_3333_3333_3333, 0x3ff, 0x13_3333_3333_3333);
    lemma_pattern(0x3fee_6666_6666_6666, 0x3fe, 0x1e_6666_6666_6666);
    lemma_pattern(0x3fec_cccc_cccc_cccd, 0x3fe, 0x1c_cccc_cccc_cccd);
    lemma_pattern(0x3feb_3333_3333_3333, 0x3fe, 0x1b_3333_3333_3333);
    lemma_pattern(0x3fe8_0000_0000_0000, 0x3fe, 0x18_0000_0000_0000);
    lemma_pattern(0x3fe6_6666_6666_6666, 0x3fe, 0x16_6666_6666_6666);
    lemma_pattern(0x3fe0_0000_0000_0000, 0x3fe, 0x10_0000_0000_0000);
}

/// What the bit pattern of a positive number stands for, by its exponent and its
/// significand.
proof fn lemma_pattern(bits: u64, exponent: nat, significand: nat)
    requires
        0 < exponent < 0x7ff,
        0x10_0000_0000_0000 <= significand < 0x20_0000_0000_0000,
        bits == exponent * 0x10_0000_0000_0000 + significand - 0x10_0000_0000_0000,
    ensures
        number(bits) == (Number::Finite {
            negative: false,
            units: significand * pow2((exponent - 1) as nat),
        }),
{
    assert(bits / 0x10_0000_0000_0000 == exponent);
    assert(bits % 0x10_0000_0000_0000 == significand - 0x10_0000_0000_0000);
}

/// A count that is exactly 85% of a limit is not above `0.85`.
pub proof fn lemma_eighty_five_percent(n: nat, limit: nat)
    requires
        0 < limit < SIGNIFICAND_BOUND,
        20 * n == 17 * limit,
    ensures
        quotient(rounded(n), rounded(limit)) == number(0x3feb_3333_3333_3333),
{
    let one = pow2(ONE_SHIFT as nat);
    lemma_rounded_exact(n);
    lemma_rounded_exact(limit);
    lemma_nearest_cancel(n * one, limit, 20);
    lemma_nearest_cancel(17 * one, 20, limit);
    assert((n * one) * 20 == (17 * one) * limit) by (nonlinear_arith)
        requires
            20 * n == 17 * limit,
    ;
    assert(limit * 20 == 20 * limit);
    vstd::arithmetic::power2::lemma2_to64_rest();
    lemma_pow2_adds(54, 1020);
    lemma_pow2_unfold(1021);
    let whole: nat = 17 * 0x40_0000_0000_0000;
    assert(whole * pow2(1020) == 17 * one) by (nonlinear_arith)
        requires
            whole == 17 * 0x40_0000_0000_0000,
            one == 0x40_0000_0000_0000 * pow2(1020),
    ;
    lemma_nearest_scale(whole, 20, 1020);
    assert(spacing(15312238733059686) == 2) by {
        assert(spacing(7656119366529843) == 1);
    }
    assert(whole / 20 == 15312238733059686);
    assert(20 * spacing(whole / 20) == 40);
    assert(whole / 40 == 7656119366529843 && whole % 40 == 8);
    assert(nearest(whole, 20) == 15312238733059686);
    lemma_pattern(0x3feb_3333_3333_3333, 0x3fe, 0x1b_3333_3333_3333);
    assert(nearest(n * one, limit) == nearest(17 * one, 20));
    assert(nearest(17 * one, 20) == 15312238733059686 * pow2(1020));
    assert(0x1b_3333_3333_3333 * pow2(1021) == 15312238733059686 * pow2(1020));
}

} // verus!
