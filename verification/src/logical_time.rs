//! Logical time stamps.
//!
//! The federation's time representation is `HLAfloat64Time`: a time stamp is an
//! IEEE 754 double. It is kept here as the 64 bits of the double, which are
//! also its wire form. The order of two stamps and the sum of a time and an
//! interval are defined on those bits by what they stand for: a finite
//! non-negative stamp stands for a multiple of the smallest positive double,
//! and a sum is rounded to the nearest double, ties going to the even one.

use vstd::arithmetic::power2::pow2;
use vstd::prelude::*;

verus! {

/// The bits of positive infinity.
pub const INFINITY: u64 = 0x7ff0_0000_0000_0000;

/// The bits of negative zero; the other bits of a negative stamp follow it.
pub const NEGATIVE_ZERO: u64 = 0x8000_0000_0000_0000;

/// The number of doubles that share one exponent.
pub const STEPS: u64 = 0x0010_0000_0000_0000;

/// The stamp without its sign.
pub open spec fn magnitude(t: u64) -> int {
    if t >= NEGATIVE_ZERO {
        t - NEGATIVE_ZERO
    } else {
        t as int
    }
}

/// Whether the stamp is not a number.
pub open spec fn is_nan(t: u64) -> bool {
    magnitude(t) > INFINITY
}

/// Whether the stamp is a finite number.
pub open spec fn is_finite(t: u64) -> bool {
    magnitude(t) < INFINITY
}

/// The rank of a stamp among the numbers; both zeros have rank zero.
pub open spec fn rank(t: u64) -> int {
    if t >= NEGATIVE_ZERO {
        -magnitude(t)
    } else {
        magnitude(t)
    }
}

/// Whether stamp `a` is a number less than the number `b`.
pub open spec fn before(a: u64, b: u64) -> bool {
    !is_nan(a) && !is_nan(b) && rank(a) < rank(b)
}

/// Whether stamp `a` is a number less than or equal to the number `b`.
pub open spec fn not_after(a: u64, b: u64) -> bool {
    !is_nan(a) && !is_nan(b) && rank(a) <= rank(b)
}

/// Whether the stamp is finite and not below zero.
pub open spec fn is_duration(t: u64) -> bool {
    is_finite(t) && rank(t) >= 0
}

/// What the non-negative stamp with bits `b` stands for, as a multiple of the
/// smallest positive double.
pub open spec fn value(b: int) -> int {
    if b < STEPS {
        b
    } else {
        (STEPS + b % (STEPS as int)) * pow2((b / (STEPS as int) - 1) as nat)
    }
}

/// Whether `r` holds the bits of the double nearest to `s` smallest positive
/// doubles, a tie going to the even bits. Infinity counts as the double after
/// the largest finite one.
pub open spec fn nearest(s: int, r: int) -> bool {
    &&& 0 <= r <= INFINITY
    &&& r > 0 ==> {
        ||| 2 * s > value(r - 1) + value(r)
        ||| 2 * s == value(r - 1) + value(r) && r % 2 == 0
    }
    &&& r < INFINITY ==> {
        ||| 2 * s < value(r) + value(r + 1)
        ||| 2 * s == value(r) + value(r + 1) && r % 2 == 0
    }
}

/// Whether `r` is the double nearest to the exact sum of the non-negative
/// stamps `a` and `b`.
pub open spec fn nearest_sum(a: u64, b: u64, r: u64) -> bool {
    nearest(value(a as int) + value(b as int), r as int)
}

/// The sum of two finite stamps that are not below zero.
pub open spec fn plus(a: u64, b: u64) -> u64 {
    if a == NEGATIVE_ZERO {
        b
    } else if b == NEGATIVE_ZERO {
        a
    } else {
        choose|r: u64| nearest_sum(a, b, r)
    }
}

/// Whether the stamp is a finite number.
pub fn stamp_is_finite(t: u64) -> (r: bool)
    ensures
        r == is_finite(t),
{
    let m: u64 = if t >= NEGATIVE_ZERO { t - NEGATIVE_ZERO } else { t };
    m < INFINITY
}

/// Whether stamp `a` is a number less than the number `b`.
pub fn stamp_before(a: u64, b: u64) -> (r: bool)
    ensures
        r == before(a, b),
{
    let ma: u64 = if a >= NEGATIVE_ZERO { a - NEGATIVE_ZERO } else { a };
    let mb: u64 = if b >= NEGATIVE_ZERO { b - NEGATIVE_ZERO } else { b };
    if ma > INFINITY || mb > INFINITY {
        false
    } else if a >= NEGATIVE_ZERO {
        if b >= NEGATIVE_ZERO {
            mb < ma
        } else {
            ma > 0 || mb > 0
        }
    } else if b >= NEGATIVE_ZERO {
        false
    } else {
        ma < mb
    }
}

/// Whether stamp `a` is a number less than or equal to the number `b`.
pub fn stamp_not_after(a: u64, b: u64) -> (r: bool)
    ensures
        r == not_after(a, b),
{
    let ma: u64 = if a >= NEGATIVE_ZERO { a - NEGATIVE_ZERO } else { a };
    let mb: u64 = if b >= NEGATIVE_ZERO { b - NEGATIVE_ZERO } else { b };
    if ma > INFINITY || mb > INFINITY {
        false
    } else {
        !stamp_before(b, a)
    }
}

/// Whether the stamp is finite and not below zero.
pub fn stamp_is_duration(t: u64) -> (r: bool)
    ensures
        r == is_duration(t),
{
    t < INFINITY || t == NEGATIVE_ZERO
}

/// Successive bits stand for successively larger values.
proof fn lemma_value_step(b: int)
    requires
        0 <= b,
    ensures
        value(b) < value(b + 1),
        0 <= value(b),
{
    let e = b / (STEPS as int);
    let m = b % (STEPS as int);
    vstd::arithmetic::power2::lemma2_to64();
    if e >= 1 {
        let u = pow2((e - 1) as nat) as int;
        vstd::arithmetic::power2::lemma_pow2_pos((e - 1) as nat);
        if m + 1 < STEPS {
            assert((b + 1) / (STEPS as int) == e && (b + 1) % (STEPS as int) == m + 1);
            assert((STEPS + m + 1) * u == (STEPS + m) * u + u) by (nonlinear_arith);
        } else {
            assert((b + 1) / (STEPS as int) == e + 1 && (b + 1) % (STEPS as int) == 0);
            vstd::arithmetic::power2::lemma_pow2_unfold(e as nat);
            assert(pow2(e as nat) == 2 * u);
            assert((STEPS as int) * (2 * u) == (STEPS + m) * u + u) by (nonlinear_arith)
                requires
                    m + 1 == STEPS,
            ;
        }
        assert(0 <= (STEPS + m) * u) by (nonlinear_arith)
            requires
                0 <= m,
                0 <= u,
        ;
    } else {
        assert(b < STEPS);
        if b + 1 == STEPS {
            assert((b + 1) / (STEPS as int) == 1 && (b + 1) % (STEPS as int) == 0);
            assert(pow2(0) == 1);
        }
    }
}

/// Larger bits stand for larger values.
pub proof fn lemma_value_increases(a: int, b: int)
    requires
        0 <= a < b,
    ensures
        value(a) < value(b),
    decreases b - a,
{
    lemma_value_step(a);
    if a + 1 < b {
        lemma_value_increases(a + 1, b);
    }
}

/// A larger value is rounded to bits that are no smaller.
pub proof fn lemma_nearest_increases(s1: int, r1: int, s2: int, r2: int)
    requires
        nearest(s1, r1),
        nearest(s2, r2),
        s1 <= s2,
    ensures
        r1 <= r2,
{
    if r2 < r1 {
        if r2 + 1 < r1 {
            lemma_value_increases(r2, r1 - 1);
            lemma_value_increases(r2 + 1, r1);
        }
    }
}

/// Only one double is nearest to a value.
pub proof fn lemma_nearest_unique(s: int, r1: int, r2: int)
    requires
        nearest(s, r1),
        nearest(s, r2),
    ensures
        r1 == r2,
{
    lemma_nearest_increases(s, r1, s, r2);
    lemma_nearest_increases(s, r2, s, r1);
}

/// Every value has a nearest double at or above `r`, once it is not nearer to
/// the double below `r`.
proof fn lemma_nearest_from(s: int, r: int) -> (q: u64)
    requires
        0 <= r <= INFINITY,
        r > 0 ==> 2 * s > value(r - 1) + value(r) || 2 * s == value(r - 1) + value(r) && r % 2 == 0,
    ensures
        nearest(s, q as int),
    decreases INFINITY - r,
{
    if nearest(s, r) {
        r as u64
    } else {
        lemma_nearest_from(s, r + 1)
    }
}

/// The sum of two non-negative finite stamps is the double nearest to their
/// exact sum.
pub proof fn lemma_plus_is_nearest(a: u64, b: u64)
    requires
        is_duration(a),
        is_duration(b),
        a != NEGATIVE_ZERO,
        b != NEGATIVE_ZERO,
    ensures
        nearest_sum(a, b, plus(a, b)),
{
    let q = lemma_nearest_from(value(a as int) + value(b as int), 0);
    assert(nearest_sum(a, b, q));
}

/// The sum of two non-negative finite stamps is a non-negative number, perhaps
/// infinite.
pub proof fn plus_is_a_number(a: u64, b: u64)
    requires
        is_duration(a),
        is_duration(b),
    ensures
        !is_nan(plus(a, b)),
        rank(plus(a, b)) >= 0,
{
    if a != NEGATIVE_ZERO && b != NEGATIVE_ZERO {
        lemma_plus_is_nearest(a, b);
    }
}

/// Adding an interval keeps the order of two times.
pub proof fn plus_keeps_order(a: u64, b: u64, interval: u64)
    requires
        is_duration(a),
        is_duration(b),
        is_duration(interval),
        not_after(a, b),
    ensures
        not_after(plus(a, interval), plus(b, interval)),
{
    plus_is_a_number(a, interval);
    plus_is_a_number(b, interval);
    let a1: u64 = if a == NEGATIVE_ZERO { 0 } else { a };
    let b1: u64 = if b == NEGATIVE_ZERO { 0 } else { b };
    lemma_plus_zero(interval);
    if interval != NEGATIVE_ZERO {
        lemma_plus_is_nearest(a1, interval);
        lemma_plus_is_nearest(b1, interval);
        if a1 < b1 {
            lemma_value_increases(a1 as int, b1 as int);
        }
        lemma_nearest_increases(
            value(a1 as int) + value(interval as int),
            plus(a1, interval) as int,
            value(b1 as int) + value(interval as int),
            plus(b1, interval) as int,
        );
    }
}

/// Adding an interval never gives an earlier time.
pub proof fn plus_is_not_before(a: u64, interval: u64)
    requires
        is_duration(a),
        is_duration(interval),
    ensures
        not_after(a, plus(a, interval)),
{
    plus_is_a_number(a, interval);
    if a != NEGATIVE_ZERO && interval != NEGATIVE_ZERO {
        lemma_plus_is_nearest(a, interval);
        lemma_plus_zero(a);
        lemma_plus_is_nearest(0, a);
        lemma_value_not_negative(interval as int);
        lemma_nearest_increases(
            value(a as int),
            plus(0, a) as int,
            value(a as int) + value(interval as int),
            plus(a, interval) as int,
        );
    }
}

proof fn lemma_value_not_negative(b: int)
    requires
        0 <= b,
    ensures
        value(b) >= 0,
{
    lemma_value_step(b);
}

/// Zero plus a stamp is that stamp, but for the sign of a zero.
proof fn lemma_plus_zero(b: u64)
    requires
        is_duration(b),
    ensures
        b != NEGATIVE_ZERO ==> plus(0, b) == b,
        b == NEGATIVE_ZERO ==> plus(0, b) == 0,
{
    if b != NEGATIVE_ZERO {
        let s = value(0) + value(b as int);
        if b > 0 {
            lemma_value_increases(b - 1, b as int);
        }
        lemma_value_increases(b as int, b + 1);
        assert(nearest(s, b as int));
        lemma_plus_is_nearest(0, b);
        lemma_nearest_unique(s, b as int, plus(0, b) as int);
    }
}

/// What the bits made of an exponent step `e - 1` and a significand `q` stand
/// for.
proof fn lemma_value_of_parts(e: int, q: int)
    requires
        1 <= e,
        STEPS <= q <= 2 * STEPS || e == 1 && 0 <= q <= 2 * STEPS,
    ensures
        value((e - 1) * STEPS + q) == q * pow2((e - 1) as nat),
{
    let n = STEPS as int;
    let b = (e - 1) * n + q;
    let u = pow2((e - 1) as nat) as int;
    vstd::arithmetic::power2::lemma2_to64();
    if q < n {
        assert(b == q) by (nonlinear_arith)
            requires
                e == 1,
                b == (e - 1) * n + q,
        ;
        assert(q * u == q) by (nonlinear_arith)
            requires
                u == 1,
        ;
    } else if q < 2 * n {
        assert(b / n == e && b % n == q - n) by (nonlinear_arith)
            requires
                b == (e - 1) * n + q,
                n <= q < 2 * n,
                1 <= e,
        ;
        assert(b >= n) by (nonlinear_arith)
            requires
                b == (e - 1) * n + q,
                n <= q,
                1 <= e,
                0 <= n,
        ;
    } else {
        assert(b / n == e + 1 && b % n == 0) by (nonlinear_arith)
            requires
                b == (e - 1) * n + q,
                q == 2 * n,
                1 <= e,
                n > 0,
        ;
        assert(b >= n) by (nonlinear_arith)
            requires
                b == (e - 1) * n + q,
                n <= q,
                1 <= e,
                0 <= n,
        ;
        vstd::arithmetic::power2::lemma_pow2_unfold(e as nat);
        assert(n * (2 * u) == q * u) by (nonlinear_arith)
            requires
                q == 2 * n,
        ;
    }
}

/// The exponent step and the significand of non-negative finite bits.
fn split(x: u64) -> (r: (u64, u64))
    requires
        x < INFINITY,
    ensures
        1 <= r.0 <= 2046,
        r.1 < 2 * STEPS,
        r.1 >= STEPS || r.0 == 1,
        x == (r.0 - 1) * STEPS + r.1,
        value(x as int) == r.1 * pow2((r.0 - 1) as nat),
{
    let e: u64 = x / STEPS;
    let m: u64 = x % STEPS;
    let r: (u64, u64) = if e == 0 { (1, m) } else { (e, STEPS + m) };
    proof {
        lemma_value_of_parts(r.0 as int, r.1 as int);
    }
    r
}

/// Two to the power `d`.
fn power_of_two(d: u64) -> (r: u128)
    requires
        d <= 54,
    ensures
        r == pow2(d as nat),
{
    let mut r: u128 = 1;
    let mut i: u64 = 0;
    proof {
        vstd::arithmetic::power2::lemma2_to64();
        vstd::arithmetic::power2::lemma2_to64_rest();
    }
    while i < d
        invariant
            i <= d <= 54,
            r == pow2(i as nat),
        decreases d - i,
    {
        proof {
            vstd::arithmetic::power2::lemma_pow2_unfold((i + 1) as nat);
            vstd::arithmetic::power2::lemma2_to64_rest();
            if i < 54 {
                vstd::arithmetic::power2::lemma_pow2_strictly_increases(i as nat, 54);
            }
        }
        r = r * 2;
        i = i + 1;
    }
    r
}

/// A summand far below the other one does not move it to another double.
proof fn lemma_far_apart(ex: int, mx: int, ey: int, my: int)
    requires
        1 <= ey,
        ex - ey >= 54,
        STEPS <= mx < 2 * STEPS,
        0 <= my < 2 * STEPS,
        (ex - 1) * STEPS + mx < INFINITY,
    ensures
        nearest(
            mx * pow2((ex - 1) as nat) + my * pow2((ey - 1) as nat),
            (ex - 1) * STEPS + mx,
        ),
{
    let x = (ex - 1) * STEPS + mx;
    let u = pow2((ex - 1) as nat) as int;
    let w = pow2((ey - 1) as nat) as int;
    let f = pow2((ex - ey) as nat) as int;
    vstd::arithmetic::power2::lemma_pow2_adds((ex - ey) as nat, (ey - 1) as nat);
    vstd::arithmetic::power2::lemma2_to64_rest();
    vstd::arithmetic::power2::lemma_pow2_pos((ey - 1) as nat);
    if ex - ey > 54 {
        vstd::arithmetic::power2::lemma_pow2_strictly_increases(54, (ex - ey) as nat);
    }
    assert((ex - ey) as nat + (ey - 1) as nat == (ex - 1) as nat);
    assert(u == f * w);
    assert(2 * (my * w) < u) by (nonlinear_arith)
        requires
            u == f * w,
            f >= 0x40000000000000,
            w > 0,
            0 <= my < 2 * STEPS,
    ;
    assert(0 <= my * w) by (nonlinear_arith)
        requires
            0 <= my,
            0 < w,
    ;
    lemma_value_of_parts(ex, mx);
    lemma_value_of_parts(ex, mx + 1);
    assert((mx + 1) * u == mx * u + u) by (nonlinear_arith);
    assert(x > 0) by (nonlinear_arith)
        requires
            x == (ex - 1) * STEPS + mx,
            ex >= 1,
            mx > 0,
    ;
    lemma_value_increases(x - 1, x);
}

/// The significand of a sum, after at most one carry, fills its place.
proof fn lemma_quotient_range(
    mx: int,
    my: int,
    pd: int,
    p: int,
    n: int,
    ex: int,
    carry: int,
)
    requires
        0 <= mx < 2 * STEPS,
        0 <= my < 2 * STEPS,
        mx >= STEPS || ex == 1,
        ex == 1 ==> pd == 1,
        1 <= pd,
        n == mx * pd + my,
        carry == 1 && n >= 2 * STEPS * pd && p == 2 * pd || carry == 0 && n < 2 * STEPS * pd && p
            == pd,
    ensures
        0 <= n / p < 2 * STEPS,
        n / p >= STEPS || ex == 1 && carry == 0,
        n == (n / p) * p + n % p,
        0 <= n % p < p,
{
    let q = n / p;
    assert(n == q * p + n % p && 0 <= n % p < p) by (nonlinear_arith)
        requires
            p >= 1,
            q == n / p,
    ;
    assert(mx * pd <= (2 * STEPS - 1) * pd) by (nonlinear_arith)
        requires
            mx <= 2 * STEPS - 1,
            0 <= pd,
    ;
    assert(0 <= mx * pd) by (nonlinear_arith)
        requires
            0 <= mx,
            0 <= pd,
    ;
    assert(n < 2 * STEPS * p) by (nonlinear_arith)
        requires
            mx * pd <= (2 * STEPS - 1) * pd,
            my < 2 * STEPS,
            1 <= pd,
            n == mx * pd + my,
            p == 2 * pd || n < 2 * STEPS * pd && p == pd,
    ;
    assert(q < 2 * STEPS) by (nonlinear_arith)
        requires
            n < 2 * STEPS * p,
            q * p <= n,
            p >= 1,
    ;
    assert(q >= 0) by (nonlinear_arith)
        requires
            n >= 0,
            p >= 1,
            q == n / p,
    ;
    if carry == 1 || mx >= STEPS {
        assert(n >= STEPS * p) by (nonlinear_arith)
            requires
                n == mx * pd + my,
                0 <= my,
                1 <= pd,
                n >= 2 * STEPS * pd && p == 2 * pd || mx >= STEPS && p == pd,
        ;
        assert(q >= STEPS) by (nonlinear_arith)
            requires
                n >= STEPS * p,
                n < q * p + p,
                p >= 1,
        ;
    }
}

/// Rounding a significand up exactly when the rest demands it gives the nearest
/// double.
proof fn lemma_rounded(s: int, e: int, q: int, u: int, t: int, up: int, bits: int)
    requires
        1 <= e,
        u == pow2((e - 1) as nat),
        STEPS <= q < 2 * STEPS || e == 1 && 0 <= q < 2 * STEPS,
        2 * s == 2 * (q * u) + t,
        0 <= t < 2 * u,
        up == (if t > u || t == u && q % 2 == 1 {
            1int
        } else {
            0
        }),
        bits == (e - 1) * STEPS + q + up,
    ensures
        nearest(s, if bits >= INFINITY {
            INFINITY as int
        } else {
            bits
        }),
{
    let b = (e - 1) * STEPS + q;
    lemma_value_of_parts(e, q);
    lemma_value_of_parts(e, q + 1);
    assert((q + 1) * u == q * u + u) by (nonlinear_arith);
    assert((e - 1) * STEPS >= 0) by (nonlinear_arith)
        requires
            e >= 1,
    ;
    assert(b % 2 == q % 2) by (nonlinear_arith)
        requires
            b == (e - 1) * 0x0010_0000_0000_0000 + q,
    ;
    if bits > 0 {
        lemma_value_increases(bits - 1, bits);
    }
    lemma_value_increases(bits, bits + 1);
    if bits > INFINITY {
        lemma_value_increases(INFINITY - 1, INFINITY as int);
        lemma_value_increases(INFINITY - 1, bits - 1);
        lemma_value_increases(INFINITY as int, bits);
    }
}

/// The double nearest to the sum of two non-negative finite doubles, the first
/// of which is at least the second.
fn sum_ordered(x: u64, y: u64) -> (r: u64)
    requires
        y <= x < INFINITY,
    ensures
        nearest_sum(x, y, r),
{
    let (ex, mx) = split(x);
    let (ey, my) = split(y);
    let ghost w = pow2((ey - 1) as nat) as int;
    let ghost s = value(x as int) + value(y as int);
    proof {
        vstd::arithmetic::power2::lemma_pow2_pos((ey - 1) as nat);
        assert(ey <= ex) by (nonlinear_arith)
            requires
                (ey - 1) * STEPS + my <= (ex - 1) * STEPS + mx,
                mx < 2 * STEPS,
                my >= STEPS || ey == 1,
                1 <= ex,
        ;
    }
    let d: u64 = ex - ey;
    if d >= 54 {
        proof {
            lemma_far_apart(ex as int, mx as int, ey as int, my as int);
        }
        return x;
    }
    let pd: u128 = power_of_two(d);
    proof {
        vstd::arithmetic::power2::lemma2_to64();
        vstd::arithmetic::power2::lemma2_to64_rest();
        if d < 53 {
            vstd::arithmetic::power2::lemma_pow2_strictly_increases(d as nat, 53);
        }
        vstd::arithmetic::power2::lemma_pow2_pos(d as nat);
        assert(mx * pd <= 0x20_0000_0000_0000 * 0x20_0000_0000_0000) by (nonlinear_arith)
            requires
                0 <= mx < 2 * STEPS,
                0 <= pd <= 0x20_0000_0000_0000,
        ;
        assert(0 <= mx * pd) by (nonlinear_arith)
            requires
                0 <= mx,
                0 <= pd,
        ;
        assert(2 * STEPS * pd <= 0x20_0000_0000_0000 * 0x20_0000_0000_0000) by (nonlinear_arith)
            requires
                0 <= pd <= 0x20_0000_0000_0000,
        ;
    }
    let n: u128 = mx as u128 * pd + my as u128;
    let limit: u128 = 2 * STEPS as u128 * pd;
    let carry: u64 = if n >= limit { 1 } else { 0 };
    let p: u128 = if n >= limit { 2 * pd } else { pd };
    let q: u128 = n / p;
    let rest: u128 = n % p;
    let e: u64 = ex + carry;
    proof {
        lemma_quotient_range(
            mx as int,
            my as int,
            pd as int,
            p as int,
            n as int,
            ex as int,
            carry as int,
        );
        assert((e - 1) * STEPS <= 2046 * STEPS) by (nonlinear_arith)
            requires
                e <= 2047,
        ;
    }
    let up: u64 = if 2 * rest > p || (2 * rest == p && q % 2 == 1) { 1 } else { 0 };
    let bits: u64 = (e - 1) * STEPS + q as u64 + up;
    proof {
        let u = pow2((e - 1) as nat) as int;
        let t = 2 * rest * w;
        vstd::arithmetic::power2::lemma_pow2_adds(d as nat, (ey - 1) as nat);
        assert(d as nat + (ey - 1) as nat == (ex - 1) as nat);
        if carry == 1 {
            vstd::arithmetic::power2::lemma_pow2_unfold((e - 1) as nat);
        }
        assert(u == p * w) by (nonlinear_arith)
            requires
                pow2((ex - 1) as nat) == pd * w,
                carry == 1 && p == 2 * pd && u == 2 * pow2((ex - 1) as nat) || carry == 0 && p == pd
                    && u == pow2((ex - 1) as nat),
        ;
        assert(2 * s == 2 * (q * u) + t) by (nonlinear_arith)
            requires
                s == mx * pow2((ex - 1) as nat) + my * w,
                pow2((ex - 1) as nat) == pd * w,
                n == mx * pd + my,
                n == q * p + rest,
                u == p * w,
                t == 2 * rest * w,
        ;
        assert(0 <= t < 2 * u && (t > u <==> 2 * rest > p) && (t == u <==> 2 * rest == p))
            by (nonlinear_arith)
            requires
                t == 2 * rest * w,
                u == p * w,
                0 <= rest < p,
                w > 0,
        ;
        lemma_rounded(s, e as int, q as int, u, t, up as int, bits as int);
    }
    if bits >= INFINITY {
        INFINITY
    } else {
        bits
    }
}

/// The sum of two finite stamps that are not below zero.
pub fn stamp_plus(a: u64, b: u64) -> (r: u64)
    requires
        is_duration(a),
        is_duration(b),
    ensures
        r == plus(a, b),
{
    if a == NEGATIVE_ZERO {
        return b;
    }
    if b == NEGATIVE_ZERO {
        return a;
    }
    let r: u64 = if a >= b { sum_ordered(a, b) } else { sum_ordered(b, a) };
    proof {
        assert(nearest_sum(a, b, r));
        let c = plus(a, b);
        assert(nearest_sum(a, b, c));
        lemma_nearest_unique(value(a as int) + value(b as int), r as int, c as int);
    }
    r
}

} // verus!
