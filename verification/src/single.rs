//! Scaling whole numbers in single precision: `x * (limit / m)` with every step rounded as IEEE
//! 754 rounds it, to 24 significant bits, ties to even.

use vstd::prelude::*;

verus! {

/// Two to the power of `k`.
pub open spec fn two(k: nat) -> nat
    decreases k,
{
    if k == 0 {
        1
    } else {
        2 * two((k - 1) as nat)
    }
}

/// The whole number nearest to `n / d`, the even one of two.
pub open spec fn nearest(n: nat, d: nat) -> nat {
    let q = n / d;
    let r = n % d;
    if 2 * r < d {
        q
    } else if 2 * r > d {
        q + 1
    } else if q % 2 == 0 {
        q
    } else {
        q + 1
    }
}

/// How many low bits of `n` go beyond 24 significant ones.
pub open spec fn excess(n: nat) -> nat
    decreases n,
{
    if n < 0x100_0000 {
        0
    } else {
        1 + excess(n / 2)
    }
}

/// The single-precision number nearest to `n`.
pub open spec fn single(n: nat) -> nat {
    nearest(n, two(excess(n))) * two(excess(n))
}

/// How often `n` must be doubled before `n / m` has 24 significant bits.
pub open spec fn lift(n: nat, m: nat) -> nat
    decreases 0x100_0000 * m - n,
{
    if n == 0 || m == 0 || n / m >= 0x80_0000 {
        0
    } else {
        proof {
            assert(n < 0x80_0000 * m) by (nonlinear_arith)
                requires
                    n / m < 0x80_0000,
                    m > 0,
            ;
        }
        1 + lift(2 * n, m)
    }
}

/// The quotient `limit / m` in single precision is `factor / two(lift)`.
pub open spec fn factor(limit: nat, m: nat) -> nat {
    nearest(limit * two(lift(limit, m)), m)
}

/// The product of `x` and `limit / m` in single precision is this, divided by `two(lift)`.
pub open spec fn product(x: nat, limit: nat, m: nat) -> nat {
    single(single(x) * factor(limit, single(m)))
}

/// `x * (limit / m)`, at least 1, rounded to a whole number, halves up.
pub open spec fn scaled_round(x: nat, limit: nat, m: nat) -> nat {
    let k = two(lift(limit, single(m)));
    let p = product(x, limit, m);
    if p < k {
        1
    } else {
        (2 * p + k) / (2 * k)
    }
}

/// `x * (limit / m)`, at least 1, cut to a whole number.
pub open spec fn scaled_floor(x: nat, limit: nat, m: nat) -> nat {
    let k = two(lift(limit, single(m)));
    let p = product(x, limit, m);
    if p < k {
        1
    } else {
        p / k
    }
}

proof fn lemma_nearest(n: nat, d: nat)
    requires
        d > 0,
    ensures
        n / d <= nearest(n, d) <= n / d + 1,
        2 * (nearest(n, d) * d) <= 2 * n + d,
        2 * n <= 2 * (nearest(n, d) * d) + d,
{
    let q = n / d;
    let r = n % d;
    assert(n == q * d + r && 0 <= r < d) by (nonlinear_arith)
        requires
            d > 0,
            q == n / d,
            r == n % d,
    ;
    assert((q + 1) * d == q * d + d) by (nonlinear_arith);
}

proof fn lemma_two(k: nat)
    ensures
        two(k) >= 1,
    decreases k,
{
    if k > 0 {
        lemma_two((k - 1) as nat);
    }
}

proof fn lemma_excess(n: nat)
    ensures
        n / two(excess(n)) < 0x100_0000,
        excess(n) > 0 ==> n / two(excess(n)) >= 0x80_0000,
        excess(n) > 0 ==> n >= 0x80_0000 * two(excess(n)),
        n < 0x100_0000 * two(excess(n)),
    decreases n,
{
    let s = excess(n);
    if n >= 0x100_0000 {
        lemma_excess(n / 2);
        let t = two((s - 1) as nat);
        lemma_two((s - 1) as nat);
        assert(two(s) == 2 * t);
        assert(n / 2 < 0x100_0000 * t);
        assert(n < 0x100_0000 * (2 * t)) by {
            assert(n < 2 * (n / 2) + 2);
        }
        assert(n >= 0x80_0000 * (2 * t)) by {
            if s == 1 {
                assert(t == 1);
            } else {
                assert(n / 2 >= 0x80_0000 * t);
            }
        }
        assert(n / (2 * t) < 0x100_0000 && n / (2 * t) >= 0x80_0000) by (nonlinear_arith)
            requires
                t >= 1,
                0x80_0000 * (2 * t) <= n < 0x100_0000 * (2 * t),
        ;
    }
}

proof fn lemma_single(n: nat)
    ensures
        2 * single(n) <= 2 * n + two(excess(n)),
        2 * n <= 2 * single(n) + two(excess(n)),
        excess(n) == 0 ==> single(n) == n,
        single(n) <= 0x100_0000 * two(excess(n)),
        excess(n) > 0 ==> single(n) >= 0x80_0000 * two(excess(n)),
        0x100_0000 * two(excess(n)) <= (if n < 0x100_0000 {
            0x100_0000
        } else {
            2 * n
        }),
{
    let d = two(excess(n));
    lemma_two(excess(n));
    lemma_nearest(n, d);
    lemma_excess(n);
    let v = nearest(n, d);
    assert(v <= 0x100_0000);
    assert(v * d <= 0x100_0000 * d) by (nonlinear_arith)
        requires
            v <= 0x100_0000,
    ;
    if excess(n) > 0 {
        assert(v * d >= 0x80_0000 * d) by (nonlinear_arith)
            requires
                v >= 0x80_0000,
        ;
    } else {
        assert(d == 1);
        assert(n % 1 == 0 && n / 1 == n);
        assert(v == n);
        assert(v * 1 == v);
    }
}

proof fn lemma_excess_monotone(a: nat, b: nat)
    requires
        a <= b,
    ensures
        excess(a) <= excess(b),
        two(excess(a)) <= two(excess(b)),
    decreases b,
{
    if a >= 0x100_0000 {
        lemma_excess_monotone(a / 2, b / 2);
    } else {
        lemma_two(excess(b));
    }
}

proof fn lemma_two_step(a: nat, b: nat)
    requires
        a < b,
    ensures
        2 * two(a) <= two(b),
    decreases b,
{
    if a + 1 < b {
        lemma_two_step(a, (b - 1) as nat);
        lemma_two((b - 1) as nat);
    }
}

/// Law: rounding to single precision keeps the order of numbers.
pub proof fn law_single_is_monotone(a: nat, b: nat)
    requires
        a <= b,
    ensures
        single(a) <= single(b),
{
    lemma_excess_monotone(a, b);
    lemma_single(a);
    lemma_single(b);
    let sa = excess(a);
    let sb = excess(b);
    if sa == sb {
        let d = two(sa);
        lemma_two(sa);
        let x = nearest(a, d);
        let y = nearest(b, d);
        assert(x <= y) by {
            assert(a / d <= b / d) by (nonlinear_arith)
                requires
                    a <= b,
                    d > 0,
            ;
            if a / d == b / d {
                assert(a % d <= b % d) by (nonlinear_arith)
                    requires
                        a <= b,
                        d > 0,
                        a / d == b / d,
                ;
            } else {
                assert(x <= a / d + 1);
                assert(b / d <= y) by {
                    lemma_nearest(b, d);
                }
                lemma_nearest(a, d);
            }
        }
        assert(x * d <= y * d) by (nonlinear_arith)
            requires
                x <= y,
        ;
    } else {
        lemma_two_step(sa, sb);
    }
}

proof fn lemma_lift(n: nat, m: nat)
    requires
        n > 0,
        m > 0,
    ensures
        n * two(lift(n, m)) / m >= 0x80_0000,
        n * two(lift(n, m)) <= n || n * two(lift(n, m)) < 0x100_0000 * m,
    decreases 0x100_0000 * m - n,
{
    if n / m >= 0x80_0000 {
        assert(n * 1 == n);
    } else {
        assert(n < 0x80_0000 * m) by (nonlinear_arith)
            requires
                n / m < 0x80_0000,
                m > 0,
        ;
        lemma_lift(2 * n, m);
        let k = lift(2 * n, m);
        assert(2 * n * two(k) == n * (2 * two(k))) by (nonlinear_arith);
        assert(lift(n, m) == 1 + k);
        assert(two(1 + k) == 2 * two(k));
        lemma_two(k);
        if 2 * n * two(k) <= 2 * n {
            assert(2 * n * two(k) < 0x100_0000 * m);
        }
    }
}

proof fn lemma_product(x: nat, limit: nat, m: nat)
    requires
        x <= m,
        0 < limit <= 2048,
        limit < single(m),
    ensures
        2 * product(x, limit, m) < 2 * limit * two(lift(limit, single(m))) + two(
            lift(limit, single(m)),
        ),
{
    let mf = single(m);
    let xf = single(x);
    law_single_is_monotone(x, m);
    let k = two(lift(limit, mf));
    lemma_two(lift(limit, mf));
    let lk = limit * k;
    lemma_lift(limit, mf);
    let q = factor(limit, mf);
    lemma_nearest(lk, mf);
    let p = xf * q;
    // 2 q mf <= 2 lk + mf, and lk >= 2^23 mf.
    assert(lk >= 0x80_0000 * mf) by (nonlinear_arith)
        requires
            lk / mf >= 0x80_0000,
            mf > 0,
    ;
    assert(p <= q * mf) by (nonlinear_arith)
        requires
            p == xf * q,
            xf <= mf,
            q >= 0,
    ;
    assert(2 * p <= 2 * lk + mf);
    assert(0x100_0000 * p <= 0x100_0000 * lk + lk) by {
        assert(0x80_0000 * (2 * p) <= 0x80_0000 * (2 * lk + mf));
    }
    lemma_single(p);
    lemma_excess(p);
    let s = two(excess(p));
    lemma_two(excess(p));
    let v = single(p);
    if excess(p) == 0 {
        assert(v == p);
    } else {
        assert(p >= 0x80_0000 * s);
        assert(0x80_0000 * (2 * v) <= 0x80_0000 * (2 * p) + p);
    }
    assert(0x100_0000 * v <= 0x100_0000 * p + p);
    // v <= lk (1 + 2^-24)^2, and lk <= 2048 k.
    assert(lk <= 2048 * k) by (nonlinear_arith)
        requires
            lk == limit * k,
            limit <= 2048,
    ;
    let c: nat = 0x100_0000;
    assert(c * (c * v) <= c * (c * p) + c * p);
    assert(c * (c * p) <= c * (c * lk) + c * lk);
    assert(c * p <= c * lk + lk);
    assert(c * (c * v) <= c * (c * lk) + 2 * (c * lk) + lk);
    assert(2 * (c * (c * v)) < 2 * (c * (c * lk)) + c * (c * k)) by {
        assert(2 * (2 * (c * lk) + lk) <= 2 * (2 * (c * (2048 * k)) + 2048 * k));
        assert(2 * (2 * (c * (2048 * k)) + 2048 * k) < c * (c * k)) by {
            assert(c * (c * k) == 0x1_0000_0000_0000 * k);
        }
    }
    assert(2 * v < 2 * lk + k) by {
        assert(0x1_0000_0000_0000 * (2 * v) < 0x1_0000_0000_0000 * (2 * lk + k));
    }
    assert(2 * limit * k == 2 * lk) by (nonlinear_arith)
        requires
            lk == limit * k,
    ;
}

/// Law: scaling a number that is no larger than `m` by `limit / m` never gives more than `limit`,
/// whatever single precision rounds.
pub proof fn law_scaled_within_limit(x: nat, limit: nat, m: nat)
    requires
        x <= m,
        0 < limit <= 2048,
        limit < m,
    ensures
        1 <= scaled_round(x, limit, m) <= limit,
        1 <= scaled_floor(x, limit, m) <= limit,
{
    assert(limit < single(m)) by {
        lemma_single(m);
        if m >= 0x100_0000 {
            lemma_two(excess(m));
        }
    }
    lemma_product(x, limit, m);
    let k = two(lift(limit, single(m)));
    lemma_two(lift(limit, single(m)));
    let p = product(x, limit, m);
    if p >= k {
        assert((2 * p + k) / (2 * k) <= limit) by (nonlinear_arith)
            requires
                2 * p < 2 * limit * k + k,
                k >= 1,
        ;
        assert((2 * p + k) / (2 * k) >= 1) by (nonlinear_arith)
            requires
                p >= k,
                k >= 1,
        ;
        assert(p / k <= limit) by (nonlinear_arith)
            requires
                2 * p < 2 * limit * k + k,
                k >= 1,
        ;
        assert(p / k >= 1) by (nonlinear_arith)
            requires
                p >= k,
                k >= 1,
        ;
    }
}

fn nearest_of(n: u64, d: u64) -> (r: u64)
    requires
        d > 0,
        n < u64::MAX,
        d <= 0x4000_0000_0000_0000,
    ensures
        r == nearest(n as nat, d as nat),
{
    let q: u64 = n / d;
    let m: u64 = n % d;
    if 2 * m < d {
        q
    } else if 2 * m > d {
        proof {
            assert(q <= n) by (nonlinear_arith)
                requires
                    q == n / d,
                    d > 0,
            ;
        }
        q + 1
    } else if q % 2 == 0 {
        q
    } else {
        proof {
            assert(q <= n) by (nonlinear_arith)
                requires
                    q == n / d,
                    d > 0,
            ;
        }
        q + 1
    }
}

fn single_of(n: u64) -> (r: u64)
    requires
        n <= 0x200_0000_0000_0000,
    ensures
        r == single(n as nat),
        r <= 2 * n,
{
    let mut cur: u64 = n;
    let mut t: u64 = 1;
    let ghost mut s: nat = 0;
    proof {
        assert(1 * cur == cur);
    }
    while cur >= 0x100_0000
        invariant
            n <= 0x200_0000_0000_0000,
            t == two(s),
            t >= 1,
            excess(n as nat) == s + excess(cur as nat),
            t * cur <= n,
        decreases cur,
    {
        proof {
            assert(t <= 0x2_0000_0000) by (nonlinear_arith)
                requires
                    t * cur <= n,
                    cur >= 0x100_0000,
                    n <= 0x200_0000_0000_0000,
            ;
            let half = cur / 2;
            assert(2 * t * half <= n) by (nonlinear_arith)
                requires
                    t * cur <= n,
                    2 * half <= cur,
                    t >= 0,
            ;
            s = s + 1;
        }
        cur = cur / 2;
        t = 2 * t;
    }
    proof {
        assert(t == two(excess(n as nat)));
        lemma_single(n as nat);
        lemma_excess(n as nat);
        lemma_nearest(n as nat, t as nat);
        if n < 0x100_0000 {
        }
    }
    let v: u64 = nearest_of(n, t);
    proof {
        assert(v * t == single(n as nat));
        assert(single(n as nat) <= 2 * n);
    }
    v * t
}

fn scale(x: u32, limit: u32, m: u32) -> (r: (u64, u64))
    requires
        0 < limit <= 2048,
        m > 0,
    ensures
        r.0 == product(x as nat, limit as nat, m as nat),
        r.1 == two(lift(limit as nat, single(m as nat))),
        0 < r.1 <= 0x200_0000_0000_0000,
        r.0 <= 0x800_0000_0000_0000,
{
    let mf: u64 = single_of(m as u64);
    let xf: u64 = single_of(x as u64);
    let mut n: u64 = limit as u64;
    let mut k: u64 = 1;
    let ghost mut e: nat = 0;
    proof {
        lemma_single(m as nat);
        lemma_excess(m as nat);
        lemma_two(excess(m as nat));
        assert(mf > 0);
        law_single_is_monotone(m as nat, 0xFFFF_FFFF);
        law_single_is_monotone(x as nat, 0xFFFF_FFFF);
        assert(single(0xFFFF_FFFF) <= 0x1_0000_0000) by {
            lemma_single(0xFFFF_FFFF);
            reveal_with_fuel(excess, 10);
            assert(excess(0xFFFF_FFFF) == 8);
            reveal_with_fuel(two, 10);
        }
        assert(limit * 1 == limit);
    }
    while n / mf < 0x80_0000
        invariant
            0 < mf <= 0x1_0000_0000,
            0 < n <= 0x100_0000_0000_0000,
            0 < limit <= 2048,
            k == two(e),
            k >= 1,
            n == limit * k,
            lift(limit as nat, mf as nat) == e + lift(n as nat, mf as nat),
        decreases 0x100_0000 * mf - n,
    {
        proof {
            assert(n < 0x80_0000 * mf) by (nonlinear_arith)
                requires
                    n / mf < 0x80_0000,
                    mf > 0,
            ;
            assert(2 * n == limit * (2 * k)) by (nonlinear_arith)
                requires
                    n == limit * k,
            ;
            assert(k <= n) by (nonlinear_arith)
                requires
                    n == limit * k,
                    limit >= 1,
            ;
            e = e + 1;
        }
        n = 2 * n;
        k = 2 * k;
    }
    proof {
        assert(k <= n) by (nonlinear_arith)
            requires
                n == limit * k,
                limit >= 1,
        ;
        lemma_nearest(n as nat, mf as nat);
        lemma_lift(limit as nat, mf as nat);
    }
    let q: u64 = nearest_of(n, mf);
    proof {
        assert(q <= 0x100_0000) by {
            assert(n <= limit || n < 0x100_0000 * mf);
            if n < 0x100_0000 * mf {
                assert(n / mf < 0x100_0000) by (nonlinear_arith)
                    requires
                        n < 0x100_0000 * mf,
                        mf > 0,
                ;
            } else {
                assert(n / mf <= n) by (nonlinear_arith)
                    requires
                        mf > 0,
                ;
            }
        }
        assert(xf * q <= 0x1_0000_0000 * 0x100_0000) by (nonlinear_arith)
            requires
                xf <= 0x1_0000_0000,
                q <= 0x100_0000,
        ;
    }
    let p: u64 = single_of(xf * q);
    (p, k)
}

/// `x * (limit / m)` in single precision, at least 1, rounded to a whole number.
pub fn scale_round(x: u32, limit: u32, m: u32) -> (r: u32)
    requires
        x <= m,
        0 < limit <= 2048,
        limit < m,
    ensures
        r == scaled_round(x as nat, limit as nat, m as nat),
        1 <= r <= limit,
{
    let (p, k) = scale(x, limit, m);
    proof {
        law_scaled_within_limit(x as nat, limit as nat, m as nat);
    }
    if p < k {
        1
    } else {
        ((2 * p + k) / (2 * k)) as u32
    }
}

/// `x * (limit / m)` in single precision, at least 1, cut to a whole number.
pub fn scale_floor(x: u32, limit: u32, m: u32) -> (r: u32)
    requires
        x <= m,
        0 < limit <= 2048,
        limit < m,
    ensures
        r == scaled_floor(x as nat, limit as nat, m as nat),
        1 <= r <= limit,
{
    let (p, k) = scale(x, limit, m);
    proof {
        law_scaled_within_limit(x as nat, limit as nat, m as nat);
    }
    if p < k {
        1
    } else {
        (p / k) as u32
    }
}

/// Law: rounding a quotient goes to the nearer whole number, and from the middle to the even one.
pub proof fn law_nearest(n: nat, d: nat)
    requires
        d > 0,
    ensures
        2 * (nearest(n, d) * d) <= 2 * n + d,
        2 * n <= 2 * (nearest(n, d) * d) + d,
        2 * (n % d) == d ==> nearest(n, d) % 2 == 0,
        n % d == 0 ==> nearest(n, d) * d == n,
{
    lemma_nearest(n, d);
    vstd::arithmetic::div_mod::lemma_fundamental_div_mod(n as int, d as int);
    if n % d == 0 {
        assert(nearest(n, d) == n / d);
        vstd::arithmetic::mul::lemma_mul_is_commutative((n / d) as int, d as int);
    }
}

/// Law: whole numbers below 2 to the power of 24 are kept in single precision, and larger ones are off by
/// no more than one part in 2 to the power of 24.
pub proof fn law_single_is_close(n: nat)
    ensures
        n < 16777216 ==> single(n) == n,
        16777216 * single(n) <= 16777216 * n + n,
        16777216 * n <= 16777216 * single(n) + n,
{
    lemma_single(n);
    lemma_excess(n);
}

/// Law: of two lengths that are scaled alike the shorter does not come out longer.
pub proof fn law_scaling_keeps_the_order(a: nat, b: nat, limit: nat, m: nat)
    requires
        a <= b,
    ensures
        scaled_round(a, limit, m) <= scaled_round(b, limit, m),
        scaled_floor(a, limit, m) <= scaled_floor(b, limit, m),
{
    let k = two(lift(limit, single(m)));
    lemma_two(lift(limit, single(m)));
    let f = factor(limit, single(m));
    law_single_is_monotone(a, b);
    assert(single(a) * f <= single(b) * f) by (nonlinear_arith)
        requires
            single(a) <= single(b),
    ;
    law_single_is_monotone(single(a) * f, single(b) * f);
    let p = product(a, limit, m);
    let q = product(b, limit, m);
    assert(p <= q);
    assert((2 * p + k) / (2 * k) <= (2 * q + k) / (2 * k)) by (nonlinear_arith)
        requires
            p <= q,
            k >= 1,
    ;
    assert(p / k <= q / k) by (nonlinear_arith)
        requires
            p <= q,
            k >= 1,
    ;
    if q >= k {
        assert((2 * q + k) / (2 * k) >= 1) by (nonlinear_arith)
            requires
                q >= k,
                k >= 1,
        ;
        assert(q / k >= 1) by (nonlinear_arith)
            requires
                q >= k,
                k >= 1,
        ;
    }
}

/// Law: scaling keeps proportions: `x * (limit / m)` comes out right to within one, whatever single
/// precision rounds.
pub proof fn law_scaling_keeps_proportions(x: nat, limit: nat, m: nat)
    requires
        0 < x <= m < 16777216,
        0 < limit <= 2048,
        limit < m,
    ensures
        scaled_round(x, limit, m) * m <= x * limit + m,
        x * limit <= scaled_round(x, limit, m) * m + m,
        scaled_floor(x, limit, m) * m <= x * limit + m,
        x * limit <= scaled_floor(x, limit, m) * m + 2 * m,
{
    law_single_is_close(x);
    law_single_is_close(m);
    let k = two(lift(limit, m)) as int;
    let f = factor(limit, m) as int;
    let p = product(x, limit, m) as int;
    let a = (x * limit) as int;
    let mi = m as int;
    let xi = x as int;
    let li = limit as int;
    lemma_two(lift(limit, m));
    lemma_lift(limit, m);
    law_nearest((limit * two(lift(limit, m))) as nat, m);
    law_single_is_close((x * factor(limit, m)) as nat);
    assert(li * k >= 0x80_0000 * mi) by (nonlinear_arith)
        requires
            li * k / mi >= 0x80_0000,
            mi > 0,
    ;
    assert(k >= 4096 * mi) by (nonlinear_arith)
        requires
            li * k >= 0x80_0000 * mi,
            0 < li <= 2048,
            k >= 1,
    ;
    let b = xi * f * mi;
    let big_x = k * a;
    let y = k * mi;
    let z = mi * xi;
    let w = p * mi;
    assert(2 * b <= 2 * big_x + z && 2 * big_x <= 2 * b + z) by (nonlinear_arith)
        requires
            2 * (f * mi) <= 2 * (li * k) + mi,
            2 * (li * k) <= 2 * (f * mi) + mi,
            xi > 0,
            b == xi * f * mi,
            big_x == k * a,
            a == xi * li,
            z == mi * xi,
    ;
    assert(4096 * z <= y) by (nonlinear_arith)
        requires
            k >= 4096 * mi,
            xi <= mi,
            xi > 0,
            z == mi * xi,
            y == k * mi,
    ;
    assert(16777216 * w <= 16777216 * b + b && 16777216 * b <= 16777216 * w + b) by (nonlinear_arith)
        requires
            16777216 * p <= 16777216 * (xi * f) + xi * f,
            16777216 * (xi * f) <= 16777216 * p + xi * f,
            mi > 0,
            w == p * mi,
            b == xi * f * mi,
    ;
    assert(big_x <= 2048 * y) by (nonlinear_arith)
        requires
            big_x == k * a,
            y == k * mi,
            a == xi * li,
            0 < xi <= mi,
            0 < li <= 2048,
            k >= 1,
    ;
    let r = scaled_round(x, limit, m) as int;
    let s = scaled_floor(x, limit, m) as int;
    let rr = k * (r * mi);
    let ss = k * (s * mi);
    if p < k {
        assert(w <= y) by (nonlinear_arith)
            requires
                p < k,
                mi > 0,
                w == p * mi,
                y == k * mi,
        ;
        assert(rr == y && ss == y);
        assert(big_x >= 0) by (nonlinear_arith)
            requires
                big_x == k * a,
                a == xi * li,
                xi > 0,
                li > 0,
                k >= 1,
        ;
    } else {
        assert(2 * k * r <= 2 * p + k && 2 * p + k <= 2 * k * r + 2 * k) by (nonlinear_arith)
            requires
                r == (2 * p + k) / (2 * k),
                k >= 1,
        ;
        assert(2 * rr <= 2 * w + y && 2 * w <= 2 * rr + y) by (nonlinear_arith)
            requires
                2 * k * r <= 2 * p + k,
                2 * p + k <= 2 * k * r + 2 * k,
                mi > 0,
                rr == k * (r * mi),
                w == p * mi,
                y == k * mi,
        ;
        assert(k * s <= p && p <= k * s + k) by (nonlinear_arith)
            requires
                s == p / k,
                k >= 1,
        ;
        assert(ss <= w && w <= ss + y) by (nonlinear_arith)
            requires
                k * s <= p,
                p <= k * s + k,
                mi > 0,
                ss == k * (s * mi),
                w == p * mi,
                y == k * mi,
        ;
    }
    assert(rr <= big_x + y && big_x <= rr + y);
    assert(ss <= big_x + y && big_x <= ss + 2 * y);
    lemma_divided(k, r * mi, a, mi);
    lemma_divided(k, a, r * mi, mi);
    lemma_divided(k, s * mi, a, mi);
    lemma_divided(k, a, s * mi, 2 * mi);
    assert(k * (2 * mi) == 2 * y) by (nonlinear_arith)
        requires
            y == k * mi,
    ;
}

proof fn lemma_divided(k: int, a: int, b: int, c: int)
    requires
        k >= 1,
    ensures
        k * a <= k * b + k * c ==> a <= b + c,
{
    if a > b + c {
        assert(k * a > k * b + k * c) by (nonlinear_arith)
            requires
                a > b + c,
                k >= 1,
        ;
    }
}

} // verus!
