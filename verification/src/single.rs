//! Single-precision rounding, carried out on whole numbers.
//!
//! Window sizes, cell counts and vertex positions are single-precision
//! quantities. A positive quotient is rounded to twenty-four significant bits,
//! ties going to the even significand. Counted in a unit small enough, every
//! quantity of this crate and its rounded value are whole numbers, so that the
//! rounding is integer arithmetic.
use vstd::arithmetic::div_mod::{lemma_fundamental_div_mod, lemma_fundamental_div_mod_converse};
use vstd::arithmetic::power2::{lemma2_to64, lemma_pow2_pos, lemma_pow2_unfold, pow2};
use vstd::prelude::*;

verus! {

/// Two to the number of significant bits.
pub const SIGNIFICANDS: u128 = 0x100_0000;

/// The whole number nearest to `n / d`; of two equally near, the even one.
pub open spec fn half_even(n: nat, d: nat) -> nat {
    let q = n / d;
    let r = n % d;
    if 2 * r < d || (2 * r == d && q % 2 == 0) {
        q
    } else {
        q + 1
    }
}

/// The single-precision number nearest to `n / d`, where both are counted in
/// units of which `n / d` holds enough to fill the significand, or where
/// `n / d` is whole.
pub open spec fn nearest(n: nat, d: nat) -> nat
    decreases n - d,
    when d > 0
{
    if n < SIGNIFICANDS * d {
        half_even(n, d)
    } else {
        2 * nearest(n, 2 * d)
    }
}

/// What rounding gives is a single: a whole number of at most twenty-four
/// significant bits.
pub proof fn law_nearest_is_a_single(n: nat, d: nat)
    requires
        d > 0,
    ensures
        exists|m: nat, j: nat| m <= 0x100_0000 && nearest(n, d) == #[trigger] (m * pow2(j)),
    decreases n - d,
{
    lemma2_to64();
    if n < SIGNIFICANDS * d {
        lemma_half_even_at_most(n, d, 0x100_0000);
        let m = nearest(n, d);
        assert(m * pow2(0) == m) by (nonlinear_arith)
            requires
                pow2(0) == 1,
        ;
    } else {
        law_nearest_is_a_single(n, 2 * d);
        let (m, j) = choose|m: nat, j: nat|
            m <= 0x100_0000 && nearest(n, 2 * d) == #[trigger] (m * pow2(j));
        lemma_pow2_unfold(j + 1);
        assert(m * pow2(j + 1) == 2 * (m * pow2(j))) by (nonlinear_arith)
            requires
                pow2(j + 1) == 2 * pow2(j),
        ;
    }
}

/// No single lies nearer to `n / d` than what rounding gives.
pub proof fn law_no_single_is_nearer(n: nat, d: nat, m: nat, j: nat)
    requires
        d > 0,
        m <= 0x100_0000,
    ensures
        ({
            let rounded = nearest(n, d) * d - n;
            let other = m * pow2(j) * d - n;
            &&& rounded <= other || rounded <= -other
            &&& -rounded <= other || -rounded <= -other
        }),
    decreases n - d,
{
    let r = nearest(n, d);
    let v = m * pow2(j);
    if n < SIGNIFICANDS * d {
        lemma_half_even_nearest(n, d, v);
    } else {
        let h = nearest(n, 2 * d);
        assert(r * d == h * (2 * d)) by (nonlinear_arith)
            requires
                r == 2 * h,
        ;
        if j == 0 {
            lemma2_to64();
            law_no_single_is_nearer(n, 2 * d, 0x80_0000, 0);
            assert(0x80_0000 * pow2(0) * (2 * d) == SIGNIFICANDS * d) by (nonlinear_arith)
                requires
                    pow2(0) == 1,
            ;
            assert(v * d <= SIGNIFICANDS * d) by (nonlinear_arith)
                requires
                    v == m * pow2(j),
                    pow2(j) == 1,
                    m <= SIGNIFICANDS,
            ;
        } else {
            lemma_pow2_unfold(j);
            let k = (j - 1) as nat;
            assert(v * d == m * pow2(k) * (2 * d)) by (nonlinear_arith)
                requires
                    v == m * pow2(j),
                    pow2(j) == 2 * pow2(k),
            ;
            law_no_single_is_nearer(n, 2 * d, m, k);
        }
    }
}

/// A quotient halfway between two neighbouring singles, `k` and `k + 1` times
/// `2^j`, goes to the one with the even significand.
pub proof fn law_ties_go_to_even(n: nat, d: nat, k: nat, j: nat)
    requires
        d > 0,
        k < 0x100_0000,
        j > 0 ==> k >= 0x80_0000,
        2 * n == (2 * k + 1) * pow2(j) * d,
    ensures
        nearest(n, d) == (if k % 2 == 0 {
            k
        } else {
            k + 1
        }) * pow2(j),
    decreases j,
{
    let e = if k % 2 == 0 {
        k
    } else {
        k + 1
    };
    if j == 0 {
        lemma2_to64();
        assert((2 * k + 1) * pow2(0) * d == 2 * (k * d) + d && e * pow2(0) == e)
            by (nonlinear_arith)
            requires
                pow2(0) == 1,
        ;
        let r = (n - k * d) as nat;
        assert(2 * r == d);
        assert(n == k * d + r);
        lemma_fundamental_div_mod_converse(n as int, d as int, k as int, r as int);
        assert(k * d + d <= SIGNIFICANDS * d) by (nonlinear_arith)
            requires
                k < SIGNIFICANDS,
                d > 0,
        ;
    } else {
        lemma_pow2_unfold(j);
        let i = (j - 1) as nat;
        lemma_pow2_pos(i);
        assert((2 * k + 1) * pow2(j) * d == (2 * k + 1) * pow2(i) * (2 * d) && e * pow2(j) == 2 * (
        e * pow2(i))) by (nonlinear_arith)
            requires
                pow2(j) == 2 * pow2(i),
        ;
        assert((2 * k + 1) * pow2(j) * d >= 2 * (SIGNIFICANDS * d)) by (nonlinear_arith)
            requires
                2 * k + 1 >= SIGNIFICANDS,
                pow2(j) >= 2,
                d > 0,
        ;
        law_ties_go_to_even(n, 2 * d, k, i);
    }
}

/// Rounding goes by the quotient alone.
pub proof fn law_nearest_goes_by_the_quotient(n: nat, d: nat, i: nat)
    requires
        d > 0,
    ensures
        nearest(n * pow2(i), d * pow2(i)) == nearest(n, d),
    decreases i,
{
    if i == 0 {
        lemma2_to64();
    } else {
        let k = (i - 1) as nat;
        lemma_pow2_unfold(i);
        lemma_pow2_pos(k);
        law_nearest_goes_by_the_quotient(n, d, k);
        let (a, b) = (n * pow2(k), d * pow2(k));
        assert(n * pow2(i) == 2 * a && d * pow2(i) == 2 * b && b > 0) by (nonlinear_arith)
            requires
                pow2(i) == 2 * pow2(k),
                pow2(k) > 0,
                d > 0,
                a == n * pow2(k),
                b == d * pow2(k),
        ;
        lemma_nearest_doubled(a, b);
    }
}

/// A quotient that fills the significand is rounded alike in every finer unit.
pub proof fn law_nearest_in_a_finer_unit(n: nat, d: nat, i: nat)
    requires
        d > 0,
        n == 0 || 0x80_0000 * d <= n,
    ensures
        nearest(n * pow2(i), d) == nearest(n, d) * pow2(i),
    decreases i,
{
    lemma2_to64();
    if i == 0 {
        assert(n * pow2(0) == n && nearest(n, d) * pow2(0) == nearest(n, d)) by (nonlinear_arith)
            requires
                pow2(0) == 1,
        ;
    } else if n == 0 {
        assert(n * pow2(i) == 0) by (nonlinear_arith)
            requires
                n == 0,
        ;
        assert(nearest(0, d) == 0);
        assert(nearest(n, d) * pow2(i) == 0) by (nonlinear_arith)
            requires
                nearest(n, d) == 0,
        ;
    } else {
        let k = (i - 1) as nat;
        lemma_pow2_unfold(i);
        lemma_pow2_pos(k);
        law_nearest_in_a_finer_unit(n, d, k);
        let a = n * pow2(k);
        assert(n * pow2(i) == 2 * a && a >= n && nearest(n, d) * pow2(i) == 2 * (nearest(n, d)
            * pow2(k))) by (nonlinear_arith)
            requires
                pow2(i) == 2 * pow2(k),
                pow2(k) > 0,
                a == n * pow2(k),
        ;
        lemma_nearest_doubled(a, d);
    }
}

/// A whole number is rounded alike in every finer unit.
pub proof fn law_whole_number_in_a_finer_unit(n: nat, i: nat)
    ensures
        nearest(n * pow2(i), 1) == nearest(n, 1) * pow2(i),
{
    lemma2_to64();
    if n <= SIGNIFICANDS {
        lemma_nearest_exact(n * pow2(i), n, i);
        lemma_nearest_exact(n, n, 0);
    } else {
        law_nearest_in_a_finer_unit(n, 1, i);
    }
}

/// A whole number is rounded by no more than one part in two to the
/// twenty-fourth.
pub proof fn lemma_nearest_whole_error(n: nat)
    ensures
        (nearest(n, 1) - n) * 0x100_0000 <= n,
        (n - nearest(n, 1)) * 0x100_0000 <= n,
{
    if 0x80_0000 <= n {
        lemma_nearest_error(n, 1);
    } else {
        lemma_half_even_error(n, 1);
    }
}

proof fn lemma_nearest_doubled(n: nat, d: nat)
    requires
        d > 0,
    ensures
        nearest(2 * n, 2 * d) == nearest(n, d),
    decreases n - d,
{
    if n < SIGNIFICANDS * d {
        lemma_fundamental_div_mod(n as int, d as int);
        let (q, r) = (n / d, n % d);
        assert(2 * n == q * (2 * d) + 2 * r) by (nonlinear_arith)
            requires
                n == d * q + r,
        ;
        lemma_fundamental_div_mod_converse((2 * n) as int, (2 * d) as int, q as int, (2 * r) as int);
    } else {
        lemma_nearest_doubled(n, 2 * d);
    }
}

proof fn lemma_half_even_nearest(n: nat, d: nat, v: nat)
    requires
        d > 0,
    ensures
        ({
            let rounded = half_even(n, d) * d - n;
            let other = v * d - n;
            &&& rounded <= other || rounded <= -other
            &&& -rounded <= other || -rounded <= -other
        }),
{
    lemma_fundamental_div_mod(n as int, d as int);
    let q = n / d;
    assert((q + 1) * d == d * q + d && q * d == d * q) by (nonlinear_arith);
    if v <= q {
        assert(v * d <= d * q) by (nonlinear_arith)
            requires
                v <= q,
        ;
    } else {
        assert(v * d >= d * q + d) by (nonlinear_arith)
            requires
                v >= q + 1,
        ;
    }
}

/// Rounding never passes a number that it can leave as it is: a quotient of at
/// least `m * 2^j`, with `m` no more than the significand holds, stays so.
pub proof fn lemma_nearest_at_least(n: nat, d: nat, m: nat, j: nat)
    requires
        d > 0,
        m <= SIGNIFICANDS,
        m * pow2(j) * d <= n,
    ensures
        m * pow2(j) <= nearest(n, d),
    decreases n - d,
{
    if n < SIGNIFICANDS * d {
        lemma_half_even_at_least(n, d, m * pow2(j));
    } else if j == 0 {
        lemma2_to64();
        assert(m * pow2(0) == m && 0x80_0000 * pow2(0) * (2 * d) == SIGNIFICANDS * d)
            by (nonlinear_arith)
            requires
                pow2(0) == 1,
        ;
        lemma_nearest_at_least(n, 2 * d, 0x80_0000, 0);
    } else {
        lemma_pow2_unfold(j);
        let k = (j - 1) as nat;
        assert(m * pow2(j) == 2 * (m * pow2(k)) && m * pow2(j) * d == m * pow2(k) * (2 * d))
            by (nonlinear_arith)
            requires
                pow2(j) == 2 * pow2(k),
        ;
        lemma_nearest_at_least(n, 2 * d, m, k);
    }
}

/// The mirror image of [`lemma_nearest_at_least`].
pub proof fn lemma_nearest_at_most(n: nat, d: nat, m: nat, j: nat)
    requires
        d > 0,
        m <= SIGNIFICANDS,
        n <= m * pow2(j) * d,
    ensures
        nearest(n, d) <= m * pow2(j),
    decreases n - d,
{
    if n < SIGNIFICANDS * d {
        lemma_half_even_at_most(n, d, m * pow2(j));
    } else if j == 0 {
        lemma2_to64();
        assert(m * pow2(0) == m && m * pow2(0) * d == m * d && 0x80_0000 * pow2(0) * (2 * d)
            == SIGNIFICANDS * d) by (nonlinear_arith)
            requires
                pow2(0) == 1,
        ;
        assert(m == SIGNIFICANDS) by (nonlinear_arith)
            requires
                m <= SIGNIFICANDS,
                SIGNIFICANDS * d <= n,
                n <= m * d,
                d > 0,
        ;
        lemma_nearest_at_most(n, 2 * d, 0x80_0000, 0);
    } else {
        lemma_pow2_unfold(j);
        let k = (j - 1) as nat;
        assert(m * pow2(j) == 2 * (m * pow2(k)) && m * pow2(j) * d == m * pow2(k) * (2 * d))
            by (nonlinear_arith)
            requires
                pow2(j) == 2 * pow2(k),
        ;
        lemma_nearest_at_most(n, 2 * d, m, k);
    }
}

/// A quotient that fills the significand is rounded by no more than one part
/// in two to the twenty-fourth.
pub proof fn lemma_nearest_error(n: nat, d: nat)
    requires
        d > 0,
        0x80_0000 * d <= n,
    ensures
        (nearest(n, d) * d - n) * SIGNIFICANDS <= n,
        (n - nearest(n, d) * d) * SIGNIFICANDS <= n,
    decreases n - d,
{
    let r = nearest(n, d);
    if n < SIGNIFICANDS * d {
        lemma_half_even_error(n, d);
    } else {
        lemma_nearest_error(n, 2 * d);
        let h = nearest(n, 2 * d);
        assert(r * d == h * (2 * d)) by (nonlinear_arith)
            requires
                r == 2 * h,
        ;
    }
}

/// A whole number whose significand fits is left as it is.
pub proof fn lemma_nearest_exact(n: nat, m: nat, j: nat)
    requires
        m <= SIGNIFICANDS,
        n == m * pow2(j),
    ensures
        nearest(n, 1) == n,
{
    lemma_nearest_at_least(n, 1, m, j);
    lemma_nearest_at_most(n, 1, m, j);
}

/// Rounding a whole number, or a quotient that fills the significand, adds no
/// more than a sixteenth.
pub proof fn lemma_nearest_growth(n: nat, d: nat)
    requires
        d > 0,
        d == 1 || 0x80_0000 * d <= n,
    ensures
        16 * (nearest(n, d) * d) <= 17 * n,
{
    if 0x80_0000 * d <= n {
        lemma_nearest_error(n, d);
    } else {
        lemma_half_even_error(n, 1);
    }
}

/// Rounding keeps the order of two numbers.
pub proof fn lemma_nearest_monotone(n: nat, m: nat, d: nat)
    requires
        d > 0,
        n <= m,
    ensures
        nearest(n, d) <= nearest(m, d),
    decreases m - d,
{
    lemma2_to64();
    if m < SIGNIFICANDS * d {
        lemma_half_even_monotone(n, m, d);
    } else if n < SIGNIFICANDS * d {
        assert(SIGNIFICANDS * pow2(0) * d == SIGNIFICANDS * d) by (nonlinear_arith)
            requires
                pow2(0) == 1,
        ;
        lemma_nearest_at_most(n, d, SIGNIFICANDS as nat, 0);
        lemma_nearest_at_least(m, d, SIGNIFICANDS as nat, 0);
    } else {
        lemma_nearest_monotone(n, m, 2 * d);
    }
}

proof fn lemma_half_even_at_least(n: nat, d: nat, m: nat)
    requires
        d > 0,
        m * d <= n,
    ensures
        m <= half_even(n, d),
{
    lemma_fundamental_div_mod(n as int, d as int);
    let q = n / d;
    let r = n % d;
    if m > q {
        assert(m * d >= d * q + d) by (nonlinear_arith)
            requires
                m >= q + 1,
                d > 0,
        ;
    }
}

proof fn lemma_half_even_at_most(n: nat, d: nat, m: nat)
    requires
        d > 0,
        n <= m * d,
    ensures
        half_even(n, d) <= m,
{
    lemma_fundamental_div_mod(n as int, d as int);
    let q = n / d;
    let r = n % d;
    assert(q < m || (q == m && r == 0)) by (nonlinear_arith)
        requires
            n <= m * d,
            n == d * q + r,
            0 <= r < d,
    ;
}

proof fn lemma_half_even_error(n: nat, d: nat)
    requires
        d > 0,
    ensures
        2 * (half_even(n, d) * d - n) <= d,
        2 * (n - half_even(n, d) * d) <= d,
{
    lemma_fundamental_div_mod(n as int, d as int);
    let q = n / d;
    assert((q + 1) * d == d * q + d && q * d == d * q) by (nonlinear_arith);
}

proof fn lemma_half_even_monotone(n: nat, m: nat, d: nat)
    requires
        d > 0,
        n <= m,
    ensures
        half_even(n, d) <= half_even(m, d),
{
    lemma_fundamental_div_mod(n as int, d as int);
    lemma_fundamental_div_mod(m as int, d as int);
    let p = n / d;
    let q = m / d;
    assert(p < q || (p == q && n % d <= m % d)) by (nonlinear_arith)
        requires
            n <= m,
            n == d * p + n % d,
            m == d * q + m % d,
            0 <= n % d < d,
            0 <= m % d < d,
    ;
}

/// Computes [`nearest`].
pub fn round(n: u128, d: u128) -> (r: u128)
    requires
        0 < d <= 0x1_0000_0000_0000_0000,
        n <= u128::MAX / 8,
    ensures
        r == nearest(n as nat, d as nat),
{
    let mut scale: u128 = 1;
    let mut unit: u128 = d;
    while n >= SIGNIFICANDS * unit
        invariant
            0 < d <= 0x1_0000_0000_0000_0000,
            n <= u128::MAX / 8,
            unit == d * scale,
            unit == d || unit * 2 <= n,
            unit > 0,
            scale <= unit,
            SIGNIFICANDS * unit <= 2 * n || unit == d,
            nearest(n as nat, d as nat) == scale * nearest(n as nat, unit as nat),
        decreases n - unit,
    {
        assert(2 * unit == d * (2 * scale)) by (nonlinear_arith)
            requires
                unit == d * scale,
        ;
        assert(scale * (2 * nearest(n as nat, (2 * unit) as nat)) == (2 * scale) * nearest(
            n as nat,
            (2 * unit) as nat,
        )) by (nonlinear_arith);
        scale = 2 * scale;
        unit = 2 * unit;
    }
    let q: u128 = n / unit;
    let r: u128 = n % unit;
    assert(q * unit + r == n) by {
        lemma_fundamental_div_mod(n as int, unit as int);
        vstd::arithmetic::mul::lemma_mul_is_commutative(q as int, unit as int);
    }
    assert(q <= n && (q + 1) * scale <= n + unit) by (nonlinear_arith)
        requires
            q * unit + r == n,
            0 < scale <= unit,
            q >= 0,
            r >= 0,
    ;
    assert(q * scale <= (q + 1) * scale) by (nonlinear_arith);
    if 2 * r < unit || (2 * r == unit && q % 2 == 0) {
        assert(q * scale == scale * q) by (nonlinear_arith);
        q * scale
    } else {
        assert((q + 1) * scale == scale * (q + 1)) by (nonlinear_arith);
        (q + 1) * scale
    }
}

} // verus!
