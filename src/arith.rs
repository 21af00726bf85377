//! Greatest common divisor by Euclid's algorithm.

use vstd::arithmetic::div_mod::{lemma_fundamental_div_mod, lemma_mod_multiples_vanish};
use vstd::prelude::*;

verus! {

/// `d` is a positive common divisor of `a` and `b`.
pub open spec fn common_divisor(d: int, a: int, b: int) -> bool {
    d > 0 && a % d == 0 && b % d == 0
}

/// `g` is the greatest common divisor of `a` and `b`.
pub open spec fn is_gcd(g: int, a: int, b: int) -> bool {
    &&& common_divisor(g, a, b)
    &&& forall|d: int| #[trigger] common_divisor(d, a, b) ==> d <= g
}

/// Where `d` divides `n`, it divides `m` exactly when it divides `m % n`.
proof fn lemma_divisor_of_remainder(d: int, n: int, m: int)
    requires
        d > 0,
        n > 0,
        m >= 0,
        n % d == 0,
    ensures
        m % d == (m % n) % d,
{
    lemma_fundamental_div_mod(m, n);
    lemma_fundamental_div_mod(n, d);
    let q = m / n;
    let k = n / d;
    assert(n * q == d * (k * q)) by (nonlinear_arith)
        requires
            n == d * k,
    ;
    lemma_mod_multiples_vanish(k * q, m % n, d);
}

/// A positive divisor of a positive number is at most that number.
proof fn lemma_divisor_le(d: int, g: int)
    requires
        d > 0,
        g > 0,
        g % d == 0,
    ensures
        d <= g,
{
    lemma_fundamental_div_mod(g, d);
    let k = g / d;
    assert(d <= g) by (nonlinear_arith)
        requires
            g == d * k,
            d > 0,
            g > 0,
    ;
}

/// The greatest common divisor of two nonzero numbers.
pub fn gcd(n: u64, m: u64) -> (r: u64)
    requires
        n != 0,
        m != 0,
    ensures
        is_gcd(r as int, n as int, m as int),
{
    let ghost n0 = n as int;
    let ghost m0 = m as int;
    let mut n = n;
    let mut m = m;
    while m != 0
        invariant
            n > 0,
            forall|d: int|
                common_divisor(d, n0, m0) <==> #[trigger] common_divisor(d, n as int, m as int),
        decreases m,
    {
        let ghost (n1, m1) = (n as int, m as int);
        if m < n {
            let t = m;
            m = n;
            n = t;
        }
        let ghost before = m as int;
        assert forall|d: int| #[trigger] common_divisor(d, n1, m1) <==> common_divisor(
            d,
            n as int,
            before,
        ) by {}
        m = m % n;
        assert forall|d: int|
            common_divisor(d, n0, m0) <==> #[trigger] common_divisor(
                d,
                n as int,
                m as int,
            ) by {
            if d > 0 && (n as int) % d == 0 {
                lemma_divisor_of_remainder(d, n as int, before);
            }
            assert(common_divisor(d, n0, m0) <==> common_divisor(d, n1, m1));
        }
    }
    assert(common_divisor(n as int, n as int, 0)) by {
        assert(n as int % n as int == 0);
    }
    assert forall|d: int| #[trigger] common_divisor(d, n0, m0) implies d <= n by {
        assert(common_divisor(d, n as int, 0));
        lemma_divisor_le(d, n as int);
    }
    n
}

/// Checked addition on `u8`: `10 + 20` fits and gives `30`, `100 + 200`
/// overflows and gives nothing.
pub fn check_ope() -> (r: (Option<u8>, Option<u8>))
    ensures
        r == (Some(30u8), None::<u8>),
{
    (10u8.checked_add(20), 100u8.checked_add(200))
}

} // verus!
