//! Greatest common divisor: the mathematical definition, the facts the
//! geometry needs, and the call into the `gcd` crate that computes it.

use vstd::prelude::*;

verus! {

/// Euclid's definition of the greatest common divisor of two naturals,
/// with `spec_gcd(a, 0) == a` (hence `spec_gcd(0, 0) == 0`).
pub open spec fn spec_gcd(a: nat, b: nat) -> nat
    decreases b,
{
    if b == 0 {
        a
    } else {
        spec_gcd(b, a % b)
    }
}

/// Relies on gcd::binary_u32: the greatest common divisor of two `u32`
/// values, zero only when both inputs are zero.
#[verifier::external_body]
pub(crate) fn gcd_u32(a: u32, b: u32) -> (r: u32)
    ensures
        r as nat == spec_gcd(a as nat, b as nat),
{
    gcd::binary_u32(a, b)
}

/// The greatest common divisor is zero exactly when both arguments are.
pub proof fn lemma_gcd_zero(a: nat, b: nat)
    ensures
        spec_gcd(a, b) == 0 <==> (a == 0 && b == 0),
    decreases b,
{
    if b == 0 {
    } else {
        lemma_gcd_zero(b, a % b);
    }
}

/// The greatest common divisor divides both of its arguments.
pub proof fn lemma_gcd_divides(a: nat, b: nat)
    requires
        spec_gcd(a, b) != 0,
    ensures
        a % spec_gcd(a, b) == 0,
        b % spec_gcd(a, b) == 0,
    decreases b,
{
    let g = spec_gcd(a, b);
    if b == 0 {
        vstd::arithmetic::div_mod::lemma_mod_self_0(g as int);
        assert(b % g == 0);
    } else {
        lemma_gcd_zero(b, a % b);
        lemma_gcd_divides(b, a % b);
        assert(g == spec_gcd(b, a % b));
        vstd::arithmetic::div_mod::lemma_fundamental_div_mod(a as int, b as int);
        vstd::arithmetic::div_mod::lemma_fundamental_div_mod(b as int, g as int);
        vstd::arithmetic::div_mod::lemma_fundamental_div_mod((a % b) as int, g as int);
        let q = a as int / b as int;
        let kb = b as int / g as int;
        let kr = (a % b) as int / g as int;
        assert(a as int == (kb * q + kr) * g as int) by (nonlinear_arith)
            requires
                a as int == b as int * q + (a % b) as int,
                b as int == g as int * kb,
                (a % b) as int == g as int * kr,
        ;
        vstd::arithmetic::div_mod::lemma_mod_multiples_basic(kb * q + kr, g as int);
    }
}

/// A divisor can be cancelled against the division it is exact for:
/// if `d` divides `x` then `d * (x / d) == x`.
pub proof fn lemma_div_exact(x: int, d: int)
    requires
        d > 0,
        x % d == 0,
    ensures
        d * (x / d) == x,
{
    vstd::arithmetic::div_mod::lemma_fundamental_div_mod(x, d);
}

} // verus!
