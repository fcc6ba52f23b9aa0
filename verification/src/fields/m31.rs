//! Arithmetic in the prime field of order `2^31 - 1`.
//!
//! An element is held as a `u32` between zero and the modulus, both ends included: drawing an
//! element from a hash keeps 31 bits and may leave the modulus itself, a second name of zero.

use vstd::arithmetic::div_mod::{
    lemma_add_mod_noop, lemma_mod_multiples_vanish, lemma_small_mod,
};
use vstd::prelude::*;

verus! {

/// The field's modulus, `2^31 - 1`.
pub const P: u32 = 0x7fff_ffff;

/// A number that can stand for a field element: at most the modulus.
pub open spec fn is_m31(v: int) -> bool {
    0 <= v <= P
}

/// One subtraction of the modulus, where it fits.
pub open spec fn partial_reduce(v: int) -> int {
    if v >= P {
        v - P
    } else {
        v
    }
}

/// The sum of two elements.
pub open spec fn m31_add(a: int, b: int) -> int {
    partial_reduce(a + b)
}

/// The difference of two elements.
pub open spec fn m31_sub(a: int, b: int) -> int {
    partial_reduce(a + P - b)
}

/// The additive inverse of an element.
pub open spec fn m31_neg(a: int) -> int {
    partial_reduce(P - a)
}

/// The product of two elements.
pub open spec fn m31_mul(a: int, b: int) -> int {
    (a * b) % (P as int)
}

/// Adds two elements.
pub fn add_m31(a: u32, b: u32) -> (r: u32)
    requires
        is_m31(a as int),
        is_m31(b as int),
    ensures
        r == m31_add(a as int, b as int),
        r == (if a + b >= 0x7fff_ffff {
            a + b - 0x7fff_ffff
        } else {
            a + b
        }),
        is_m31(r as int),
{
    let sum: u32 = a + b;
    if sum >= P {
        sum - P
    } else {
        sum
    }
}

/// Subtracts the second element from the first.
pub fn sub_m31(a: u32, b: u32) -> (r: u32)
    requires
        is_m31(a as int),
        is_m31(b as int),
    ensures
        r == m31_sub(a as int, b as int),
        r == (if a >= b {
            a - b
        } else {
            a - b + 0x7fff_ffff
        }),
        is_m31(r as int),
{
    let lifted: u32 = a + P - b;
    if lifted >= P {
        lifted - P
    } else {
        lifted
    }
}

/// Negates an element.
pub fn neg_m31(a: u32) -> (r: u32)
    requires
        is_m31(a as int),
    ensures
        r == m31_neg(a as int),
        r == (if a == 0 {
            0
        } else {
            0x7fff_ffff - a
        }),
        is_m31(r as int),
{
    let lifted: u32 = P - a;
    if lifted >= P {
        lifted - P
    } else {
        lifted
    }
}

/// Multiplies two elements.
pub fn mul_m31(a: u32, b: u32) -> (r: u32)
    requires
        is_m31(a as int),
        is_m31(b as int),
    ensures
        r == m31_mul(a as int, b as int),
        r == (a * b) % 0x7fff_ffff,
        is_m31(r as int),
{
    assert(a * b <= P * P) by (nonlinear_arith)
        requires
            0 <= a <= P,
            0 <= b <= P,
    ;
    let product: u64 = (a as u64) * (b as u64);
    (product % (P as u64)) as u32
}

/// One subtraction of the modulus keeps the residue class.
pub proof fn lemma_partial_reduce_mod(v: int)
    ensures
        partial_reduce(v) % (P as int) == v % (P as int),
{
    lemma_mod_multiples_vanish(-1, v, P as int);
}

/// The four operations are those of the integers modulo the prime, whichever name of zero an
/// operand bears.
pub proof fn m31_operations_are_modular(a: int, b: int)
    requires
        is_m31(a),
        is_m31(b),
    ensures
        m31_add(a, b) % (P as int) == (a + b) % (P as int),
        m31_sub(a, b) % (P as int) == (a - b) % (P as int),
        m31_neg(a) % (P as int) == (-a) % (P as int),
        m31_mul(a, b) % (P as int) == (a * b) % (P as int),
{
    lemma_partial_reduce_mod(a + b);
    lemma_partial_reduce_mod(a + P - b);
    lemma_partial_reduce_mod(P - a);
    lemma_mod_multiples_vanish(1, a - b, P as int);
    lemma_mod_multiples_vanish(1, -a, P as int);
    lemma_small_mod(m31_mul(a, b) as nat, P as nat);
}

/// Subtracting an element undoes adding it.
pub proof fn m31_sub_undoes_add(a: int, b: int)
    requires
        0 <= a < P,
        is_m31(b),
    ensures
        m31_sub(m31_add(a, b), b) == a,
{
}

/// An element and its negative add up to zero.
pub proof fn m31_neg_is_additive_inverse(a: int)
    requires
        is_m31(a),
    ensures
        m31_add(a, m31_neg(a)) % (P as int) == 0,
{
    m31_operations_are_modular(a, m31_neg(a));
    lemma_partial_reduce_mod(P - a);
    lemma_add_mod_noop(a, m31_neg(a), P as int);
    lemma_add_mod_noop(a, P - a, P as int);
}

/// Results are below the modulus, but for the sum of the modulus with itself and the modulus less
/// zero, which are the modulus.
pub proof fn m31_results_are_reduced(a: int, b: int)
    requires
        is_m31(a),
        is_m31(b),
    ensures
        0 <= m31_add(a, b) <= 0x7fff_ffff,
        m31_add(a, b) == 0x7fff_ffff ==> a == 0x7fff_ffff && b == 0x7fff_ffff,
        0 <= m31_sub(a, b) <= 0x7fff_ffff,
        m31_sub(a, b) == 0x7fff_ffff ==> a == 0x7fff_ffff && b == 0,
        0 <= m31_neg(a) < 0x7fff_ffff,
        0 <= m31_mul(a, b) < 0x7fff_ffff,
{
}

/// Multiplication distributes over addition, and one is neutral, up to multiples of the modulus.
pub proof fn m31_mul_distributes(a: int, b: int, c: int)
    requires
        is_m31(a),
        is_m31(b),
        is_m31(c),
    ensures
        m31_mul(a, m31_add(b, c)) % 0x7fff_ffff == (m31_mul(a, b) + m31_mul(a, c)) % 0x7fff_ffff,
        m31_mul(a, 1) % 0x7fff_ffff == a % 0x7fff_ffff,
{
    let p = P as int;
    lemma_partial_reduce_mod(b + c);
    vstd::arithmetic::div_mod::lemma_mul_mod_noop_right(a, m31_add(b, c), p);
    vstd::arithmetic::div_mod::lemma_mul_mod_noop_right(a, b + c, p);
    vstd::arithmetic::mul::lemma_mul_is_distributive_add(a, b, c);
    lemma_add_mod_noop(a * b, a * c, p);
}

} // verus!
