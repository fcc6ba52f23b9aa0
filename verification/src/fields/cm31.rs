//! Arithmetic in the complex extension `a + bi` of the Mersenne-31 field, with `i * i = -1`.

use super::m31::{
    is_m31, m31_add, m31_mul, m31_operations_are_modular, m31_sub, P,
};
use vstd::arithmetic::div_mod::{
    lemma_add_mod_noop, lemma_mod_twice, lemma_mul_mod_noop, lemma_mul_mod_noop_left,
    lemma_mul_mod_noop_right, lemma_small_mod, lemma_sub_mod_noop,
};
use vstd::arithmetic::mul::{
    lemma_mul_is_associative, lemma_mul_is_distributive_add,
    lemma_mul_is_distributive_add_other_way, lemma_mul_is_distributive_sub,
    lemma_mul_is_distributive_sub_other_way,
};
use vstd::prelude::*;

verus! {

/// A complex element: the real part, then the imaginary part.
#[derive(Clone, Copy, Debug, PartialEq, Eq, Structural)]
pub struct CM31(pub u32, pub u32);

impl CM31 {
    /// Both parts can stand for field elements.
    pub open spec fn valid(self) -> bool {
        is_m31(self.0 as int) && is_m31(self.1 as int)
    }

    /// The element is zero in the field, under either name of zero.
    pub open spec fn is_field_zero(self) -> bool {
        self.0 as int % (P as int) == 0 && self.1 as int % (P as int) == 0
    }
}

/// The real part of the product, a residue.
pub open spec fn product_real(x: CM31, y: CM31) -> int {
    (x.0 * y.0 - x.1 * y.1) % (P as int)
}

/// The imaginary part of the product, a residue.
pub open spec fn product_imag(x: CM31, y: CM31) -> int {
    (x.0 * y.1 + x.1 * y.0) % (P as int)
}

/// The product of two complex elements.
pub open spec fn cm31_mul(x: CM31, y: CM31) -> CM31 {
    CM31(product_real(x, y) as u32, product_imag(x, y) as u32)
}

/// The product does not depend on the order of its factors.
pub proof fn cm31_mul_commutes(x: CM31, y: CM31)
    ensures
        cm31_mul(x, y) == cm31_mul(y, x),
{
    assert(x.0 * y.0 == y.0 * x.0) by (nonlinear_arith);
    assert(x.1 * y.1 == y.1 * x.1) by (nonlinear_arith);
    assert(x.0 * y.1 == y.1 * x.0) by (nonlinear_arith);
    assert(x.1 * y.0 == y.0 * x.1) by (nonlinear_arith);
}

/// Taking residues before a product and a difference changes nothing.
proof fn lemma_residues_in_difference(a: int, b: int, c: int, d: int)
    ensures
        ((a % (P as int)) * b - (c % (P as int)) * d) % (P as int) == (a * b - c * d) % (P as int),
        (b * (a % (P as int)) - d * (c % (P as int))) % (P as int) == (b * a - d * c) % (P as int),
{
    let p = P as int;
    lemma_mul_mod_noop_left(a, b, p);
    lemma_mul_mod_noop_left(c, d, p);
    lemma_sub_mod_noop((a % p) * b, (c % p) * d, p);
    lemma_sub_mod_noop(a * b, c * d, p);
    lemma_mul_mod_noop_right(b, a, p);
    lemma_mul_mod_noop_right(d, c, p);
    lemma_sub_mod_noop(b * (a % p), d * (c % p), p);
    lemma_sub_mod_noop(b * a, d * c, p);
}

/// Taking residues before a product and a sum changes nothing.
proof fn lemma_residues_in_sum(a: int, b: int, c: int, d: int)
    ensures
        ((a % (P as int)) * b + (c % (P as int)) * d) % (P as int) == (a * b + c * d) % (P as int),
        (b * (a % (P as int)) + d * (c % (P as int))) % (P as int) == (b * a + d * c) % (P as int),
{
    let p = P as int;
    lemma_mul_mod_noop_left(a, b, p);
    lemma_mul_mod_noop_left(c, d, p);
    lemma_add_mod_noop((a % p) * b, (c % p) * d, p);
    lemma_add_mod_noop(a * b, c * d, p);
    lemma_mul_mod_noop_right(b, a, p);
    lemma_mul_mod_noop_right(d, c, p);
    lemma_add_mod_noop(b * (a % p), d * (c % p), p);
    lemma_add_mod_noop(b * a, d * c, p);
}

/// Multiplying out a sum or a difference of two products.
proof fn lemma_triple_products(a: int, c: int, e: int, b: int, d: int)
    ensures
        (a * c - b * d) * e == a * (c * e) - b * (d * e),
        (a * c + b * d) * e == a * (c * e) + b * (d * e),
{
    lemma_mul_is_distributive_sub_other_way(e, a * c, b * d);
    lemma_mul_is_distributive_add_other_way(e, a * c, b * d);
    lemma_mul_is_associative(a, c, e);
    lemma_mul_is_associative(b, d, e);
}

/// The product does not depend on how its factors are grouped.
pub proof fn cm31_mul_associates(x: CM31, y: CM31, z: CM31)
    ensures
        cm31_mul(cm31_mul(x, y), z) == cm31_mul(x, cm31_mul(y, z)),
{
    let (a, b, c, d, e, f) = (
        x.0 as int,
        x.1 as int,
        y.0 as int,
        y.1 as int,
        z.0 as int,
        z.1 as int,
    );
    lemma_residues_in_difference(a * c - b * d, e, a * d + b * c, f);
    lemma_residues_in_sum(a * c - b * d, f, a * d + b * c, e);
    lemma_residues_in_difference(c * e - d * f, a, c * f + d * e, b);
    lemma_residues_in_sum(c * f + d * e, a, c * e - d * f, b);
    lemma_triple_products(a, c, e, b, d);
    lemma_triple_products(a, d, f, b, c);
    lemma_triple_products(a, c, f, b, d);
    lemma_triple_products(a, d, e, b, c);
    lemma_mul_is_distributive_sub(a, c * e, d * f);
    lemma_mul_is_distributive_sub(b, c * e, d * f);
    lemma_mul_is_distributive_add(a, c * f, d * e);
    lemma_mul_is_distributive_add(b, c * f, d * e);
}

/// One is neutral.
pub proof fn cm31_one_is_neutral(x: CM31)
    requires
        x.0 < P,
        x.1 < P,
    ensures
        cm31_mul(CM31(1, 0), x) == x,
        cm31_mul(x, CM31(1, 0)) == x,
{
    lemma_small_mod(x.0 as nat, P as nat);
    lemma_small_mod(x.1 as nat, P as nat);
    cm31_mul_commutes(x, CM31(1, 0));
}

/// An element has at most one inverse among the reduced elements.
pub proof fn cm31_inverse_is_unique(x: CM31, r: CM31, s: CM31)
    requires
        r.0 < P,
        r.1 < P,
        s.0 < P,
        s.1 < P,
        cm31_mul(x, r) == CM31(1, 0),
        cm31_mul(x, s) == CM31(1, 0),
    ensures
        r == s,
{
    cm31_mul_commutes(x, r);
    cm31_mul_associates(r, x, s);
    cm31_one_is_neutral(r);
    cm31_one_is_neutral(s);
}

/// The real part of a product from two base field products.
proof fn lemma_product_real(a: int, b: int, c: int, d: int)
    requires
        is_m31(a),
        is_m31(b),
        is_m31(c),
        is_m31(d),
    ensures
        m31_sub(m31_mul(a, c), m31_mul(b, d)) == (a * c - b * d) % (P as int),
        0 <= (a * c - b * d) % (P as int) < P,
{
    let ac = m31_mul(a, c);
    let bd = m31_mul(b, d);
    m31_operations_are_modular(ac, bd);
    lemma_sub_mod_noop(a * c, b * d, P as int);
    lemma_small_mod(m31_sub(ac, bd) as nat, P as nat);
}

/// The imaginary part of a product from one more base field product, of the sums.
proof fn lemma_product_imag(a: int, b: int, c: int, d: int)
    requires
        is_m31(a),
        is_m31(b),
        is_m31(c),
        is_m31(d),
    ensures
        m31_sub(
            m31_sub(m31_mul(m31_add(a, b), m31_add(c, d)), m31_mul(a, c)),
            m31_mul(b, d),
        ) == (a * d + b * c) % (P as int),
        0 <= (a * d + b * c) % (P as int) < P,
{
    let p = P as int;
    let ac = m31_mul(a, c);
    let bd = m31_mul(b, d);
    let s = m31_add(a, b);
    let t = m31_add(c, d);
    let abcd = m31_mul(s, t);
    let rest = m31_sub(abcd, ac);
    let imag = m31_sub(rest, bd);
    // The product of the sums is (a + b)(c + d) modulo the prime.
    m31_operations_are_modular(a, b);
    m31_operations_are_modular(c, d);
    lemma_mul_mod_noop(s, t, p);
    lemma_mul_mod_noop(a + b, c + d, p);
    assert(abcd == ((a + b) * (c + d)) % p);
    // Subtracting the two products leaves the mixed terms.
    m31_operations_are_modular(abcd, ac);
    m31_operations_are_modular(rest, bd);
    lemma_sub_mod_noop((a + b) * (c + d), a * c, p);
    assert(rest % p == ((a + b) * (c + d) - a * c) % p);
    lemma_sub_mod_noop(rest, bd, p);
    lemma_sub_mod_noop((a + b) * (c + d) - a * c, b * d, p);
    lemma_mod_twice(b * d, p);
    assert(imag % p == ((a + b) * (c + d) - a * c - b * d) % p);
    assert((a + b) * (c + d) - a * c - b * d == a * d + b * c) by (nonlinear_arith);
    lemma_small_mod(imag as nat, P as nat);
}

/// Three base field products make a complex product.
pub proof fn lemma_karatsuba(x: CM31, y: CM31)
    requires
        x.valid(),
        y.valid(),
    ensures
        ({
            let ac = m31_mul(x.0 as int, y.0 as int);
            let bd = m31_mul(x.1 as int, y.1 as int);
            let abcd = m31_mul(
                m31_add(x.0 as int, x.1 as int),
                m31_add(y.0 as int, y.1 as int),
            );
            &&& cm31_mul(x, y).0 == m31_sub(ac, bd)
            &&& cm31_mul(x, y).1 == m31_sub(m31_sub(abcd, ac), bd)
        }),
        cm31_mul(x, y).valid(),
{
    lemma_product_real(x.0 as int, x.1 as int, y.0 as int, y.1 as int);
    lemma_product_imag(x.0 as int, x.1 as int, y.0 as int, y.1 as int);
}

/// Inverts a complex element: `stwo`'s `FieldExpOps::inverse` on `CM31`.
///
/// The contract claims that the two parts are residues below the modulus and that the product
/// with the argument is one. The outside function panics on zero, in either of its names, so zero
/// is left out.
#[verifier::external_body]
pub(crate) fn invert_cm31(x: CM31) -> (r: CM31)
    requires
        x.valid(),
        !x.is_field_zero(),
    ensures
        r.0 < P,
        r.1 < P,
        cm31_mul(x, r) == CM31(1, 0),
{
    let element = stwo::core::fields::cm31::CM31::from_u32_unchecked(x.0, x.1);
    let inverse = stwo::core::fields::FieldExpOps::inverse(&element);
    CM31(inverse.0 .0, inverse.1 .0)
}

/// The product of `a + bi` and `c + di` is `(ac - bd) + (ad + bc)i`, each part the least residue.
pub proof fn cm31_mul_is_the_complex_product(a: u32, b: u32, c: u32, d: u32)
    ensures
        cm31_mul(CM31(a, b), CM31(c, d)).0 == (a * c - b * d) % 0x7fff_ffff,
        cm31_mul(CM31(a, b), CM31(c, d)).1 == (a * d + b * c) % 0x7fff_ffff,
{
}

/// Only elements whose two parts are multiples of the modulus are zero.
pub proof fn cm31_zero(a: u32, b: u32)
    ensures
        CM31(a, b).is_field_zero() == (a % 0x7fff_ffff == 0 && b % 0x7fff_ffff == 0),
        CM31(a, b).valid() == (a <= 0x7fff_ffff && b <= 0x7fff_ffff),
{
}

} // verus!
