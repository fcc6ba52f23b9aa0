//! Variables for elements of the complex extension of the Mersenne-31 field.

use super::m31::{
    add_step, copy_step, mul_step, neg_step, new_step, sub_step, M31Var, Wire,
};
use super::table::TableVar;
use crate::constraint_system::{
    constant_is_forced, gadget_entries, is_m31_element, lemma_check_in_force,
    lemma_gadget_in_force, outputs_are_recorded, values_at, AllocationMode, ConstraintSystem,
    ConstraintSystemView, ElementView, Gadget, TraceEntryView,
};
use crate::fields::cm31::{
    cm31_mul, cm31_mul_commutes, invert_cm31, lemma_karatsuba, product_imag, product_real, CM31,
};
use crate::fields::m31::{
    m31_add, m31_mul, m31_neg, m31_operations_are_modular, m31_sub, P,
};
use vstd::prelude::*;

verus! {

/// A complex element in a constraint system.
#[derive(Clone, Copy, Debug)]
pub struct CM31Var {
    pub imag: M31Var,
    pub real: M31Var,
}

/// The two variables of a complex element, with their values.
pub struct ComplexWire {
    pub imag: Wire,
    pub real: Wire,
}

impl ComplexWire {
    /// The system holds both variables with these values.
    pub open spec fn valid_in(self, cs: ConstraintSystemView) -> bool {
        self.imag.valid_in(cs) && self.real.valid_in(cs)
    }
}

impl View for CM31Var {
    type V = ComplexWire;

    open spec fn view(&self) -> ComplexWire {
        ComplexWire { imag: self.imag@, real: self.real@ }
    }
}

/// The value of a complex variable.
pub open spec fn value_of(x: CM31Var) -> CM31 {
    CM31(x.real.value, x.imag.value)
}

/// Allocating a complex variable: the imaginary part first.
pub open spec fn complex_new_step(
    cs: ConstraintSystemView,
    data: CM31,
    mode: AllocationMode,
) -> (ConstraintSystemView, ComplexWire) {
    let (cs1, imag) = new_step(cs, data.1 as int, mode);
    let (cs2, re) = new_step(cs1, data.0 as int, mode);
    (cs2, ComplexWire { imag, real: re })
}

/// Adding two complex variables: the imaginary parts first.
pub open spec fn complex_add_step(
    cs: ConstraintSystemView,
    x: ComplexWire,
    y: ComplexWire,
) -> (ConstraintSystemView, ComplexWire) {
    let (cs1, imag) = add_step(cs, x.imag, y.imag);
    let (cs2, re) = add_step(cs1, x.real, y.real);
    (cs2, ComplexWire { imag, real: re })
}

/// Adding a base field variable: the imaginary part is copied.
pub open spec fn complex_add_m31_step(cs: ConstraintSystemView, x: ComplexWire, y: Wire) -> (
    ConstraintSystemView,
    ComplexWire,
) {
    let (cs1, imag) = copy_step(cs, x.imag);
    let (cs2, re) = add_step(cs1, x.real, y);
    (cs2, ComplexWire { imag, real: re })
}

/// Subtracting a complex variable: the imaginary parts first.
pub open spec fn complex_sub_step(
    cs: ConstraintSystemView,
    x: ComplexWire,
    y: ComplexWire,
) -> (ConstraintSystemView, ComplexWire) {
    let (cs1, imag) = sub_step(cs, x.imag, y.imag);
    let (cs2, re) = sub_step(cs1, x.real, y.real);
    (cs2, ComplexWire { imag, real: re })
}

/// Subtracting a base field variable: the imaginary part is copied.
pub open spec fn complex_sub_m31_step(cs: ConstraintSystemView, x: ComplexWire, y: Wire) -> (
    ConstraintSystemView,
    ComplexWire,
) {
    let (cs1, imag) = copy_step(cs, x.imag);
    let (cs2, re) = sub_step(cs1, x.real, y);
    (cs2, ComplexWire { imag, real: re })
}

/// Multiplying two complex variables with three base field products.
pub open spec fn complex_mul_step(
    cs: ConstraintSystemView,
    x: ComplexWire,
    y: ComplexWire,
) -> (ConstraintSystemView, ComplexWire) {
    let (cs1, ac) = mul_step(cs, x.real, y.real);
    let (cs2, bd) = mul_step(cs1, x.imag, y.imag);
    let (cs3, a_plus_b) = add_step(cs2, x.real, x.imag);
    let (cs4, c_plus_d) = add_step(cs3, y.real, y.imag);
    let (cs5, abcd) = mul_step(cs4, a_plus_b, c_plus_d);
    let (cs6, re) = sub_step(cs5, ac, bd);
    let (cs7, rest) = sub_step(cs6, abcd, ac);
    let (cs8, imag) = sub_step(cs7, rest, bd);
    (cs8, ComplexWire { imag, real: re })
}

/// Multiplying by a base field variable: the real part first.
pub open spec fn complex_mul_m31_step(cs: ConstraintSystemView, x: ComplexWire, y: Wire) -> (
    ConstraintSystemView,
    ComplexWire,
) {
    let (cs1, re) = mul_step(cs, x.real, y);
    let (cs2, imag) = mul_step(cs1, x.imag, y);
    (cs2, ComplexWire { imag, real: re })
}

/// Negating a complex variable: the real part first.
pub open spec fn complex_neg_step(cs: ConstraintSystemView, x: ComplexWire) -> (
    ConstraintSystemView,
    ComplexWire,
) {
    let (cs1, re) = neg_step(cs, x.real);
    let (cs2, imag) = neg_step(cs1, x.imag);
    (cs2, ComplexWire { imag, real: re })
}

/// Multiplying by `i`: the real part is copied and the imaginary part negated.
pub open spec fn shift_by_i_step(cs: ConstraintSystemView, x: ComplexWire) -> (
    ConstraintSystemView,
    ComplexWire,
) {
    let (cs1, imag) = copy_step(cs, x.real);
    let (cs2, re) = neg_step(cs1, x.imag);
    (cs2, ComplexWire { imag, real: re })
}

/// Checking that a complex variable is one.
pub open spec fn is_one_step(cs: ConstraintSystemView, x: ComplexWire) -> ConstraintSystemView {
    cs.insert_script(Gadget::M31IsOne, seq![x.real.variable]).insert_script(
        Gadget::M31IsZero,
        seq![x.imag.variable],
    )
}

/// Checking that a complex variable is zero.
pub open spec fn is_zero_step(cs: ConstraintSystemView, x: ComplexWire) -> ConstraintSystemView {
    cs.insert_script(Gadget::M31IsZero, seq![x.real.variable]).insert_script(
        Gadget::M31IsZero,
        seq![x.imag.variable],
    )
}

/// Inverting a complex variable: the prover hints at the inverse, and the product is checked to
/// be one.
pub open spec fn inverse_step(cs: ConstraintSystemView, x: ComplexWire, hint: CM31) -> (
    ConstraintSystemView,
    ComplexWire,
) {
    let (cs1, res) = complex_new_step(cs, hint, AllocationMode::Hint);
    let (cs2, product) = complex_mul_step(cs1, res, x);
    (is_one_step(cs2, product), res)
}

impl CM31Var {
    /// The numbers of the two variables, the imaginary part's first.
    pub fn variables(&self) -> (r: Vec<usize>)
        ensures
            r@ == seq![self.imag.variable, self.real.variable],
    {
        vec![self.imag.variable, self.real.variable]
    }

    /// A complex element takes two variables.
    pub fn length() -> (r: usize)
        ensures
            r == 2,
    {
        2
    }

    /// The value.
    pub fn value(&self) -> (r: CM31)
        ensures
            r == value_of(*self),
            r.0 == self.real.value,
            r.1 == self.imag.value,
    {
        CM31(self.real.value, self.imag.value)
    }

    /// Allocates the two variables of an element, the imaginary part's first.
    pub fn new_variable(cs: &mut ConstraintSystem, data: CM31, mode: AllocationMode) -> (r: CM31Var)
        requires
            old(cs)@.wf(),
            data.valid(),
        ensures
            value_of(r) == data,
            (final(cs)@, r@) == complex_new_step(old(cs)@, data, mode),
            final(cs)@.wf(),
            final(cs)@.extends(old(cs)@),
            r@.valid_in(final(cs)@),
    {
        let imag = M31Var::new_variable(cs, data.1, mode);
        let re = M31Var::new_variable(cs, data.0, mode);
        CM31Var { imag, real: re }
    }

    /// Allocates a constant.
    pub fn new_constant(cs: &mut ConstraintSystem, data: CM31) -> (r: CM31Var)
        requires
            old(cs)@.wf(),
            data.valid(),
        ensures
            value_of(r) == data,
            (final(cs)@, r@) == complex_new_step(old(cs)@, data, AllocationMode::Constant),
            final(cs)@.wf(),
            final(cs)@.extends(old(cs)@),
            r@.valid_in(final(cs)@),
    {
        Self::new_variable(cs, data, AllocationMode::Constant)
    }

    /// Adds two complex variables.
    pub fn add(&self, rhs: &CM31Var, cs: &mut ConstraintSystem) -> (r: CM31Var)
        requires
            old(cs)@.wf(),
            self@.valid_in(old(cs)@),
            rhs@.valid_in(old(cs)@),
        ensures
            r.real.value == m31_add(self.real.value as int, rhs.real.value as int),
            r.imag.value == m31_add(self.imag.value as int, rhs.imag.value as int),
            (final(cs)@, r@) == complex_add_step(old(cs)@, self@, rhs@),
            final(cs)@.wf(),
            final(cs)@.extends(old(cs)@),
            r@.valid_in(final(cs)@),
    {
        let imag = self.imag.add(&rhs.imag, cs);
        let re = self.real.add(&rhs.real, cs);
        CM31Var { imag, real: re }
    }

    /// Adds a base field variable.
    pub fn add_m31(&self, rhs: &M31Var, cs: &mut ConstraintSystem) -> (r: CM31Var)
        requires
            old(cs)@.wf(),
            self@.valid_in(old(cs)@),
            rhs@.valid_in(old(cs)@),
        ensures
            r.real.value == m31_add(self.real.value as int, rhs.value as int),
            r.imag.value == self.imag.value,
            (final(cs)@, r@) == complex_add_m31_step(old(cs)@, self@, rhs@),
            final(cs)@.wf(),
            final(cs)@.extends(old(cs)@),
            r@.valid_in(final(cs)@),
    {
        let imag = self.imag.copy(cs);
        let re = self.real.add(rhs, cs);
        CM31Var { imag, real: re }
    }

    /// Subtracts a complex variable.
    pub fn sub(&self, rhs: &CM31Var, cs: &mut ConstraintSystem) -> (r: CM31Var)
        requires
            old(cs)@.wf(),
            self@.valid_in(old(cs)@),
            rhs@.valid_in(old(cs)@),
        ensures
            r.real.value == m31_sub(self.real.value as int, rhs.real.value as int),
            r.imag.value == m31_sub(self.imag.value as int, rhs.imag.value as int),
            (final(cs)@, r@) == complex_sub_step(old(cs)@, self@, rhs@),
            final(cs)@.wf(),
            final(cs)@.extends(old(cs)@),
            r@.valid_in(final(cs)@),
    {
        let imag = self.imag.sub(&rhs.imag, cs);
        let re = self.real.sub(&rhs.real, cs);
        CM31Var { imag, real: re }
    }

    /// Subtracts a base field variable.
    pub fn sub_m31(&self, rhs: &M31Var, cs: &mut ConstraintSystem) -> (r: CM31Var)
        requires
            old(cs)@.wf(),
            self@.valid_in(old(cs)@),
            rhs@.valid_in(old(cs)@),
        ensures
            r.real.value == m31_sub(self.real.value as int, rhs.value as int),
            r.imag.value == self.imag.value,
            (final(cs)@, r@) == complex_sub_m31_step(old(cs)@, self@, rhs@),
            final(cs)@.wf(),
            final(cs)@.extends(old(cs)@),
            r@.valid_in(final(cs)@),
    {
        let imag = self.imag.copy(cs);
        let re = self.real.sub(rhs, cs);
        CM31Var { imag, real: re }
    }

    /// Multiplies two complex variables.
    pub fn mul(&self, rhs: &CM31Var, cs: &mut ConstraintSystem) -> (r: CM31Var)
        requires
            old(cs)@.wf(),
            self@.valid_in(old(cs)@),
            rhs@.valid_in(old(cs)@),
        ensures
            value_of(r) == cm31_mul(value_of(*self), value_of(*rhs)),
            r.real.value == (self.real.value * rhs.real.value - self.imag.value * rhs.imag.value)
                % 0x7fff_ffff,
            r.imag.value == (self.real.value * rhs.imag.value + self.imag.value * rhs.real.value)
                % 0x7fff_ffff,
            (final(cs)@, r@) == complex_mul_step(old(cs)@, self@, rhs@),
            final(cs)@.wf(),
            final(cs)@.extends(old(cs)@),
            r@.valid_in(final(cs)@),
    {
        let ac = self.real.mul(&rhs.real, cs);
        let bd = self.imag.mul(&rhs.imag, cs);
        let a_plus_b = self.real.add(&self.imag, cs);
        let c_plus_d = rhs.real.add(&rhs.imag, cs);
        let abcd = a_plus_b.mul(&c_plus_d, cs);
        let re = ac.sub(&bd, cs);
        let rest = abcd.sub(&ac, cs);
        let imag = rest.sub(&bd, cs);
        proof {
            lemma_karatsuba(value_of(*self), value_of(*rhs));
        }
        CM31Var { imag, real: re }
    }

    /// Multiplies two complex variables. The table is not needed.
    pub fn mul_with_table(&self, rhs: (&TableVar, &CM31Var), cs: &mut ConstraintSystem) -> (r:
        CM31Var)
        requires
            old(cs)@.wf(),
            self@.valid_in(old(cs)@),
            rhs.1@.valid_in(old(cs)@),
        ensures
            value_of(r) == cm31_mul(value_of(*self), value_of(*rhs.1)),
            (final(cs)@, r@) == complex_mul_step(old(cs)@, self@, rhs.1@),
            final(cs)@.wf(),
            final(cs)@.extends(old(cs)@),
            r@.valid_in(final(cs)@),
    {
        self.mul(rhs.1, cs)
    }

    /// Multiplies by a base field variable. The table is not needed.
    pub fn mul_m31_with_table(&self, rhs: (&TableVar, &M31Var), cs: &mut ConstraintSystem) -> (r:
        CM31Var)
        requires
            old(cs)@.wf(),
            self@.valid_in(old(cs)@),
            rhs.1@.valid_in(old(cs)@),
        ensures
            r.real.value == m31_mul(self.real.value as int, rhs.1.value as int),
            r.imag.value == m31_mul(self.imag.value as int, rhs.1.value as int),
            (final(cs)@, r@) == complex_mul_m31_step(old(cs)@, self@, rhs.1@),
            final(cs)@.wf(),
            final(cs)@.extends(old(cs)@),
            r@.valid_in(final(cs)@),
    {
        let re = self.real.mul(rhs.1, cs);
        let imag = self.imag.mul(rhs.1, cs);
        CM31Var { imag, real: re }
    }

    /// Negates a complex variable.
    pub fn neg(&self, cs: &mut ConstraintSystem) -> (r: CM31Var)
        requires
            old(cs)@.wf(),
            self@.valid_in(old(cs)@),
        ensures
            r.real.value == m31_neg(self.real.value as int),
            r.imag.value == m31_neg(self.imag.value as int),
            (final(cs)@, r@) == complex_neg_step(old(cs)@, self@),
            final(cs)@.wf(),
            final(cs)@.extends(old(cs)@),
            r@.valid_in(final(cs)@),
    {
        let re = self.real.neg(cs);
        let imag = self.imag.neg(cs);
        CM31Var { imag, real: re }
    }

    /// Checks that the element is one.
    pub fn is_one(&self, cs: &mut ConstraintSystem)
        requires
            old(cs)@.wf(),
            self@.valid_in(old(cs)@),
            value_of(*self) == CM31(1, 0),
        ensures
            final(cs)@ == is_one_step(old(cs)@, self@),
            final(cs)@.wf(),
            final(cs)@.extends(old(cs)@),
    {
        self.real.is_one(cs);
        self.imag.is_zero(cs);
    }

    /// Checks that the element is zero.
    pub fn is_zero(&self, cs: &mut ConstraintSystem)
        requires
            old(cs)@.wf(),
            self@.valid_in(old(cs)@),
            value_of(*self) == CM31(0, 0),
        ensures
            final(cs)@ == is_zero_step(old(cs)@, self@),
            final(cs)@.wf(),
            final(cs)@.extends(old(cs)@),
    {
        self.real.is_zero(cs);
        self.imag.is_zero(cs);
    }

    /// Inverts a nonzero element. The table is not needed.
    pub fn inverse(&self, _table: &TableVar, cs: &mut ConstraintSystem) -> (r: CM31Var)
        requires
            old(cs)@.wf(),
            self@.valid_in(old(cs)@),
            !value_of(*self).is_field_zero(),
        ensures
            r.real.value < P,
            r.imag.value < P,
            cm31_mul(value_of(*self), value_of(r)) == CM31(1, 0),
            (final(cs)@, r@) == inverse_step(old(cs)@, self@, value_of(r)),
            final(cs)@.wf(),
            final(cs)@.extends(old(cs)@),
            r@.valid_in(final(cs)@),
    {
        self.inverse_without_table(cs)
    }

    /// Inverts a nonzero element.
    pub fn inverse_without_table(&self, cs: &mut ConstraintSystem) -> (r: CM31Var)
        requires
            old(cs)@.wf(),
            self@.valid_in(old(cs)@),
            !value_of(*self).is_field_zero(),
        ensures
            r.real.value < P,
            r.imag.value < P,
            cm31_mul(value_of(*self), value_of(r)) == CM31(1, 0),
            (final(cs)@, r@) == inverse_step(old(cs)@, self@, value_of(r)),
            final(cs)@.wf(),
            final(cs)@.extends(old(cs)@),
            r@.valid_in(final(cs)@),
    {
        let res = invert_cm31(self.value());
        let res_var = CM31Var::new_variable(cs, res, AllocationMode::Hint);
        let expected_one = res_var.mul(self, cs);
        proof {
            cm31_mul_commutes(value_of(*self), res);
        }
        expected_one.is_one(cs);
        res_var
    }

    /// Multiplies by `i`.
    pub fn shift_by_i(&self, cs: &mut ConstraintSystem) -> (r: CM31Var)
        requires
            old(cs)@.wf(),
            self@.valid_in(old(cs)@),
        ensures
            r.real.value == m31_neg(self.imag.value as int),
            r.imag.value == self.real.value,
            (final(cs)@, r@) == shift_by_i_step(old(cs)@, self@),
            final(cs)@.wf(),
            final(cs)@.extends(old(cs)@),
            r@.valid_in(final(cs)@),
    {
        let imag = self.real.copy(cs);
        let re = self.imag.neg(cs);
        CM31Var { imag, real: re }
    }
}

/// The element that an assignment gives to a complex variable.
pub open spec fn assigned(assignment: Seq<ElementView>, w: ComplexWire) -> CM31 {
    CM31(
        assignment[w.real.variable]->Num_0 as u32,
        assignment[w.imag.variable]->Num_0 as u32,
    )
}

/// Both variables are assigned numbers that stand for field elements.
pub open spec fn is_assigned(assignment: Seq<ElementView>, w: ComplexWire) -> bool {
    is_m31_element(assignment[w.real.variable]) && is_m31_element(assignment[w.imag.variable])
}

/// A binary gadget's output is what the gadget makes of the assigned inputs.
proof fn lemma_binary(
    cs: ConstraintSystemView,
    gadget: Gadget,
    a: Wire,
    b: Wire,
    out: int,
    later: ConstraintSystemView,
    assignment: Seq<ElementView>,
)
    requires
        gadget == Gadget::M31Add || gadget == Gadget::M31Sub || gadget == Gadget::M31Mul,
        later.extends(cs.emit(gadget, seq![a.variable, b.variable], ElementView::Num(out))),
        later.satisfied_by(assignment),
    ensures
        is_m31_element(assignment[a.variable]),
        is_m31_element(assignment[b.variable]),
        ({
            let x = assignment[a.variable]->Num_0;
            let y = assignment[b.variable]->Num_0;
            let z = assignment[cs.memory.len() as int];
            match gadget {
                Gadget::M31Add => z == ElementView::Num(m31_add(x, y)),
                Gadget::M31Sub => z == ElementView::Num(m31_sub(x, y)),
                _ => z == ElementView::Num(m31_mul(x, y)),
            }
        }),
{
    let inputs = seq![a.variable, b.variable];
    lemma_gadget_in_force(cs, gadget, inputs, ElementView::Num(out), later, assignment);
    let ins = values_at(assignment, inputs);
    assert(ins =~= seq![assignment[a.variable], assignment[b.variable]]);
    assert(seq![assignment[cs.memory.len() as int]][0] == assignment[cs.memory.len() as int]);
}

/// Whatever values a prover picks, a product variable holds the product of what its factors hold,
/// once the constraints are met.
pub proof fn complex_product_is_forced(
    cs: ConstraintSystemView,
    x: ComplexWire,
    y: ComplexWire,
    later: ConstraintSystemView,
    assignment: Seq<ElementView>,
)
    requires
        later.extends(complex_mul_step(cs, x, y).0),
        later.satisfied_by(assignment),
    ensures
        is_assigned(assignment, x),
        is_assigned(assignment, y),
        is_assigned(assignment, complex_mul_step(cs, x, y).1),
        assigned(assignment, complex_mul_step(cs, x, y).1) == cm31_mul(
            assigned(assignment, x),
            assigned(assignment, y),
        ),
{
    let (cs1, ac) = mul_step(cs, x.real, y.real);
    let (cs2, bd) = mul_step(cs1, x.imag, y.imag);
    let (cs3, a_plus_b) = add_step(cs2, x.real, x.imag);
    let (cs4, c_plus_d) = add_step(cs3, y.real, y.imag);
    let (cs5, abcd) = mul_step(cs4, a_plus_b, c_plus_d);
    let (cs6, re) = sub_step(cs5, ac, bd);
    let (cs7, rest) = sub_step(cs6, abcd, ac);
    let (cs8, imag) = sub_step(cs7, rest, bd);
    assert(cs8.extends(cs7) && cs7.extends(cs6) && cs6.extends(cs5) && cs5.extends(cs4));
    assert(cs4.extends(cs3) && cs3.extends(cs2) && cs2.extends(cs1));
    assert(later.extends(cs7));
    assert(later.extends(cs6));
    assert(later.extends(cs5));
    assert(later.extends(cs4));
    assert(later.extends(cs3));
    assert(later.extends(cs2));
    assert(later.extends(cs1));
    lemma_binary(cs, Gadget::M31Mul, x.real, y.real, ac.value, later, assignment);
    lemma_binary(cs1, Gadget::M31Mul, x.imag, y.imag, bd.value, later, assignment);
    lemma_binary(cs2, Gadget::M31Add, x.real, x.imag, a_plus_b.value, later, assignment);
    lemma_binary(cs3, Gadget::M31Add, y.real, y.imag, c_plus_d.value, later, assignment);
    lemma_binary(cs4, Gadget::M31Mul, a_plus_b, c_plus_d, abcd.value, later, assignment);
    lemma_binary(cs5, Gadget::M31Sub, ac, bd, re.value, later, assignment);
    lemma_binary(cs6, Gadget::M31Sub, abcd, ac, rest.value, later, assignment);
    lemma_binary(cs7, Gadget::M31Sub, rest, bd, imag.value, later, assignment);
    lemma_karatsuba(assigned(assignment, x), assigned(assignment, y));
}

/// A unary gadget's output is what the gadget makes of the assigned input.
proof fn lemma_unary(
    cs: ConstraintSystemView,
    gadget: Gadget,
    a: Wire,
    out: int,
    later: ConstraintSystemView,
    assignment: Seq<ElementView>,
)
    requires
        gadget == Gadget::Copy || gadget == Gadget::M31Neg,
        later.extends(cs.emit(gadget, seq![a.variable], ElementView::Num(out))),
        later.satisfied_by(assignment),
    ensures
        ({
            let x = assignment[a.variable];
            let z = assignment[cs.memory.len() as int];
            match gadget {
                Gadget::Copy => z == x,
                _ => is_m31_element(x) && z == ElementView::Num(m31_neg(x->Num_0)),
            }
        }),
{
    let inputs = seq![a.variable];
    lemma_gadget_in_force(cs, gadget, inputs, ElementView::Num(out), later, assignment);
    assert(values_at(assignment, inputs)[0] == assignment[a.variable]);
    assert(seq![assignment[cs.memory.len() as int]][0] == assignment[cs.memory.len() as int]);
}

/// Whatever values a prover picks, a sum variable holds the sum of what its terms hold, once the
/// constraints are met.
pub proof fn complex_sum_is_forced(
    cs: ConstraintSystemView,
    x: ComplexWire,
    y: ComplexWire,
    later: ConstraintSystemView,
    assignment: Seq<ElementView>,
)
    requires
        later.extends(complex_add_step(cs, x, y).0),
        later.satisfied_by(assignment),
    ensures
        is_assigned(assignment, x),
        is_assigned(assignment, y),
        ({
            let r = complex_add_step(cs, x, y).1;
            &&& assignment[r.real.variable] == ElementView::Num(
                m31_add(
                    assignment[x.real.variable]->Num_0,
                    assignment[y.real.variable]->Num_0,
                ),
            )
            &&& assignment[r.imag.variable] == ElementView::Num(
                m31_add(
                    assignment[x.imag.variable]->Num_0,
                    assignment[y.imag.variable]->Num_0,
                ),
            )
        }),
{
    let (cs1, imag) = add_step(cs, x.imag, y.imag);
    let (cs2, re) = add_step(cs1, x.real, y.real);
    assert(cs2.extends(cs1));
    assert(later.extends(cs1));
    lemma_binary(cs, Gadget::M31Add, x.imag, y.imag, imag.value, later, assignment);
    lemma_binary(cs1, Gadget::M31Add, x.real, y.real, re.value, later, assignment);
}

/// Whatever values a prover picks, a difference variable holds the difference of what its terms
/// hold, once the constraints are met.
pub proof fn complex_difference_is_forced(
    cs: ConstraintSystemView,
    x: ComplexWire,
    y: ComplexWire,
    later: ConstraintSystemView,
    assignment: Seq<ElementView>,
)
    requires
        later.extends(complex_sub_step(cs, x, y).0),
        later.satisfied_by(assignment),
    ensures
        is_assigned(assignment, x),
        is_assigned(assignment, y),
        ({
            let r = complex_sub_step(cs, x, y).1;
            &&& assignment[r.real.variable] == ElementView::Num(
                m31_sub(
                    assignment[x.real.variable]->Num_0,
                    assignment[y.real.variable]->Num_0,
                ),
            )
            &&& assignment[r.imag.variable] == ElementView::Num(
                m31_sub(
                    assignment[x.imag.variable]->Num_0,
                    assignment[y.imag.variable]->Num_0,
                ),
            )
        }),
{
    let (cs1, imag) = sub_step(cs, x.imag, y.imag);
    let (cs2, re) = sub_step(cs1, x.real, y.real);
    assert(cs2.extends(cs1));
    assert(later.extends(cs1));
    lemma_binary(cs, Gadget::M31Sub, x.imag, y.imag, imag.value, later, assignment);
    lemma_binary(cs1, Gadget::M31Sub, x.real, y.real, re.value, later, assignment);
}

/// Whatever values a prover picks, a shifted variable holds the real part as its imaginary part and
/// the negated imaginary part as its real part, once the constraints are met.
pub proof fn shift_by_i_is_forced(
    cs: ConstraintSystemView,
    x: ComplexWire,
    later: ConstraintSystemView,
    assignment: Seq<ElementView>,
)
    requires
        later.extends(shift_by_i_step(cs, x).0),
        later.satisfied_by(assignment),
    ensures
        is_m31_element(assignment[x.imag.variable]),
        ({
            let r = shift_by_i_step(cs, x).1;
            &&& assignment[r.imag.variable] == assignment[x.real.variable]
            &&& assignment[r.real.variable] == ElementView::Num(
                m31_neg(assignment[x.imag.variable]->Num_0),
            )
        }),
{
    let (cs1, imag) = copy_step(cs, x.real);
    let (cs2, re) = neg_step(cs1, x.imag);
    assert(cs2.extends(cs1));
    assert(later.extends(cs1));
    lemma_unary(cs, Gadget::Copy, x.real, imag.value, later, assignment);
    lemma_unary(cs1, Gadget::M31Neg, x.imag, re.value, later, assignment);
}

/// Whatever values a prover picks, a negated variable holds the negation of what the variable
/// holds, once the constraints are met.
pub proof fn complex_negation_is_forced(
    cs: ConstraintSystemView,
    x: ComplexWire,
    later: ConstraintSystemView,
    assignment: Seq<ElementView>,
)
    requires
        later.extends(complex_neg_step(cs, x).0),
        later.satisfied_by(assignment),
    ensures
        is_assigned(assignment, x),
        ({
            let r = complex_neg_step(cs, x).1;
            &&& assignment[r.real.variable] == ElementView::Num(
                m31_neg(assignment[x.real.variable]->Num_0),
            )
            &&& assignment[r.imag.variable] == ElementView::Num(
                m31_neg(assignment[x.imag.variable]->Num_0),
            )
        }),
{
    let (cs1, re) = neg_step(cs, x.real);
    let (cs2, imag) = neg_step(cs1, x.imag);
    assert(cs2.extends(cs1));
    assert(later.extends(cs1));
    lemma_unary(cs, Gadget::M31Neg, x.real, re.value, later, assignment);
    lemma_unary(cs1, Gadget::M31Neg, x.imag, imag.value, later, assignment);
}

/// Whatever inverse a prover hints at, the constraints accept it only if its product with the
/// element is one.
pub proof fn hinted_inverse_is_forced(
    cs: ConstraintSystemView,
    x: ComplexWire,
    hint: CM31,
    later: ConstraintSystemView,
    assignment: Seq<ElementView>,
)
    requires
        later.extends(inverse_step(cs, x, hint).0),
        later.satisfied_by(assignment),
    ensures
        is_assigned(assignment, x),
        is_assigned(assignment, inverse_step(cs, x, hint).1),
        cm31_mul(
            assigned(assignment, x),
            assigned(assignment, inverse_step(cs, x, hint).1),
        ) == CM31(1, 0),
{
    let (cs1, res) = complex_new_step(cs, hint, AllocationMode::Hint);
    let (cs2, product) = complex_mul_step(cs1, res, x);
    let cs3 = cs2.insert_script(Gadget::M31IsOne, seq![product.real.variable]);
    let cs4 = is_one_step(cs2, product);
    assert(cs4.extends(cs3) && cs3.extends(cs2));
    assert(later.extends(cs3));
    assert(later.extends(cs2));
    complex_product_is_forced(cs1, res, x, later, assignment);
    lemma_check_in_force(cs2, Gadget::M31IsOne, seq![product.real.variable], later, assignment);
    lemma_check_in_force(cs3, Gadget::M31IsZero, seq![product.imag.variable], later, assignment);
    assert(values_at(assignment, seq![product.real.variable])[0] == ElementView::Num(1));
    assert(values_at(assignment, seq![product.imag.variable])[0] == ElementView::Num(0));
    cm31_mul_commutes(assigned(assignment, res), assigned(assignment, x));
}

/// Shifting is multiplying by `i`.
pub proof fn shift_by_i_multiplies_by_i(x: CM31)
    requires
        x.valid(),
    ensures
        m31_neg(x.1 as int) % (P as int) == product_real(x, CM31(0, 1)),
        x.0 as int % (P as int) == product_imag(x, CM31(0, 1)),
{
    m31_operations_are_modular(x.1 as int, 0);
}

/// A complex variable shows the variables of its two parts, and its value is theirs.
pub proof fn complex_wire_shows_the_variables(x: CM31Var)
    ensures
        x@.real.variable == x.real.variable,
        x@.real.value == x.real.value,
        x@.imag.variable == x.imag.variable,
        x@.imag.value == x.imag.value,
        value_of(x).0 == x.real.value,
        value_of(x).1 == x.imag.value,
{
}

/// Allocating a complex variable records two variables of the given mode, the imaginary part first,
/// and ties them to nothing.
pub proof fn complex_variable_is_recorded(
    cs: ConstraintSystemView,
    data: CM31,
    mode: AllocationMode,
)
    ensures
        ({
            let (after, r) = complex_new_step(cs, data, mode);
            let n = cs.memory.len() as int;
            &&& after.memory == cs.memory.push(ElementView::Num(data.1 as int)).push(
                ElementView::Num(data.0 as int),
            )
            &&& after.trace == cs.trace.push(TraceEntryView::Alloc { mode, variable: n }).push(
                TraceEntryView::Alloc { mode, variable: n + 1 },
            )
            &&& r.imag.variable == n
            &&& r.imag.value == data.1
            &&& r.real.variable == n + 1
            &&& r.real.value == data.0
        }),
{
}

/// A complex constant is forced: every assignment that meets a system with it gives it its value.
pub proof fn complex_constant_is_forced(
    cs: ConstraintSystemView,
    data: CM31,
    later: ConstraintSystemView,
    assignment: Seq<ElementView>,
)
    requires
        later.extends(complex_new_step(cs, data, AllocationMode::Constant).0),
        later.satisfied_by(assignment),
    ensures
        ({
            let r = complex_new_step(cs, data, AllocationMode::Constant).1;
            &&& assignment[r.imag.variable] == ElementView::Num(data.1 as int)
            &&& assignment[r.real.variable] == ElementView::Num(data.0 as int)
        }),
{
    let (cs1, imag) = new_step(cs, data.1 as int, AllocationMode::Constant);
    let (cs2, re) = new_step(cs1, data.0 as int, AllocationMode::Constant);
    assert(cs2.extends(cs1));
    assert(later.extends(cs1));
    constant_is_forced(cs, ElementView::Num(data.1 as int), later, assignment);
    constant_is_forced(cs1, ElementView::Num(data.0 as int), later, assignment);
}

/// Whatever values a prover picks, the product with a base field variable holds in each part the
/// product of what that part and the variable hold, once the constraints are met.
pub proof fn product_with_base_is_forced(
    cs: ConstraintSystemView,
    x: ComplexWire,
    y: Wire,
    later: ConstraintSystemView,
    assignment: Seq<ElementView>,
)
    requires
        later.extends(complex_mul_m31_step(cs, x, y).0),
        later.satisfied_by(assignment),
    ensures
        is_assigned(assignment, x),
        is_m31_element(assignment[y.variable]),
        ({
            let r = complex_mul_m31_step(cs, x, y).1;
            let k = assignment[y.variable]->Num_0;
            &&& assignment[r.real.variable] == ElementView::Num(
                m31_mul(assignment[x.real.variable]->Num_0, k),
            )
            &&& assignment[r.imag.variable] == ElementView::Num(
                m31_mul(assignment[x.imag.variable]->Num_0, k),
            )
        }),
{
    let (cs1, re) = mul_step(cs, x.real, y);
    let (cs2, imag) = mul_step(cs1, x.imag, y);
    assert(cs2.extends(cs1));
    assert(later.extends(cs1));
    lemma_binary(cs, Gadget::M31Mul, x.real, y, re.value, later, assignment);
    lemma_binary(cs1, Gadget::M31Mul, x.imag, y, imag.value, later, assignment);
}

/// Whatever values a prover picks, the sum with a base field variable holds the sum in its real
/// part and the imaginary part as it was, once the constraints are met.
pub proof fn sum_with_base_is_forced(
    cs: ConstraintSystemView,
    x: ComplexWire,
    y: Wire,
    later: ConstraintSystemView,
    assignment: Seq<ElementView>,
)
    requires
        later.extends(complex_add_m31_step(cs, x, y).0),
        later.satisfied_by(assignment),
    ensures
        is_m31_element(assignment[x.real.variable]),
        is_m31_element(assignment[y.variable]),
        ({
            let r = complex_add_m31_step(cs, x, y).1;
            &&& assignment[r.real.variable] == ElementView::Num(
                m31_add(assignment[x.real.variable]->Num_0, assignment[y.variable]->Num_0),
            )
            &&& assignment[r.imag.variable] == assignment[x.imag.variable]
        }),
{
    let (cs1, imag) = copy_step(cs, x.imag);
    let (cs2, re) = add_step(cs1, x.real, y);
    assert(cs2.extends(cs1));
    assert(later.extends(cs1));
    lemma_unary(cs, Gadget::Copy, x.imag, imag.value, later, assignment);
    lemma_binary(cs1, Gadget::M31Add, x.real, y, re.value, later, assignment);
}

/// Whatever values a prover picks, the difference with a base field variable holds the difference in its real
/// part and the imaginary part as it was, once the constraints are met.
pub proof fn difference_with_base_is_forced(
    cs: ConstraintSystemView,
    x: ComplexWire,
    y: Wire,
    later: ConstraintSystemView,
    assignment: Seq<ElementView>,
)
    requires
        later.extends(complex_sub_m31_step(cs, x, y).0),
        later.satisfied_by(assignment),
    ensures
        is_m31_element(assignment[x.real.variable]),
        is_m31_element(assignment[y.variable]),
        ({
            let r = complex_sub_m31_step(cs, x, y).1;
            &&& assignment[r.real.variable] == ElementView::Num(
                m31_sub(assignment[x.real.variable]->Num_0, assignment[y.variable]->Num_0),
            )
            &&& assignment[r.imag.variable] == assignment[x.imag.variable]
        }),
{
    let (cs1, imag) = copy_step(cs, x.imag);
    let (cs2, re) = sub_step(cs1, x.real, y);
    assert(cs2.extends(cs1));
    assert(later.extends(cs1));
    lemma_unary(cs, Gadget::Copy, x.imag, imag.value, later, assignment);
    lemma_binary(cs1, Gadget::M31Sub, x.real, y, re.value, later, assignment);
}

/// Whatever values a prover picks, a complex variable that was checked to be one holds one, once the
/// constraints are met.
pub proof fn complex_check_for_one_is_forced(
    cs: ConstraintSystemView,
    x: ComplexWire,
    later: ConstraintSystemView,
    assignment: Seq<ElementView>,
)
    requires
        later.extends(is_one_step(cs, x)),
        later.satisfied_by(assignment),
    ensures
        assignment[x.real.variable] == ElementView::Num(1),
        assignment[x.imag.variable] == ElementView::Num(0),
        is_one_step(cs, x).memory == cs.memory,
        is_one_step(cs, x).trace.len() == cs.trace.len() + 2,
{
    let cs1 = cs.insert_script(Gadget::M31IsOne, seq![x.real.variable]);
    assert(is_one_step(cs, x).extends(cs1));
    assert(later.extends(cs1));
    lemma_check_in_force(cs, Gadget::M31IsOne, seq![x.real.variable], later, assignment);
    lemma_check_in_force(cs1, Gadget::M31IsZero, seq![x.imag.variable], later, assignment);
    assert(values_at(assignment, seq![x.real.variable])[0] == assignment[x.real.variable]);
    assert(values_at(assignment, seq![x.imag.variable])[0] == assignment[x.imag.variable]);
}

/// Whatever values a prover picks, a complex variable that was checked to be zero holds zero, once the
/// constraints are met.
pub proof fn complex_check_for_zero_is_forced(
    cs: ConstraintSystemView,
    x: ComplexWire,
    later: ConstraintSystemView,
    assignment: Seq<ElementView>,
)
    requires
        later.extends(is_zero_step(cs, x)),
        later.satisfied_by(assignment),
    ensures
        assignment[x.real.variable] == ElementView::Num(0),
        assignment[x.imag.variable] == ElementView::Num(0),
        is_zero_step(cs, x).memory == cs.memory,
        is_zero_step(cs, x).trace.len() == cs.trace.len() + 2,
{
    let cs1 = cs.insert_script(Gadget::M31IsZero, seq![x.real.variable]);
    assert(is_zero_step(cs, x).extends(cs1));
    assert(later.extends(cs1));
    lemma_check_in_force(cs, Gadget::M31IsZero, seq![x.real.variable], later, assignment);
    lemma_check_in_force(cs1, Gadget::M31IsZero, seq![x.imag.variable], later, assignment);
    assert(values_at(assignment, seq![x.real.variable])[0] == assignment[x.real.variable]);
    assert(values_at(assignment, seq![x.imag.variable])[0] == assignment[x.imag.variable]);
}

/// A complex sum is two gadgets, the imaginary part's first.
pub proof fn complex_sum_is_recorded(
    cs: ConstraintSystemView,
    x: ComplexWire,
    y: ComplexWire,
)
    ensures
        ({
            let (after, r) = complex_add_step(cs, x, y);
            let n = cs.memory.len() as int;
            &&& after.memory.len() == n + 2
            &&& after.memory.take(n) == cs.memory
            &&& after.trace == cs.trace
                + gadget_entries(Gadget::M31Add, seq![x.imag.variable, y.imag.variable], n)
                + gadget_entries(Gadget::M31Add, seq![x.real.variable, y.real.variable], n + 1)
            &&& r.real.variable == n + 1
            &&& r.imag.variable == n
        }),
{
    let n = cs.memory.len() as int;
    let (cs1, a) = add_step(cs, x.imag, y.imag);
    outputs_are_recorded(
        cs,
        Gadget::M31Add,
        seq![x.imag.variable, y.imag.variable],
        ElementView::Num(a.value),
        ElementView::Num(0),
    );
    let (cs2, b) = add_step(cs1, x.real, y.real);
    outputs_are_recorded(
        cs1,
        Gadget::M31Add,
        seq![x.real.variable, y.real.variable],
        ElementView::Num(b.value),
        ElementView::Num(0),
    );
    assert(cs2.memory.take(n) =~= cs.memory);
}

/// A complex difference is two gadgets, the imaginary part's first.
pub proof fn complex_difference_is_recorded(
    cs: ConstraintSystemView,
    x: ComplexWire,
    y: ComplexWire,
)
    ensures
        ({
            let (after, r) = complex_sub_step(cs, x, y);
            let n = cs.memory.len() as int;
            &&& after.memory.len() == n + 2
            &&& after.memory.take(n) == cs.memory
            &&& after.trace == cs.trace
                + gadget_entries(Gadget::M31Sub, seq![x.imag.variable, y.imag.variable], n)
                + gadget_entries(Gadget::M31Sub, seq![x.real.variable, y.real.variable], n + 1)
            &&& r.real.variable == n + 1
            &&& r.imag.variable == n
        }),
{
    let n = cs.memory.len() as int;
    let (cs1, a) = sub_step(cs, x.imag, y.imag);
    outputs_are_recorded(
        cs,
        Gadget::M31Sub,
        seq![x.imag.variable, y.imag.variable],
        ElementView::Num(a.value),
        ElementView::Num(0),
    );
    let (cs2, b) = sub_step(cs1, x.real, y.real);
    outputs_are_recorded(
        cs1,
        Gadget::M31Sub,
        seq![x.real.variable, y.real.variable],
        ElementView::Num(b.value),
        ElementView::Num(0),
    );
    assert(cs2.memory.take(n) =~= cs.memory);
}

/// A sum with a base field variable is a copy and a gadget.
pub proof fn sum_with_base_is_recorded(cs: ConstraintSystemView, x: ComplexWire, y: Wire)
    ensures
        ({
            let (after, r) = complex_add_m31_step(cs, x, y);
            let n = cs.memory.len() as int;
            &&& after.memory.len() == n + 2
            &&& after.memory.take(n) == cs.memory
            &&& after.trace == cs.trace
                + gadget_entries(Gadget::Copy, seq![x.imag.variable], n)
                + gadget_entries(Gadget::M31Add, seq![x.real.variable, y.variable], n + 1)
            &&& r.real.variable == n + 1
            &&& r.imag.variable == n
        }),
{
    let n = cs.memory.len() as int;
    let (cs1, a) = copy_step(cs, x.imag);
    outputs_are_recorded(
        cs,
        Gadget::Copy,
        seq![x.imag.variable],
        ElementView::Num(a.value),
        ElementView::Num(0),
    );
    let (cs2, b) = add_step(cs1, x.real, y);
    outputs_are_recorded(
        cs1,
        Gadget::M31Add,
        seq![x.real.variable, y.variable],
        ElementView::Num(b.value),
        ElementView::Num(0),
    );
    assert(cs2.memory.take(n) =~= cs.memory);
}

/// A difference with a base field variable is a copy and a gadget.
pub proof fn difference_with_base_is_recorded(cs: ConstraintSystemView, x: ComplexWire, y: Wire)
    ensures
        ({
            let (after, r) = complex_sub_m31_step(cs, x, y);
            let n = cs.memory.len() as int;
            &&& after.memory.len() == n + 2
            &&& after.memory.take(n) == cs.memory
            &&& after.trace == cs.trace
                + gadget_entries(Gadget::Copy, seq![x.imag.variable], n)
                + gadget_entries(Gadget::M31Sub, seq![x.real.variable, y.variable], n + 1)
            &&& r.real.variable == n + 1
            &&& r.imag.variable == n
        }),
{
    let n = cs.memory.len() as int;
    let (cs1, a) = copy_step(cs, x.imag);
    outputs_are_recorded(
        cs,
        Gadget::Copy,
        seq![x.imag.variable],
        ElementView::Num(a.value),
        ElementView::Num(0),
    );
    let (cs2, b) = sub_step(cs1, x.real, y);
    outputs_are_recorded(
        cs1,
        Gadget::M31Sub,
        seq![x.real.variable, y.variable],
        ElementView::Num(b.value),
        ElementView::Num(0),
    );
    assert(cs2.memory.take(n) =~= cs.memory);
}

/// A product with a base field variable is two gadgets, the real part's first.
pub proof fn product_with_base_is_recorded(cs: ConstraintSystemView, x: ComplexWire, y: Wire)
    ensures
        ({
            let (after, r) = complex_mul_m31_step(cs, x, y);
            let n = cs.memory.len() as int;
            &&& after.memory.len() == n + 2
            &&& after.memory.take(n) == cs.memory
            &&& after.trace == cs.trace
                + gadget_entries(Gadget::M31Mul, seq![x.real.variable, y.variable], n)
                + gadget_entries(Gadget::M31Mul, seq![x.imag.variable, y.variable], n + 1)
            &&& r.real.variable == n
            &&& r.imag.variable == n + 1
        }),
{
    let n = cs.memory.len() as int;
    let (cs1, a) = mul_step(cs, x.real, y);
    outputs_are_recorded(
        cs,
        Gadget::M31Mul,
        seq![x.real.variable, y.variable],
        ElementView::Num(a.value),
        ElementView::Num(0),
    );
    let (cs2, b) = mul_step(cs1, x.imag, y);
    outputs_are_recorded(
        cs1,
        Gadget::M31Mul,
        seq![x.imag.variable, y.variable],
        ElementView::Num(b.value),
        ElementView::Num(0),
    );
    assert(cs2.memory.take(n) =~= cs.memory);
}

/// A complex negation is two gadgets, the real part's first.
pub proof fn complex_negation_is_recorded(cs: ConstraintSystemView, x: ComplexWire)
    ensures
        ({
            let (after, r) = complex_neg_step(cs, x);
            let n = cs.memory.len() as int;
            &&& after.memory.len() == n + 2
            &&& after.memory.take(n) == cs.memory
            &&& after.trace == cs.trace
                + gadget_entries(Gadget::M31Neg, seq![x.real.variable], n)
                + gadget_entries(Gadget::M31Neg, seq![x.imag.variable], n + 1)
            &&& r.real.variable == n
            &&& r.imag.variable == n + 1
        }),
{
    let n = cs.memory.len() as int;
    let (cs1, a) = neg_step(cs, x.real);
    outputs_are_recorded(
        cs,
        Gadget::M31Neg,
        seq![x.real.variable],
        ElementView::Num(a.value),
        ElementView::Num(0),
    );
    let (cs2, b) = neg_step(cs1, x.imag);
    outputs_are_recorded(
        cs1,
        Gadget::M31Neg,
        seq![x.imag.variable],
        ElementView::Num(b.value),
        ElementView::Num(0),
    );
    assert(cs2.memory.take(n) =~= cs.memory);
}

/// A shift is a copy of the real part and a negation of the imaginary part.
pub proof fn shift_by_i_is_recorded(cs: ConstraintSystemView, x: ComplexWire)
    ensures
        ({
            let (after, r) = shift_by_i_step(cs, x);
            let n = cs.memory.len() as int;
            &&& after.memory.len() == n + 2
            &&& after.memory.take(n) == cs.memory
            &&& after.trace == cs.trace
                + gadget_entries(Gadget::Copy, seq![x.real.variable], n)
                + gadget_entries(Gadget::M31Neg, seq![x.imag.variable], n + 1)
            &&& r.real.variable == n + 1
            &&& r.imag.variable == n
        }),
{
    let n = cs.memory.len() as int;
    let (cs1, a) = copy_step(cs, x.real);
    outputs_are_recorded(
        cs,
        Gadget::Copy,
        seq![x.real.variable],
        ElementView::Num(a.value),
        ElementView::Num(0),
    );
    let (cs2, b) = neg_step(cs1, x.imag);
    outputs_are_recorded(
        cs1,
        Gadget::M31Neg,
        seq![x.imag.variable],
        ElementView::Num(b.value),
        ElementView::Num(0),
    );
    assert(cs2.memory.take(n) =~= cs.memory);
}

/// A complex product is eight gadgets, three of them products.
pub proof fn complex_product_is_recorded(
    cs: ConstraintSystemView,
    x: ComplexWire,
    y: ComplexWire,
)
    ensures
        ({
            let (after, r) = complex_mul_step(cs, x, y);
            let n = cs.memory.len() as int;
            &&& after.memory.len() == n + 8
            &&& after.memory.take(n) == cs.memory
            &&& after.trace == cs.trace
                + gadget_entries(Gadget::M31Mul, seq![x.real.variable, y.real.variable], n)
                + gadget_entries(Gadget::M31Mul, seq![x.imag.variable, y.imag.variable], n + 1)
                + gadget_entries(Gadget::M31Add, seq![x.real.variable, x.imag.variable], n + 2)
                + gadget_entries(Gadget::M31Add, seq![y.real.variable, y.imag.variable], n + 3)
                + gadget_entries(Gadget::M31Mul, seq![n + 2, n + 3], n + 4)
                + gadget_entries(Gadget::M31Sub, seq![n, n + 1], n + 5)
                + gadget_entries(Gadget::M31Sub, seq![n + 4, n], n + 6)
                + gadget_entries(Gadget::M31Sub, seq![n + 6, n + 1], n + 7)
            &&& r.real.variable == n + 5
            &&& r.imag.variable == n + 7
        }),
{
    let n = cs.memory.len() as int;
    let (cs1, ac) = mul_step(cs, x.real, y.real);
    outputs_are_recorded(
        cs,
        Gadget::M31Mul,
        seq![x.real.variable, y.real.variable],
        ElementView::Num(ac.value),
        ElementView::Num(0),
    );
    let (cs2, bd) = mul_step(cs1, x.imag, y.imag);
    outputs_are_recorded(
        cs1,
        Gadget::M31Mul,
        seq![x.imag.variable, y.imag.variable],
        ElementView::Num(bd.value),
        ElementView::Num(0),
    );
    let (cs3, a_plus_b) = add_step(cs2, x.real, x.imag);
    outputs_are_recorded(
        cs2,
        Gadget::M31Add,
        seq![x.real.variable, x.imag.variable],
        ElementView::Num(a_plus_b.value),
        ElementView::Num(0),
    );
    let (cs4, c_plus_d) = add_step(cs3, y.real, y.imag);
    outputs_are_recorded(
        cs3,
        Gadget::M31Add,
        seq![y.real.variable, y.imag.variable],
        ElementView::Num(c_plus_d.value),
        ElementView::Num(0),
    );
    let (cs5, abcd) = mul_step(cs4, a_plus_b, c_plus_d);
    outputs_are_recorded(
        cs4,
        Gadget::M31Mul,
        seq![a_plus_b.variable, c_plus_d.variable],
        ElementView::Num(abcd.value),
        ElementView::Num(0),
    );
    let (cs6, re) = sub_step(cs5, ac, bd);
    outputs_are_recorded(
        cs5,
        Gadget::M31Sub,
        seq![ac.variable, bd.variable],
        ElementView::Num(re.value),
        ElementView::Num(0),
    );
    let (cs7, rest) = sub_step(cs6, abcd, ac);
    outputs_are_recorded(
        cs6,
        Gadget::M31Sub,
        seq![abcd.variable, ac.variable],
        ElementView::Num(rest.value),
        ElementView::Num(0),
    );
    let (cs8, imag) = sub_step(cs7, rest, bd);
    outputs_are_recorded(
        cs7,
        Gadget::M31Sub,
        seq![rest.variable, bd.variable],
        ElementView::Num(imag.value),
        ElementView::Num(0),
    );
    assert(cs8.memory.take(n) =~= cs.memory);
}

/// An inverse is two hints, the eight gadgets of a product and the two checks that it is one.
pub proof fn inverse_is_recorded(cs: ConstraintSystemView, x: ComplexWire, hint: CM31)
    ensures
        ({
            let (after, r) = inverse_step(cs, x, hint);
            let n = cs.memory.len() as int;
            let k = cs.trace.len() as int;
            &&& after.memory.len() == n + 10
            &&& after.trace.len() == k + 20
            &&& after.trace[k] == (TraceEntryView::Alloc {
                mode: AllocationMode::Hint,
                variable: n,
            })
            &&& after.trace[k + 1] == (TraceEntryView::Alloc {
                mode: AllocationMode::Hint,
                variable: n + 1,
            })
            &&& after.trace[k + 18] == (TraceEntryView::Script {
                gadget: Gadget::M31IsOne,
                inputs: seq![n + 7],
                first_output: n + 10,
            })
            &&& after.trace[k + 19] == (TraceEntryView::Script {
                gadget: Gadget::M31IsZero,
                inputs: seq![n + 9],
                first_output: n + 10,
            })
            &&& r.imag.variable == n
            &&& r.real.variable == n + 1
        }),
{
    let (cs1, res) = complex_new_step(cs, hint, AllocationMode::Hint);
    complex_variable_is_recorded(cs, hint, AllocationMode::Hint);
    complex_product_is_recorded(cs1, res, x);
    let (cs2, product) = complex_mul_step(cs1, res, x);
    let k = cs.trace.len() as int;
    assert(cs2.trace[k] == cs1.trace[k]);
    assert(cs2.trace[k + 1] == cs1.trace[k + 1]);
    assert(is_one_step(cs2, product).trace[k] == cs2.trace[k]);
    assert(is_one_step(cs2, product).trace[k + 1] == cs2.trace[k + 1]);
}

} // verus!
