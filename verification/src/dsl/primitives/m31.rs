//! Variables for elements of the Mersenne-31 field.

use crate::constraint_system::{
    gadget_entries, gadget_holds, is_m31_element, lemma_check_in_force, lemma_gadget_in_force,
    lemma_script_keeps_wf, outputs_are_recorded, values_at, AllocationMode, ConstraintSystem,
    ConstraintSystemView, Element, ElementView, Gadget, TraceEntryView,
};
use crate::fields::m31::{
    add_m31, is_m31, m31_add, m31_mul, m31_neg, m31_operations_are_modular,
    m31_results_are_reduced, m31_sub, mul_m31, neg_m31, sub_m31,
};
use vstd::arithmetic::power2::{lemma2_to64, pow2};
use vstd::prelude::*;

verus! {

/// A field element in a constraint system: the variable's number and its value.
#[derive(Clone, Copy, Debug)]
pub struct M31Var {
    pub variable: usize,
    pub value: u32,
}

/// A variable's number and its value, as integers.
pub struct Wire {
    pub variable: int,
    pub value: int,
}

impl Wire {
    /// The system holds the variable with this value, which stands for a field element.
    pub open spec fn valid_in(self, cs: ConstraintSystemView) -> bool {
        &&& 0 <= self.variable < cs.memory.len()
        &&& cs.memory[self.variable] == ElementView::Num(self.value)
        &&& is_m31(self.value)
    }
}

impl View for M31Var {
    type V = Wire;

    open spec fn view(&self) -> Wire {
        Wire { variable: self.variable as int, value: self.value as int }
    }
}

/// A gadget that leaves one number.
pub open spec fn number_step(
    cs: ConstraintSystemView,
    gadget: Gadget,
    inputs: Seq<int>,
    value: int,
) -> (ConstraintSystemView, Wire) {
    (
        cs.emit(gadget, inputs, ElementView::Num(value)),
        Wire { variable: cs.memory.len() as int, value },
    )
}

/// Adding two variables.
pub open spec fn add_step(cs: ConstraintSystemView, a: Wire, b: Wire) -> (
    ConstraintSystemView,
    Wire,
) {
    number_step(cs, Gadget::M31Add, seq![a.variable, b.variable], m31_add(a.value, b.value))
}

/// Subtracting one variable from another.
pub open spec fn sub_step(cs: ConstraintSystemView, a: Wire, b: Wire) -> (
    ConstraintSystemView,
    Wire,
) {
    number_step(cs, Gadget::M31Sub, seq![a.variable, b.variable], m31_sub(a.value, b.value))
}

/// Multiplying two variables.
pub open spec fn mul_step(cs: ConstraintSystemView, a: Wire, b: Wire) -> (
    ConstraintSystemView,
    Wire,
) {
    number_step(cs, Gadget::M31Mul, seq![a.variable, b.variable], m31_mul(a.value, b.value))
}

/// Negating a variable.
pub open spec fn neg_step(cs: ConstraintSystemView, a: Wire) -> (ConstraintSystemView, Wire) {
    number_step(cs, Gadget::M31Neg, seq![a.variable], m31_neg(a.value))
}

/// Copying a variable.
pub open spec fn copy_step(cs: ConstraintSystemView, a: Wire) -> (ConstraintSystemView, Wire) {
    number_step(cs, Gadget::Copy, seq![a.variable], a.value)
}

/// Keeping a variable's low bits.
pub open spec fn trim_step(cs: ConstraintSystemView, a: Wire, logn: usize) -> (
    ConstraintSystemView,
    Wire,
) {
    number_step(
        cs,
        Gadget::M31Trim(logn),
        seq![a.variable],
        a.value % (pow2(logn as nat) as int),
    )
}

/// Allocating a variable.
pub open spec fn new_step(cs: ConstraintSystemView, value: int, mode: AllocationMode) -> (
    ConstraintSystemView,
    Wire,
) {
    (
        cs.allocate(ElementView::Num(value), mode),
        Wire { variable: cs.memory.len() as int, value },
    )
}

impl M31Var {
    /// Allocates a variable.
    pub fn new_variable(cs: &mut ConstraintSystem, data: u32, mode: AllocationMode) -> (r: M31Var)
        requires
            old(cs)@.wf(),
            is_m31(data as int),
        ensures
            (final(cs)@, r@) == new_step(old(cs)@, data as int, mode),
            final(cs)@.wf(),
            final(cs)@.extends(old(cs)@),
            r@.valid_in(final(cs)@),
    {
        let variable: usize = cs.allocate(Element::Num(data as i32), mode);
        M31Var { variable, value: data }
    }

    /// Inserts a gadget on one or two variables that leaves a number.
    fn apply(cs: &mut ConstraintSystem, gadget: Gadget, inputs: Vec<usize>, value: u32) -> (r:
        M31Var)
        requires
            old(cs)@.wf(),
            is_m31(value as int),
            gadget.outputs() == 1,
            forall|j: int| 0 <= j < inputs.len() ==> #[trigger] inputs[j] < old(cs)@.memory.len(),
            gadget_holds(
                gadget,
                values_at(old(cs)@.memory, inputs@.map_values(|v: usize| v as int)),
                seq![ElementView::Num(value as int)],
            ),
        ensures
            (final(cs)@, r@) == number_step(
                old(cs)@,
                gadget,
                inputs@.map_values(|v: usize| v as int),
                value as int,
            ),
            final(cs)@.wf(),
            final(cs)@.extends(old(cs)@),
            r@.valid_in(final(cs)@),
    {
        let ghost before = cs@;
        let ghost wires = inputs@.map_values(|v: usize| v as int);
        cs.insert_script(gadget, inputs);
        let variable: usize = cs.allocate(Element::Num(value as i32), AllocationMode::FunctionOutput);
        proof {
            lemma_script_keeps_wf(
                before,
                gadget,
                wires,
                seq![ElementView::Num(value as int)],
                cs@,
            );
        }
        M31Var { variable, value }
    }

    /// Adds two variables.
    pub fn add(&self, rhs: &M31Var, cs: &mut ConstraintSystem) -> (r: M31Var)
        requires
            old(cs)@.wf(),
            self@.valid_in(old(cs)@),
            rhs@.valid_in(old(cs)@),
        ensures
            (final(cs)@, r@) == add_step(old(cs)@, self@, rhs@),
            final(cs)@.wf(),
            final(cs)@.extends(old(cs)@),
            r@.valid_in(final(cs)@),
    {
        let value: u32 = add_m31(self.value, rhs.value);
        let inputs: Vec<usize> = vec![self.variable, rhs.variable];
        assert(inputs@.map_values(|v: usize| v as int) =~= seq![self@.variable, rhs@.variable]);
        Self::apply(cs, Gadget::M31Add, inputs, value)
    }

    /// Subtracts a variable.
    pub fn sub(&self, rhs: &M31Var, cs: &mut ConstraintSystem) -> (r: M31Var)
        requires
            old(cs)@.wf(),
            self@.valid_in(old(cs)@),
            rhs@.valid_in(old(cs)@),
        ensures
            (final(cs)@, r@) == sub_step(old(cs)@, self@, rhs@),
            final(cs)@.wf(),
            final(cs)@.extends(old(cs)@),
            r@.valid_in(final(cs)@),
    {
        let value: u32 = sub_m31(self.value, rhs.value);
        let inputs: Vec<usize> = vec![self.variable, rhs.variable];
        assert(inputs@.map_values(|v: usize| v as int) =~= seq![self@.variable, rhs@.variable]);
        Self::apply(cs, Gadget::M31Sub, inputs, value)
    }

    /// Multiplies two variables.
    pub fn mul(&self, rhs: &M31Var, cs: &mut ConstraintSystem) -> (r: M31Var)
        requires
            old(cs)@.wf(),
            self@.valid_in(old(cs)@),
            rhs@.valid_in(old(cs)@),
        ensures
            (final(cs)@, r@) == mul_step(old(cs)@, self@, rhs@),
            final(cs)@.wf(),
            final(cs)@.extends(old(cs)@),
            r@.valid_in(final(cs)@),
    {
        let value: u32 = mul_m31(self.value, rhs.value);
        let inputs: Vec<usize> = vec![self.variable, rhs.variable];
        assert(inputs@.map_values(|v: usize| v as int) =~= seq![self@.variable, rhs@.variable]);
        Self::apply(cs, Gadget::M31Mul, inputs, value)
    }

    /// Negates a variable.
    pub fn neg(&self, cs: &mut ConstraintSystem) -> (r: M31Var)
        requires
            old(cs)@.wf(),
            self@.valid_in(old(cs)@),
        ensures
            (final(cs)@, r@) == neg_step(old(cs)@, self@),
            final(cs)@.wf(),
            final(cs)@.extends(old(cs)@),
            r@.valid_in(final(cs)@),
    {
        let value: u32 = neg_m31(self.value);
        let inputs: Vec<usize> = vec![self.variable];
        assert(inputs@.map_values(|v: usize| v as int) =~= seq![self@.variable]);
        Self::apply(cs, Gadget::M31Neg, inputs, value)
    }

    /// Copies a variable.
    pub fn copy(&self, cs: &mut ConstraintSystem) -> (r: M31Var)
        requires
            old(cs)@.wf(),
            self@.valid_in(old(cs)@),
        ensures
            (final(cs)@, r@) == copy_step(old(cs)@, self@),
            final(cs)@.wf(),
            final(cs)@.extends(old(cs)@),
            r@.valid_in(final(cs)@),
    {
        let inputs: Vec<usize> = vec![self.variable];
        assert(inputs@.map_values(|v: usize| v as int) =~= seq![self@.variable]);
        Self::apply(cs, Gadget::Copy, inputs, self.value)
    }

    /// Keeps the low `logn` bits.
    pub fn trim(&self, logn: usize, cs: &mut ConstraintSystem) -> (r: M31Var)
        requires
            old(cs)@.wf(),
            self@.valid_in(old(cs)@),
            logn < 32,
        ensures
            (final(cs)@, r@) == trim_step(old(cs)@, self@, logn),
            final(cs)@.wf(),
            final(cs)@.extends(old(cs)@),
            r@.valid_in(final(cs)@),
    {
        let value: u32 = trim_m31(self.value, logn);
        let inputs: Vec<usize> = vec![self.variable];
        assert(inputs@.map_values(|v: usize| v as int) =~= seq![self@.variable]);
        Self::apply(cs, Gadget::M31Trim(logn), inputs, value)
    }

    /// Inserts a gadget that checks one variable.
    fn check(&self, cs: &mut ConstraintSystem, gadget: Gadget)
        requires
            old(cs)@.wf(),
            self@.valid_in(old(cs)@),
            gadget.outputs() == 0,
            gadget_holds(
                gadget,
                seq![ElementView::Num(self.value as int)],
                Seq::<ElementView>::empty(),
            ),
        ensures
            final(cs)@ == old(cs)@.insert_script(gadget, seq![self@.variable]),
            final(cs)@.wf(),
            final(cs)@.extends(old(cs)@),
    {
        let ghost before = cs@;
        let inputs: Vec<usize> = vec![self.variable];
        assert(inputs@.map_values(|v: usize| v as int) =~= seq![self@.variable]);
        cs.insert_script(gadget, inputs);
        proof {
            assert(values_at(before.memory, seq![self@.variable])
                =~= seq![ElementView::Num(self.value as int)]);
            lemma_script_keeps_wf(
                before,
                gadget,
                seq![self@.variable],
                Seq::<ElementView>::empty(),
                cs@,
            );
        }
    }

    /// Checks that the element is one.
    pub fn is_one(&self, cs: &mut ConstraintSystem)
        requires
            old(cs)@.wf(),
            self@.valid_in(old(cs)@),
            self.value == 1,
        ensures
            final(cs)@ == old(cs)@.insert_script(Gadget::M31IsOne, seq![self@.variable]),
            final(cs)@.wf(),
            final(cs)@.extends(old(cs)@),
    {
        self.check(cs, Gadget::M31IsOne);
    }

    /// Checks that the element is zero.
    pub fn is_zero(&self, cs: &mut ConstraintSystem)
        requires
            old(cs)@.wf(),
            self@.valid_in(old(cs)@),
            self.value == 0,
        ensures
            final(cs)@ == old(cs)@.insert_script(Gadget::M31IsZero, seq![self@.variable]),
            final(cs)@.wf(),
            final(cs)@.extends(old(cs)@),
    {
        self.check(cs, Gadget::M31IsZero);
    }
}

/// Keeps the low `logn` bits of a number.
pub fn trim_m31(value: u32, logn: usize) -> (r: u32)
    requires
        logn < 32,
    ensures
        r == value as int % (pow2(logn as nat) as int),
        r <= value,
{
    let shift: u32 = logn as u32;
    let size: u32 = 1u32 << shift;
    proof {
        lemma2_to64();
        vstd::bits::lemma_u32_shl_is_mul(1, shift);
        vstd::arithmetic::div_mod::lemma_mod_decreases(value as nat, size as nat);
    }
    value % size
}

/// A variable shows its number and its value as they are.
pub proof fn wire_shows_the_variable(x: M31Var)
    ensures
        x@.variable == x.variable,
        x@.value == x.value,
{
}

/// Allocating a variable records its mode and its value and ties it to nothing.
pub proof fn new_variable_is_recorded(cs: ConstraintSystemView, value: int, mode: AllocationMode)
    ensures
        ({
            let (after, r) = new_step(cs, value, mode);
            let n = cs.memory.len() as int;
            &&& after.memory == cs.memory.push(ElementView::Num(value))
            &&& after.trace == cs.trace.push(TraceEntryView::Alloc { mode, variable: n })
            &&& r.variable == n
            &&& r.value == value
        }),
{
}

/// A sum is one gadget on its two operands, in order, which leaves the variable.
pub proof fn sum_is_recorded(cs: ConstraintSystemView, a: Wire, b: Wire)
    requires
        is_m31(a.value),
        is_m31(b.value),
    ensures
        ({
            let (after, r) = add_step(cs, a, b);
            let n = cs.memory.len() as int;
            &&& after.memory == cs.memory.push(ElementView::Num(r.value))
            &&& after.trace == cs.trace + gadget_entries(
                Gadget::M31Add,
                seq![a.variable, b.variable],
                n,
            )
            &&& r.variable == n
            &&& is_m31(r.value)
            &&& r.value % 0x7fff_ffff == (a.value + b.value) % 0x7fff_ffff
        }),
{
    m31_operations_are_modular(a.value, b.value);
    m31_results_are_reduced(a.value, b.value);
    outputs_are_recorded(
        cs,
        Gadget::M31Add,
        seq![a.variable, b.variable],
        ElementView::Num(m31_add(a.value, b.value)),
        ElementView::Num(0),
    );
}

/// Whatever values a prover picks, a sum variable holds the sum of what its operands hold, once
/// the constraints are met.
pub proof fn sum_is_forced(
    cs: ConstraintSystemView,
    a: Wire,
    b: Wire,
    later: ConstraintSystemView,
    assignment: Seq<ElementView>,
)
    requires
        later.extends(add_step(cs, a, b).0),
        later.satisfied_by(assignment),
    ensures
        is_m31_element(assignment[a.variable]),
        is_m31_element(assignment[b.variable]),
        assignment[add_step(cs, a, b).1.variable] == ElementView::Num(
            m31_add(assignment[a.variable]->Num_0, assignment[b.variable]->Num_0),
        ),
{
    let ins = seq![a.variable, b.variable];
    lemma_gadget_in_force(
        cs,
        Gadget::M31Add,
        ins,
        ElementView::Num(m31_add(a.value, b.value)),
        later,
        assignment,
    );
    assert(values_at(assignment, ins)[0] == assignment[a.variable]);
    assert(values_at(assignment, ins)[1] == assignment[b.variable]);
    assert(seq![assignment[cs.memory.len() as int]][0] == assignment[cs.memory.len() as int]);
}

/// A difference is one gadget on its two operands, in order, which leaves the variable.
pub proof fn difference_is_recorded(cs: ConstraintSystemView, a: Wire, b: Wire)
    requires
        is_m31(a.value),
        is_m31(b.value),
    ensures
        ({
            let (after, r) = sub_step(cs, a, b);
            let n = cs.memory.len() as int;
            &&& after.memory == cs.memory.push(ElementView::Num(r.value))
            &&& after.trace == cs.trace + gadget_entries(
                Gadget::M31Sub,
                seq![a.variable, b.variable],
                n,
            )
            &&& r.variable == n
            &&& is_m31(r.value)
            &&& r.value % 0x7fff_ffff == (a.value - b.value) % 0x7fff_ffff
        }),
{
    m31_operations_are_modular(a.value, b.value);
    m31_results_are_reduced(a.value, b.value);
    outputs_are_recorded(
        cs,
        Gadget::M31Sub,
        seq![a.variable, b.variable],
        ElementView::Num(m31_sub(a.value, b.value)),
        ElementView::Num(0),
    );
}

/// Whatever values a prover picks, a difference variable holds the difference of what its operands hold, once
/// the constraints are met.
pub proof fn difference_is_forced(
    cs: ConstraintSystemView,
    a: Wire,
    b: Wire,
    later: ConstraintSystemView,
    assignment: Seq<ElementView>,
)
    requires
        later.extends(sub_step(cs, a, b).0),
        later.satisfied_by(assignment),
    ensures
        is_m31_element(assignment[a.variable]),
        is_m31_element(assignment[b.variable]),
        assignment[sub_step(cs, a, b).1.variable] == ElementView::Num(
            m31_sub(assignment[a.variable]->Num_0, assignment[b.variable]->Num_0),
        ),
{
    let ins = seq![a.variable, b.variable];
    lemma_gadget_in_force(
        cs,
        Gadget::M31Sub,
        ins,
        ElementView::Num(m31_sub(a.value, b.value)),
        later,
        assignment,
    );
    assert(values_at(assignment, ins)[0] == assignment[a.variable]);
    assert(values_at(assignment, ins)[1] == assignment[b.variable]);
    assert(seq![assignment[cs.memory.len() as int]][0] == assignment[cs.memory.len() as int]);
}

/// A product is one gadget on its two operands, in order, which leaves the variable.
pub proof fn product_is_recorded(cs: ConstraintSystemView, a: Wire, b: Wire)
    requires
        is_m31(a.value),
        is_m31(b.value),
    ensures
        ({
            let (after, r) = mul_step(cs, a, b);
            let n = cs.memory.len() as int;
            &&& after.memory == cs.memory.push(ElementView::Num(r.value))
            &&& after.trace == cs.trace + gadget_entries(
                Gadget::M31Mul,
                seq![a.variable, b.variable],
                n,
            )
            &&& r.variable == n
            &&& is_m31(r.value)
            &&& r.value % 0x7fff_ffff == (a.value * b.value) % 0x7fff_ffff
        }),
{
    m31_operations_are_modular(a.value, b.value);
    m31_results_are_reduced(a.value, b.value);
    outputs_are_recorded(
        cs,
        Gadget::M31Mul,
        seq![a.variable, b.variable],
        ElementView::Num(m31_mul(a.value, b.value)),
        ElementView::Num(0),
    );
}

/// Whatever values a prover picks, a product variable holds the product of what its operands hold, once
/// the constraints are met.
pub proof fn product_is_forced(
    cs: ConstraintSystemView,
    a: Wire,
    b: Wire,
    later: ConstraintSystemView,
    assignment: Seq<ElementView>,
)
    requires
        later.extends(mul_step(cs, a, b).0),
        later.satisfied_by(assignment),
    ensures
        is_m31_element(assignment[a.variable]),
        is_m31_element(assignment[b.variable]),
        assignment[mul_step(cs, a, b).1.variable] == ElementView::Num(
            m31_mul(assignment[a.variable]->Num_0, assignment[b.variable]->Num_0),
        ),
{
    let ins = seq![a.variable, b.variable];
    lemma_gadget_in_force(
        cs,
        Gadget::M31Mul,
        ins,
        ElementView::Num(m31_mul(a.value, b.value)),
        later,
        assignment,
    );
    assert(values_at(assignment, ins)[0] == assignment[a.variable]);
    assert(values_at(assignment, ins)[1] == assignment[b.variable]);
    assert(seq![assignment[cs.memory.len() as int]][0] == assignment[cs.memory.len() as int]);
}

/// A negation is one gadget on its operand, which leaves the variable.
pub proof fn negation_is_recorded(cs: ConstraintSystemView, a: Wire)
    requires
        is_m31(a.value),
    ensures
        ({
            let (after, r) = neg_step(cs, a);
            let n = cs.memory.len() as int;
            &&& after.memory == cs.memory.push(ElementView::Num(r.value))
            &&& after.trace == cs.trace + gadget_entries(Gadget::M31Neg, seq![a.variable], n)
            &&& r.variable == n
            &&& r.value % 0x7fff_ffff == (-a.value) % 0x7fff_ffff && 0 <= r.value < 0x7fff_ffff
        }),
{
    m31_operations_are_modular(a.value, 0);
    m31_results_are_reduced(a.value, 0);
    outputs_are_recorded(
        cs,
        Gadget::M31Neg,
        seq![a.variable],
        ElementView::Num(m31_neg(a.value)),
        ElementView::Num(0),
    );
}

/// Whatever values a prover picks, a negation holds the negation of what the variable holds, once the constraints are
/// met.
pub proof fn negation_is_forced(
    cs: ConstraintSystemView,
    a: Wire,
    later: ConstraintSystemView,
    assignment: Seq<ElementView>,
)
    requires
        later.extends(neg_step(cs, a).0),
        later.satisfied_by(assignment),
    ensures
        is_m31_element(assignment[a.variable]) && assignment[neg_step(cs, a).1.variable] == ElementView::Num(
            m31_neg(assignment[a.variable]->Num_0),
        ),
{
    let ins = seq![a.variable];
    lemma_gadget_in_force(
        cs,
        Gadget::M31Neg,
        ins,
        ElementView::Num(m31_neg(a.value)),
        later,
        assignment,
    );
    assert(values_at(assignment, ins)[0] == assignment[a.variable]);
    assert(seq![assignment[cs.memory.len() as int]][0] == assignment[cs.memory.len() as int]);
}

/// A copy is one gadget on its operand, which leaves the variable.
pub proof fn copy_is_recorded(cs: ConstraintSystemView, a: Wire)
    requires
        is_m31(a.value),
    ensures
        ({
            let (after, r) = copy_step(cs, a);
            let n = cs.memory.len() as int;
            &&& after.memory == cs.memory.push(ElementView::Num(r.value))
            &&& after.trace == cs.trace + gadget_entries(Gadget::Copy, seq![a.variable], n)
            &&& r.variable == n
            &&& r.value == a.value
        }),
{
    outputs_are_recorded(
        cs,
        Gadget::Copy,
        seq![a.variable],
        ElementView::Num(a.value),
        ElementView::Num(0),
    );
}

/// Whatever values a prover picks, a copy holds what the variable holds, once the constraints are
/// met.
pub proof fn copy_is_forced(
    cs: ConstraintSystemView,
    a: Wire,
    later: ConstraintSystemView,
    assignment: Seq<ElementView>,
)
    requires
        later.extends(copy_step(cs, a).0),
        later.satisfied_by(assignment),
    ensures
        assignment[copy_step(cs, a).1.variable] == assignment[a.variable],
{
    let ins = seq![a.variable];
    lemma_gadget_in_force(
        cs,
        Gadget::Copy,
        ins,
        ElementView::Num(a.value),
        later,
        assignment,
    );
    assert(values_at(assignment, ins)[0] == assignment[a.variable]);
    assert(seq![assignment[cs.memory.len() as int]][0] == assignment[cs.memory.len() as int]);
}

/// A trimming is one gadget on its operand, which leaves the variable.
pub proof fn trimming_is_recorded(cs: ConstraintSystemView, a: Wire, logn: usize)
    requires
        is_m31(a.value),
    ensures
        ({
            let (after, r) = trim_step(cs, a, logn);
            let n = cs.memory.len() as int;
            &&& after.memory == cs.memory.push(ElementView::Num(r.value))
            &&& after.trace == cs.trace + gadget_entries(Gadget::M31Trim(logn), seq![a.variable], n)
            &&& r.variable == n
            &&& 0 <= r.value < pow2(logn as nat) && (a.value - r.value) % (pow2(logn as nat) as int) == 0
        }),
{
    let size = pow2(logn as nat) as int;
    vstd::arithmetic::power2::lemma_pow2_pos(logn as nat);
    vstd::arithmetic::div_mod::lemma_mod_pos_bound(a.value, size);
    vstd::arithmetic::div_mod::lemma_fundamental_div_mod(a.value, size);
    vstd::arithmetic::div_mod::lemma_mod_multiples_basic(a.value / size, size);
    assert(a.value - a.value % size == (a.value / size) * size) by (nonlinear_arith)
        requires
            a.value == size * (a.value / size) + a.value % size,
    ;
    outputs_are_recorded(
        cs,
        Gadget::M31Trim(logn),
        seq![a.variable],
        ElementView::Num(a.value % (pow2(logn as nat) as int)),
        ElementView::Num(0),
    );
}

/// Whatever values a prover picks, a trimming holds the low bits of what the variable holds, once the constraints are
/// met.
pub proof fn trimming_is_forced(
    cs: ConstraintSystemView,
    a: Wire,
    logn: usize,
    later: ConstraintSystemView,
    assignment: Seq<ElementView>,
)
    requires
        later.extends(trim_step(cs, a, logn).0),
        later.satisfied_by(assignment),
    ensures
        is_m31_element(assignment[a.variable]) && assignment[trim_step(cs, a, logn).1.variable]
            == ElementView::Num(
            assignment[a.variable]->Num_0 % (pow2(logn as nat) as int),
        ),
{
    let ins = seq![a.variable];
    lemma_gadget_in_force(
        cs,
        Gadget::M31Trim(logn),
        ins,
        ElementView::Num(a.value % (pow2(logn as nat) as int)),
        later,
        assignment,
    );
    assert(values_at(assignment, ins)[0] == assignment[a.variable]);
    assert(seq![assignment[cs.memory.len() as int]][0] == assignment[cs.memory.len() as int]);
}

/// Whatever values a prover picks, a variable that was checked to be one holds one, once the
/// constraints are met.
pub proof fn check_for_one_is_forced(
    cs: ConstraintSystemView,
    a: Wire,
    later: ConstraintSystemView,
    assignment: Seq<ElementView>,
)
    requires
        later.extends(cs.insert_script(Gadget::M31IsOne, seq![a.variable])),
        later.satisfied_by(assignment),
    ensures
        assignment[a.variable] == ElementView::Num(1),
{
    let ins = seq![a.variable];
    lemma_check_in_force(cs, Gadget::M31IsOne, ins, later, assignment);
    assert(values_at(assignment, ins)[0] == assignment[a.variable]);
}

/// Whatever values a prover picks, a variable that was checked to be zero holds zero, once the
/// constraints are met.
pub proof fn check_for_zero_is_forced(
    cs: ConstraintSystemView,
    a: Wire,
    later: ConstraintSystemView,
    assignment: Seq<ElementView>,
)
    requires
        later.extends(cs.insert_script(Gadget::M31IsZero, seq![a.variable])),
        later.satisfied_by(assignment),
    ensures
        assignment[a.variable] == ElementView::Num(0),
{
    let ins = seq![a.variable];
    lemma_check_in_force(cs, Gadget::M31IsZero, ins, later, assignment);
    assert(values_at(assignment, ins)[0] == assignment[a.variable]);
}

} // verus!
