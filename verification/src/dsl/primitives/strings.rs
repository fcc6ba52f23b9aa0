//! Variables for strings of bytes and for hashes.

use crate::constraint_system::{
    gadget_entries, gadget_holds, lemma_check_in_force, lemma_gadget_in_force,
    lemma_script_keeps_wf, outputs_are_recorded, values_at, AllocationMode, ConstraintSystem,
    ConstraintSystemView, Element, ElementView, Gadget, TraceEntryView,
};
use vstd::prelude::*;

verus! {

/// A string in a constraint system: the variable's number and its value.
#[derive(Clone, Debug)]
pub struct StrVar {
    pub variable: usize,
    pub value: Vec<u8>,
}

/// A hash in a constraint system: the variable's number and its value.
#[derive(Clone, Debug)]
pub struct HashVar {
    pub variable: usize,
    pub value: Vec<u8>,
}

/// A variable's number and its value.
#[verifier::ext_equal]
pub struct StringWire {
    pub variable: int,
    pub value: Seq<u8>,
}

impl StringWire {
    /// The system holds the variable with this value.
    pub open spec fn valid_in(self, cs: ConstraintSystemView) -> bool {
        &&& 0 <= self.variable < cs.memory.len()
        &&& cs.memory[self.variable] == ElementView::Str(self.value)
    }
}

impl View for StrVar {
    type V = StringWire;

    open spec fn view(&self) -> StringWire {
        StringWire { variable: self.variable as int, value: self.value@ }
    }
}

impl View for HashVar {
    type V = StringWire;

    open spec fn view(&self) -> StringWire {
        StringWire { variable: self.variable as int, value: self.value@ }
    }
}

/// What a list of string variables holds.
pub open spec fn string_wires(list: Seq<StrVar>) -> Seq<StringWire> {
    list.map_values(|s: StrVar| s@)
}

/// Allocating a string.
pub open spec fn new_string_step(
    cs: ConstraintSystemView,
    value: Seq<u8>,
    mode: AllocationMode,
) -> (ConstraintSystemView, StringWire) {
    (
        cs.allocate(ElementView::Str(value), mode),
        StringWire { variable: cs.memory.len() as int, value },
    )
}

/// Concatenating two strings.
pub open spec fn cat_step(cs: ConstraintSystemView, a: StringWire, b: StringWire) -> (
    ConstraintSystemView,
    StringWire,
) {
    (
        cs.emit(
            Gadget::StrCat,
            seq![a.variable, b.variable],
            ElementView::Str(a.value + b.value),
        ),
        StringWire { variable: cs.memory.len() as int, value: a.value + b.value },
    )
}

/// Checking that a string is at most so long.
pub open spec fn len_check_step(cs: ConstraintSystemView, a: StringWire, n: usize) ->
    ConstraintSystemView {
    cs.insert_script(Gadget::StrLenLessThanOrEqual(n), seq![a.variable])
}

/// Checking that two strings are equal.
pub open spec fn equal_check_step(cs: ConstraintSystemView, a: StringWire, b: StringWire) ->
    ConstraintSystemView {
    cs.insert_script(Gadget::StrEqualVerify, seq![a.variable, b.variable])
}

impl HashVar {
    /// Allocates a variable.
    pub fn new_variable(cs: &mut ConstraintSystem, data: Vec<u8>, mode: AllocationMode) -> (r:
        HashVar)
        requires
            old(cs)@.wf(),
        ensures
            (final(cs)@, r@) == new_string_step(old(cs)@, data@, mode),
            final(cs)@.wf(),
            final(cs)@.extends(old(cs)@),
            r@.valid_in(final(cs)@),
    {
        let variable: usize = cs.allocate(Element::Str(data.clone()), mode);
        HashVar { variable, value: data }
    }

    /// Allocates a constant.
    pub fn new_constant(cs: &mut ConstraintSystem, data: Vec<u8>) -> (r: HashVar)
        requires
            old(cs)@.wf(),
        ensures
            (final(cs)@, r@) == new_string_step(old(cs)@, data@, AllocationMode::Constant),
            final(cs)@.wf(),
            final(cs)@.extends(old(cs)@),
            r@.valid_in(final(cs)@),
    {
        Self::new_variable(cs, data, AllocationMode::Constant)
    }

    /// The same variable as a string.
    pub fn to_str_var(&self) -> (r: StrVar)
        ensures
            r@ == self@,
    {
        StrVar { variable: self.variable, value: self.value.clone() }
    }
}

impl StrVar {
    /// Allocates a variable.
    pub fn new_variable(cs: &mut ConstraintSystem, data: Vec<u8>, mode: AllocationMode) -> (r:
        StrVar)
        requires
            old(cs)@.wf(),
        ensures
            (final(cs)@, r@) == new_string_step(old(cs)@, data@, mode),
            final(cs)@.wf(),
            final(cs)@.extends(old(cs)@),
            r@.valid_in(final(cs)@),
    {
        let variable: usize = cs.allocate(Element::Str(data.clone()), mode);
        StrVar { variable, value: data }
    }

    /// Concatenates two strings.
    pub fn cat(&self, rhs: &StrVar, cs: &mut ConstraintSystem) -> (r: StrVar)
        requires
            old(cs)@.wf(),
            self@.valid_in(old(cs)@),
            rhs@.valid_in(old(cs)@),
        ensures
            (final(cs)@, r@) == cat_step(old(cs)@, self@, rhs@),
            final(cs)@.wf(),
            final(cs)@.extends(old(cs)@),
            r@.valid_in(final(cs)@),
    {
        let ghost before = cs@;
        let mut value: Vec<u8> = self.value.clone();
        value.extend_from_slice(rhs.value.as_slice());
        assert(value@ =~= self.value@ + rhs.value@);
        let inputs: Vec<usize> = vec![self.variable, rhs.variable];
        let ghost wires = seq![self@.variable, rhs@.variable];
        assert(inputs@.map_values(|v: usize| v as int) =~= wires);
        cs.insert_script(Gadget::StrCat, inputs);
        let variable: usize = cs.allocate(
            Element::Str(value.clone()),
            AllocationMode::FunctionOutput,
        );
        proof {
            let outs = seq![ElementView::Str(value@)];
            assert(values_at(before.memory, wires) =~= seq![
                ElementView::Str(self.value@),
                ElementView::Str(rhs.value@),
            ]);
            assert(gadget_holds(Gadget::StrCat, values_at(before.memory, wires), outs));
            lemma_script_keeps_wf(before, Gadget::StrCat, wires, outs, cs@);
        }
        StrVar { variable, value }
    }

    /// Checks that the string has at most `n` bytes.
    pub fn len_lessthanorequal(&self, n: usize, cs: &mut ConstraintSystem)
        requires
            old(cs)@.wf(),
            self@.valid_in(old(cs)@),
            self.value.len() <= n,
        ensures
            final(cs)@ == len_check_step(old(cs)@, self@, n),
            final(cs)@.wf(),
            final(cs)@.extends(old(cs)@),
    {
        let ghost before = cs@;
        let gadget = Gadget::StrLenLessThanOrEqual(n);
        let inputs: Vec<usize> = vec![self.variable];
        let ghost wires = seq![self@.variable];
        assert(inputs@.map_values(|v: usize| v as int) =~= wires);
        cs.insert_script(gadget, inputs);
        proof {
            let outs = Seq::<ElementView>::empty();
            assert(gadget_holds(gadget, values_at(before.memory, wires), outs));
            lemma_script_keeps_wf(before, gadget, wires, outs, cs@);
        }
    }

    /// Checks that two strings are equal.
    pub fn equalverify(&self, rhs: &StrVar, cs: &mut ConstraintSystem)
        requires
            old(cs)@.wf(),
            self@.valid_in(old(cs)@),
            rhs@.valid_in(old(cs)@),
            self.value@ == rhs.value@,
        ensures
            final(cs)@ == equal_check_step(old(cs)@, self@, rhs@),
            final(cs)@.wf(),
            final(cs)@.extends(old(cs)@),
    {
        let ghost before = cs@;
        let inputs: Vec<usize> = vec![self.variable, rhs.variable];
        let ghost wires = seq![self@.variable, rhs@.variable];
        assert(inputs@.map_values(|v: usize| v as int) =~= wires);
        cs.insert_script(Gadget::StrEqualVerify, inputs);
        proof {
            let outs = Seq::<ElementView>::empty();
            assert(gadget_holds(Gadget::StrEqualVerify, values_at(before.memory, wires), outs));
            lemma_script_keeps_wf(before, Gadget::StrEqualVerify, wires, outs, cs@);
        }
    }
}

/// A variable shows its number and its whole value.
pub proof fn string_wires_show_the_variables(s: StrVar, h: HashVar, list: Seq<StrVar>, i: int)
    ensures
        s@.variable == s.variable,
        s@.value == s.value@,
        h@.variable == h.variable,
        h@.value == h.value@,
        string_wires(list).len() == list.len(),
        0 <= i < list.len() ==> string_wires(list)[i].variable == list[i].variable
            && string_wires(list)[i].value == list[i].value@,
{
}

/// Allocating a string records its mode and its value and ties it to nothing.
pub proof fn string_variable_is_recorded(
    cs: ConstraintSystemView,
    value: Seq<u8>,
    mode: AllocationMode,
)
    ensures
        ({
            let (after, r) = new_string_step(cs, value, mode);
            let n = cs.memory.len() as int;
            &&& after.memory == cs.memory.push(ElementView::Str(value))
            &&& after.trace == cs.trace.push(TraceEntryView::Alloc { mode, variable: n })
            &&& r.variable == n
            &&& r.value == value
        }),
{
}

/// A concatenation is one gadget on its two strings, in order, and the two checks are one gadget
/// each that leaves nothing.
pub proof fn string_gadgets_are_recorded(
    cs: ConstraintSystemView,
    a: StringWire,
    b: StringWire,
    n: usize,
)
    ensures
        ({
            let (after, r) = cat_step(cs, a, b);
            let k = cs.memory.len() as int;
            &&& after.memory == cs.memory.push(ElementView::Str(a.value + b.value))
            &&& after.trace == cs.trace + gadget_entries(
                Gadget::StrCat,
                seq![a.variable, b.variable],
                k,
            )
            &&& r.variable == k
            &&& r.value == a.value + b.value
            &&& len_check_step(cs, a, n).memory == cs.memory
            &&& len_check_step(cs, a, n).trace == cs.trace.push(
                TraceEntryView::Script {
                    gadget: Gadget::StrLenLessThanOrEqual(n),
                    inputs: seq![a.variable],
                    first_output: k,
                },
            )
            &&& equal_check_step(cs, a, b).memory == cs.memory
            &&& equal_check_step(cs, a, b).trace == cs.trace.push(
                TraceEntryView::Script {
                    gadget: Gadget::StrEqualVerify,
                    inputs: seq![a.variable, b.variable],
                    first_output: k,
                },
            )
        }),
{
    outputs_are_recorded(
        cs,
        Gadget::StrCat,
        seq![a.variable, b.variable],
        ElementView::Str(a.value + b.value),
        ElementView::Num(0),
    );
}

/// Whatever strings a prover picks, a concatenation holds the first string and then the second,
/// once the constraints are met.
pub proof fn concatenation_is_forced(
    cs: ConstraintSystemView,
    a: StringWire,
    b: StringWire,
    later: ConstraintSystemView,
    assignment: Seq<ElementView>,
)
    requires
        later.extends(cat_step(cs, a, b).0),
        later.satisfied_by(assignment),
    ensures
        assignment[a.variable] is Str,
        assignment[b.variable] is Str,
        assignment[cat_step(cs, a, b).1.variable] == ElementView::Str(
            assignment[a.variable]->Str_0 + assignment[b.variable]->Str_0,
        ),
{
    let ins = seq![a.variable, b.variable];
    lemma_gadget_in_force(
        cs,
        Gadget::StrCat,
        ins,
        ElementView::Str(a.value + b.value),
        later,
        assignment,
    );
    assert(values_at(assignment, ins)[0] == assignment[a.variable]);
    assert(values_at(assignment, ins)[1] == assignment[b.variable]);
    assert(seq![assignment[cs.memory.len() as int]][0] == assignment[cs.memory.len() as int]);
}

/// Whatever strings a prover picks, one that was checked for its length is no longer than that, once
/// the constraints are met.
pub proof fn length_check_is_forced(
    cs: ConstraintSystemView,
    a: StringWire,
    n: usize,
    later: ConstraintSystemView,
    assignment: Seq<ElementView>,
)
    requires
        later.extends(len_check_step(cs, a, n)),
        later.satisfied_by(assignment),
    ensures
        assignment[a.variable] is Str,
        assignment[a.variable]->Str_0.len() <= n,
{
    let ins = seq![a.variable];
    lemma_check_in_force(cs, Gadget::StrLenLessThanOrEqual(n), ins, later, assignment);
    assert(values_at(assignment, ins)[0] == assignment[a.variable]);
}

/// Whatever strings a prover picks, two that were checked for equality are equal, once the
/// constraints are met.
pub proof fn equality_check_is_forced(
    cs: ConstraintSystemView,
    a: StringWire,
    b: StringWire,
    later: ConstraintSystemView,
    assignment: Seq<ElementView>,
)
    requires
        later.extends(equal_check_step(cs, a, b)),
        later.satisfied_by(assignment),
    ensures
        assignment[a.variable] is Str,
        assignment[a.variable] == assignment[b.variable],
{
    let ins = seq![a.variable, b.variable];
    lemma_check_in_force(cs, Gadget::StrEqualVerify, ins, later, assignment);
    assert(values_at(assignment, ins)[0] == assignment[a.variable]);
    assert(values_at(assignment, ins)[1] == assignment[b.variable]);
}

} // verus!
