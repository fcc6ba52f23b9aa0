//! The record of a constraint system: the variables that were allocated, with the values that an
//! honest prover gives them, and the script gadgets that tie them together, in order.
//!
//! The record says which gadget runs on which variables. Turning it into one script, with the
//! variables laid out on the stack, is the compiler's work and not part of it.

use crate::bytes::{
    as_word, is_minimal, le_bytes, le_bytes_is_minimal, le_number, le_number_undoes_le_bytes,
    lemma_le_number_of_four, lemma_le_number_of_padded,
};
use crate::fields::m31::{is_m31, m31_add, m31_mul, m31_neg, m31_sub};
use crate::hash::sha256_digest;
use vstd::arithmetic::power2::pow2;
use vstd::prelude::*;

verus! {

/// A stack element: a number or a string of bytes.
#[derive(Clone, Debug)]
pub enum Element {
    Num(i32),
    Str(Vec<u8>),
}

/// What an element holds.
pub enum ElementView {
    Num(int),
    Str(Seq<u8>),
}

impl View for Element {
    type V = ElementView;

    open spec fn view(&self) -> ElementView {
        match *self {
            Element::Num(v) => ElementView::Num(v as int),
            Element::Str(v) => ElementView::Str(v@),
        }
    }
}

/// The stack element for an element: a number in its shortest form, a string as it is.
pub open spec fn stack_element(e: ElementView) -> Seq<u8> {
    match e {
        ElementView::Num(v) => le_bytes(as_word(v)),
        ElementView::Str(s) => s,
    }
}

/// How a variable comes by its value.
#[derive(Clone, Copy, Debug, PartialEq, Eq, Structural)]
pub enum AllocationMode {
    /// Part of the program.
    Constant,
    /// Left on the stack by the gadget before it.
    FunctionOutput,
    /// Chosen by the prover.
    Hint,
}

/// A script gadget, by name.
#[derive(Clone, Copy, Debug, PartialEq, Eq, Structural)]
pub enum Gadget {
    /// Duplicates a variable.
    Copy,
    M31Add,
    M31Sub,
    M31Mul,
    M31Neg,
    /// Fails unless the element is one.
    M31IsOne,
    /// Fails unless the element is zero.
    M31IsZero,
    /// Keeps this many low bits.
    M31Trim(usize),
    StrCat,
    /// Fails unless the two strings are equal.
    StrEqualVerify,
    /// Fails unless the string is at most this long.
    StrLenLessThanOrEqual(usize),
    /// Advances a channel digest and leaves the digest to draw from.
    DrawDigest,
    /// Leaves a chunk of a drawn digest and the field element that it stands for.
    ReconstructForChannelDraw,
}

impl Gadget {
    /// The number of variables that the gadget leaves.
    pub open spec fn outputs(self) -> int {
        match self {
            Gadget::M31IsOne => 0,
            Gadget::M31IsZero => 0,
            Gadget::StrEqualVerify => 0,
            Gadget::StrLenLessThanOrEqual(_) => 0,
            Gadget::DrawDigest => 2,
            Gadget::ReconstructForChannelDraw => 2,
            _ => 1,
        }
    }
}

/// One entry of the record.
#[derive(Clone, Debug)]
pub enum TraceEntry {
    /// A variable was allocated.
    Alloc { mode: AllocationMode, variable: usize },
    /// A gadget was inserted. What it leaves are the variables from `first_output` on.
    Script { gadget: Gadget, inputs: Vec<usize>, first_output: usize },
}

/// What an entry holds.
pub enum TraceEntryView {
    Alloc { mode: AllocationMode, variable: int },
    Script { gadget: Gadget, inputs: Seq<int>, first_output: int },
}

impl View for TraceEntry {
    type V = TraceEntryView;

    open spec fn view(&self) -> TraceEntryView {
        match *self {
            TraceEntry::Alloc { mode, variable } => TraceEntryView::Alloc {
                mode,
                variable: variable as int,
            },
            TraceEntry::Script { gadget, inputs, first_output } => TraceEntryView::Script {
                gadget,
                inputs: inputs@.map_values(|v: usize| v as int),
                first_output: first_output as int,
            },
        }
    }
}

/// A number that stands for a field element.
pub open spec fn is_m31_element(e: ElementView) -> bool {
    e matches ElementView::Num(v) && is_m31(v)
}

/// The field element that a chunk of a drawn digest stands for: its low 31 bits.
pub open spec fn chunk_m31(chunk: Seq<u8>) -> int {
    le_number(chunk) as int % 0x8000_0000
}

/// What running a gadget means: which elements it accepts and what it leaves for them.
pub open spec fn gadget_holds(
    gadget: Gadget,
    ins: Seq<ElementView>,
    outs: Seq<ElementView>,
) -> bool {
    match gadget {
        Gadget::Copy => ins.len() == 1 && outs == seq![ins[0]],
        Gadget::M31Add => ins.len() == 2 && is_m31_element(ins[0]) && is_m31_element(ins[1])
            && outs == seq![ElementView::Num(m31_add(ins[0]->Num_0, ins[1]->Num_0))],
        Gadget::M31Sub => ins.len() == 2 && is_m31_element(ins[0]) && is_m31_element(ins[1])
            && outs == seq![ElementView::Num(m31_sub(ins[0]->Num_0, ins[1]->Num_0))],
        Gadget::M31Mul => ins.len() == 2 && is_m31_element(ins[0]) && is_m31_element(ins[1])
            && outs == seq![ElementView::Num(m31_mul(ins[0]->Num_0, ins[1]->Num_0))],
        Gadget::M31Neg => ins.len() == 1 && is_m31_element(ins[0]) && outs
            == seq![ElementView::Num(m31_neg(ins[0]->Num_0))],
        Gadget::M31IsOne => ins == seq![ElementView::Num(1)] && outs.len() == 0,
        Gadget::M31IsZero => ins == seq![ElementView::Num(0)] && outs.len() == 0,
        Gadget::M31Trim(logn) => ins.len() == 1 && is_m31_element(ins[0]) && outs
            == seq![ElementView::Num(ins[0]->Num_0 % (pow2(logn as nat) as int))],
        Gadget::StrCat => ins.len() == 2 && ins[0] is Str && ins[1] is Str && outs
            == seq![ElementView::Str(ins[0]->Str_0 + ins[1]->Str_0)],
        Gadget::StrEqualVerify => ins.len() == 2 && ins[0] is Str && ins[0] == ins[1] && outs.len()
            == 0,
        Gadget::StrLenLessThanOrEqual(n) => ins.len() == 1 && ins[0] is Str && ins[0]->Str_0.len()
            <= n && outs.len() == 0,
        Gadget::DrawDigest => ins.len() == 1 && ins[0] is Str && outs
            == seq![
            ElementView::Str(sha256_digest(ins[0]->Str_0)),
            ElementView::Str(sha256_digest(ins[0]->Str_0.push(0u8))),
        ],
        Gadget::ReconstructForChannelDraw => ins.len() == 1 && ins[0] is Str
            && ins[0]->Str_0.len() <= 4 && outs
            == seq![ins[0], ElementView::Num(chunk_m31(ins[0]->Str_0))],
    }
}

/// The elements that an assignment gives to a list of variables.
pub open spec fn values_at(
    assignment: Seq<ElementView>,
    variables: Seq<int>,
) -> Seq<ElementView> {
    variables.map_values(|v: int| assignment[v])
}

/// An entry speaks of allocated variables only.
pub open spec fn entry_in_range(entry: TraceEntryView, len: int) -> bool {
    match entry {
        TraceEntryView::Alloc { mode, variable } => 0 <= variable < len,
        TraceEntryView::Script { gadget, inputs, first_output } => {
            &&& forall|j: int| 0 <= j < inputs.len() ==> 0 <= #[trigger] inputs[j] < len
            &&& 0 <= first_output
            &&& first_output + gadget.outputs() <= len
        },
    }
}

/// An assignment of elements to the variables meets an entry. `memory` holds the constants.
pub open spec fn entry_holds(
    entry: TraceEntryView,
    memory: Seq<ElementView>,
    assignment: Seq<ElementView>,
) -> bool {
    match entry {
        TraceEntryView::Alloc { mode, variable } => mode == AllocationMode::Constant
            ==> assignment[variable] == memory[variable],
        TraceEntryView::Script { gadget, inputs, first_output } => gadget_holds(
            gadget,
            values_at(assignment, inputs),
            assignment.subrange(first_output, first_output + gadget.outputs()),
        ),
    }
}

/// What a constraint system holds.
pub struct ConstraintSystemView {
    /// The value of each variable.
    pub memory: Seq<ElementView>,
    /// What was done, in order.
    pub trace: Seq<TraceEntryView>,
}

impl ConstraintSystemView {
    /// One more variable.
    pub open spec fn allocate(self, data: ElementView, mode: AllocationMode) -> Self {
        ConstraintSystemView {
            memory: self.memory.push(data),
            trace: self.trace.push(
                TraceEntryView::Alloc { mode, variable: self.memory.len() as int },
            ),
        }
    }

    /// One more gadget.
    pub open spec fn insert_script(self, gadget: Gadget, inputs: Seq<int>) -> Self {
        ConstraintSystemView {
            memory: self.memory,
            trace: self.trace.push(
                TraceEntryView::Script { gadget, inputs, first_output: self.memory.len() as int },
            ),
        }
    }

    /// One more gadget, which leaves one variable.
    pub open spec fn emit(self, gadget: Gadget, inputs: Seq<int>, out: ElementView) -> Self {
        self.insert_script(gadget, inputs).allocate(out, AllocationMode::FunctionOutput)
    }

    /// One more gadget, which leaves two variables.
    pub open spec fn emit_two(
        self,
        gadget: Gadget,
        inputs: Seq<int>,
        first: ElementView,
        second: ElementView,
    ) -> Self {
        self.emit(gadget, inputs, first).allocate(second, AllocationMode::FunctionOutput)
    }

    /// An assignment, dishonest ones among them, meets every entry.
    pub open spec fn satisfied_by(self, assignment: Seq<ElementView>) -> bool {
        &&& assignment.len() == self.memory.len()
        &&& forall|k: int|
            0 <= k < self.trace.len() ==> entry_holds(
                #[trigger] self.trace[k],
                self.memory,
                assignment,
            )
    }

    /// Every entry speaks of allocated variables, and the recorded values meet every entry.
    pub open spec fn wf(self) -> bool {
        &&& forall|k: int|
            0 <= k < self.trace.len() ==> entry_in_range(
                #[trigger] self.trace[k],
                self.memory.len() as int,
            )
        &&& self.satisfied_by(self.memory)
    }

    /// The system came from an earlier one by adding to it.
    pub open spec fn extends(self, earlier: Self) -> bool {
        &&& earlier.memory.len() <= self.memory.len()
        &&& earlier.trace.len() <= self.trace.len()
        &&& forall|i: int|
            0 <= i < earlier.memory.len() ==> #[trigger] self.memory[i] == earlier.memory[i]
        &&& forall|i: int|
            0 <= i < earlier.trace.len() ==> #[trigger] self.trace[i] == earlier.trace[i]
    }
}

/// A constraint system under construction.
#[derive(Clone, Debug)]
pub struct ConstraintSystem {
    /// The value of each variable.
    pub memory: Vec<Element>,
    /// What was done, in order.
    pub trace: Vec<TraceEntry>,
}

impl View for ConstraintSystem {
    type V = ConstraintSystemView;

    open spec fn view(&self) -> ConstraintSystemView {
        ConstraintSystemView {
            memory: self.memory@.map_values(|e: Element| e@),
            trace: self.trace@.map_values(|e: TraceEntry| e@),
        }
    }
}

impl ConstraintSystem {
    /// An empty system.
    pub fn new() -> (r: ConstraintSystem)
        ensures
            r@.memory == Seq::<ElementView>::empty(),
            r@.trace == Seq::<TraceEntryView>::empty(),
            r@.wf(),
    {
        ConstraintSystem { memory: Vec::new(), trace: Vec::new() }
    }

    /// Allocates a variable and returns its number.
    pub fn allocate(&mut self, data: Element, mode: AllocationMode) -> (variable: usize)
        ensures
            final(self)@ == old(self)@.allocate(data@, mode),
            variable == old(self)@.memory.len(),
            final(self)@.extends(old(self)@),
            old(self)@.wf() ==> final(self)@.wf(),
    {
        let ghost before = self@;
        let variable: usize = self.memory.len();
        self.memory.push(data);
        self.trace.push(TraceEntry::Alloc { mode, variable });
        assert(self@.memory =~= before.memory.push(data@));
        assert(self@.trace =~= before.allocate(data@, mode).trace);
        proof {
            if before.wf() {
                lemma_allocate_keeps_wf(before, data@, mode);
            }
        }
        variable
    }

    /// Inserts a gadget on the given variables. Its outputs are allocated next.
    pub fn insert_script(&mut self, gadget: Gadget, inputs: Vec<usize>)
        ensures
            final(self)@ == old(self)@.insert_script(
                gadget,
                inputs@.map_values(|v: usize| v as int),
            ),
    {
        let ghost before = self@;
        let first_output: usize = self.memory.len();
        self.trace.push(TraceEntry::Script { gadget, inputs, first_output });
        assert(self@.trace =~= before.insert_script(
            gadget,
            inputs@.map_values(|v: usize| v as int),
        ).trace);
        assert(self@.memory =~= before.memory);
    }
}

/// More variables do not change what an entry says of the earlier ones.
proof fn lemma_entry_frame(
    entry: TraceEntryView,
    memory: Seq<ElementView>,
    assignment: Seq<ElementView>,
    more_memory: Seq<ElementView>,
    more_assignment: Seq<ElementView>,
)
    requires
        memory.len() == assignment.len(),
        more_memory.len() == more_assignment.len(),
        memory.len() <= more_memory.len(),
        entry_in_range(entry, memory.len() as int),
        forall|i: int| 0 <= i < memory.len() ==> more_memory[i] == memory[i],
        forall|i: int| 0 <= i < memory.len() ==> more_assignment[i] == assignment[i],
    ensures
        entry_holds(entry, more_memory, more_assignment) == entry_holds(entry, memory, assignment),
{
    match entry {
        TraceEntryView::Alloc { mode, variable } => {},
        TraceEntryView::Script { gadget, inputs, first_output } => {
            assert(values_at(more_assignment, inputs) =~= values_at(assignment, inputs));
            assert(more_assignment.subrange(first_output, first_output + gadget.outputs())
                =~= assignment.subrange(first_output, first_output + gadget.outputs()));
        },
    }
}

/// A new variable keeps the system well formed.
proof fn lemma_allocate_keeps_wf(cs: ConstraintSystemView, data: ElementView, mode: AllocationMode)
    requires
        cs.wf(),
    ensures
        cs.allocate(data, mode).wf(),
{
    let after = cs.allocate(data, mode);
    assert forall|k: int| 0 <= k < after.trace.len() implies entry_holds(
        #[trigger] after.trace[k],
        after.memory,
        after.memory,
    ) && entry_in_range(after.trace[k], after.memory.len() as int) by {
        if k < cs.trace.len() {
            assert(after.trace[k] == cs.trace[k]);
            lemma_entry_frame(cs.trace[k], cs.memory, cs.memory, after.memory, after.memory);
        }
    }
}

/// A gadget whose recorded outputs are what it leaves on the recorded inputs keeps the system
/// well formed.
pub proof fn lemma_script_keeps_wf(
    cs: ConstraintSystemView,
    gadget: Gadget,
    inputs: Seq<int>,
    outs: Seq<ElementView>,
    after: ConstraintSystemView,
)
    requires
        cs.wf(),
        forall|j: int| 0 <= j < inputs.len() ==> 0 <= #[trigger] inputs[j] < cs.memory.len(),
        outs.len() == gadget.outputs(),
        gadget_holds(gadget, values_at(cs.memory, inputs), outs),
        after == (if outs.len() == 0 {
            cs.insert_script(gadget, inputs)
        } else if outs.len() == 1 {
            cs.emit(gadget, inputs, outs[0])
        } else {
            cs.emit_two(gadget, inputs, outs[0], outs[1])
        }),
    ensures
        after.wf(),
        after.extends(cs),
{
    let n = cs.memory.len() as int;
    let entry = TraceEntryView::Script { gadget, inputs, first_output: n };
    assert(after.memory =~= cs.memory + outs);
    assert(values_at(after.memory, inputs) =~= values_at(cs.memory, inputs));
    assert(after.memory.subrange(n, n + gadget.outputs()) =~= outs);
    assert(entry_holds(entry, after.memory, after.memory));
    assert forall|k: int| 0 <= k < after.trace.len() implies entry_holds(
        #[trigger] after.trace[k],
        after.memory,
        after.memory,
    ) && entry_in_range(after.trace[k], after.memory.len() as int) by {
        if k < cs.trace.len() {
            assert(after.trace[k] == cs.trace[k]);
            lemma_entry_frame(cs.trace[k], cs.memory, cs.memory, after.memory, after.memory);
        } else if k == cs.trace.len() {
            assert(after.trace[k] == entry);
        }
    }
}

/// A gadget that leaves one variable binds every assignment that meets the system.
pub proof fn lemma_gadget_in_force(
    cs: ConstraintSystemView,
    gadget: Gadget,
    inputs: Seq<int>,
    out: ElementView,
    later: ConstraintSystemView,
    assignment: Seq<ElementView>,
)
    requires
        gadget.outputs() == 1,
        later.extends(cs.emit(gadget, inputs, out)),
        later.satisfied_by(assignment),
    ensures
        gadget_holds(
            gadget,
            values_at(assignment, inputs),
            seq![assignment[cs.memory.len() as int]],
        ),
{
    let n = cs.memory.len() as int;
    let k = cs.trace.len() as int;
    let entry = TraceEntryView::Script { gadget, inputs, first_output: n };
    assert(cs.emit(gadget, inputs, out).trace[k] == entry);
    assert(later.trace[k] == entry);
    assert(assignment.subrange(n, n + 1) =~= seq![assignment[n]]);
}

/// A gadget that leaves two variables binds every assignment that meets the system.
pub proof fn lemma_two_outputs_in_force(
    cs: ConstraintSystemView,
    gadget: Gadget,
    inputs: Seq<int>,
    first: ElementView,
    second: ElementView,
    later: ConstraintSystemView,
    assignment: Seq<ElementView>,
)
    requires
        gadget.outputs() == 2,
        later.extends(cs.emit_two(gadget, inputs, first, second)),
        later.satisfied_by(assignment),
    ensures
        gadget_holds(
            gadget,
            values_at(assignment, inputs),
            seq![
                assignment[cs.memory.len() as int],
                assignment[cs.memory.len() as int + 1],
            ],
        ),
{
    let n = cs.memory.len() as int;
    let k = cs.trace.len() as int;
    let entry = TraceEntryView::Script { gadget, inputs, first_output: n };
    assert(cs.emit_two(gadget, inputs, first, second).trace[k] == entry);
    assert(later.trace[k] == entry);
    assert(assignment.subrange(n, n + 2) =~= seq![assignment[n], assignment[n + 1]]);
}

/// A gadget that leaves nothing binds every assignment that meets the system.
pub proof fn lemma_check_in_force(
    cs: ConstraintSystemView,
    gadget: Gadget,
    inputs: Seq<int>,
    later: ConstraintSystemView,
    assignment: Seq<ElementView>,
)
    requires
        gadget.outputs() == 0,
        later.extends(cs.insert_script(gadget, inputs)),
        later.satisfied_by(assignment),
    ensures
        gadget_holds(gadget, values_at(assignment, inputs), Seq::<ElementView>::empty()),
{
    let n = cs.memory.len() as int;
    let k = cs.trace.len() as int;
    let entry = TraceEntryView::Script { gadget, inputs, first_output: n };
    assert(cs.insert_script(gadget, inputs).trace[k] == entry);
    assert(later.trace[k] == entry);
    assert(assignment.subrange(n, n) =~= Seq::<ElementView>::empty());
}

/// An assignment that meets a grown system meets the system that it grew from.
pub proof fn satisfying_a_grown_system_satisfies_its_prefix(
    earlier: ConstraintSystemView,
    later: ConstraintSystemView,
    assignment: Seq<ElementView>,
)
    requires
        earlier.wf(),
        later.extends(earlier),
        later.satisfied_by(assignment),
    ensures
        earlier.satisfied_by(assignment.take(earlier.memory.len() as int)),
{
    let part = assignment.take(earlier.memory.len() as int);
    assert forall|k: int| 0 <= k < earlier.trace.len() implies entry_holds(
        #[trigger] earlier.trace[k],
        earlier.memory,
        part,
    ) by {
        assert(later.trace[k] == earlier.trace[k]);
        lemma_entry_frame(earlier.trace[k], earlier.memory, part, later.memory, assignment);
    }
}

/// The stack element for a number is the shortest little-endian spelling of the number, or of its
/// 64-bit word where it is negative; that for a string is the string.
pub proof fn stack_element_spells_the_number(v: i32, s: Seq<u8>)
    ensures
        v >= 0 ==> le_number(stack_element(ElementView::Num(v as int))) == v,
        v < 0 ==> le_number(stack_element(ElementView::Num(v as int))) == v
            + 0x1_0000_0000_0000_0000,
        is_minimal(stack_element(ElementView::Num(v as int))),
        stack_element(ElementView::Str(s)) == s,
{
    le_number_undoes_le_bytes(as_word(v as int));
    le_bytes_is_minimal(as_word(v as int));
}

/// A constant is forced: every assignment that meets a system with it gives it its value.
pub proof fn constant_is_forced(
    cs: ConstraintSystemView,
    data: ElementView,
    later: ConstraintSystemView,
    assignment: Seq<ElementView>,
)
    requires
        later.extends(cs.allocate(data, AllocationMode::Constant)),
        later.satisfied_by(assignment),
    ensures
        assignment[cs.memory.len() as int] == data,
{
    let n = cs.memory.len() as int;
    let k = cs.trace.len() as int;
    let entry = TraceEntryView::Alloc { mode: AllocationMode::Constant, variable: n };
    assert(cs.allocate(data, AllocationMode::Constant).trace[k] == entry);
    assert(later.trace[k] == entry);
    assert(later.memory[n] == data);
}

/// The element of a chunk of four bytes is what the bytes spell, the lowest first, without the top
/// bit; that of a shorter chunk is what its bytes spell.
pub proof fn chunk_element_is_its_low_bits(chunk: Seq<u8>)
    requires
        chunk.len() <= 4,
    ensures
        chunk.len() == 4 ==> chunk_m31(chunk) == chunk[0] + 0x100 * chunk[1] + 0x1_0000 * chunk[2]
            + 0x100_0000 * (chunk[3] as int % 0x80),
        chunk.len() < 4 ==> chunk_m31(chunk) == le_number(chunk),
        0 <= chunk_m31(chunk) < 0x8000_0000,
{
    if chunk.len() == 4 {
        lemma_le_number_of_four(chunk);
    } else {
        let zeros = Seq::new((4 - chunk.len()) as nat, |i: int| 0u8);
        lemma_le_number_of_padded(chunk, (4 - chunk.len()) as nat);
        lemma_le_number_of_four(chunk + zeros);
        assert((chunk + zeros)[3] == 0);
    }
}

/// What a record gains with a gadget that leaves one variable.
pub open spec fn gadget_entries(gadget: Gadget, inputs: Seq<int>, output: int) -> Seq<
    TraceEntryView,
> {
    seq![
        TraceEntryView::Script { gadget, inputs, first_output: output },
        TraceEntryView::Alloc { mode: AllocationMode::FunctionOutput, variable: output },
    ]
}

/// What a record gains with a gadget that leaves two variables.
pub open spec fn gadget_entries_of_two(gadget: Gadget, inputs: Seq<int>, output: int) -> Seq<
    TraceEntryView,
> {
    gadget_entries(gadget, inputs, output).push(
        TraceEntryView::Alloc { mode: AllocationMode::FunctionOutput, variable: output + 1 },
    )
}

/// What a gadget leaves is recorded behind it, in order.
pub proof fn outputs_are_recorded(
    cs: ConstraintSystemView,
    gadget: Gadget,
    inputs: Seq<int>,
    first: ElementView,
    second: ElementView,
)
    ensures
        cs.emit(gadget, inputs, first).memory == cs.memory.push(first),
        cs.emit(gadget, inputs, first).trace == cs.trace + gadget_entries(
            gadget,
            inputs,
            cs.memory.len() as int,
        ),
        cs.emit_two(gadget, inputs, first, second).memory == cs.memory.push(first).push(second),
        cs.emit_two(gadget, inputs, first, second).trace == cs.trace + gadget_entries_of_two(
            gadget,
            inputs,
            cs.memory.len() as int,
        ),
        cs.insert_script(gadget, inputs).memory == cs.memory,
        cs.insert_script(gadget, inputs).trace == cs.trace.push(
            TraceEntryView::Script { gadget, inputs, first_output: cs.memory.len() as int },
        ),
{
    assert(cs.emit(gadget, inputs, first).trace =~= cs.trace + gadget_entries(
        gadget,
        inputs,
        cs.memory.len() as int,
    ));
    assert(cs.emit_two(gadget, inputs, first, second).trace =~= cs.trace + gadget_entries_of_two(
        gadget,
        inputs,
        cs.memory.len() as int,
    ));
}

/// A variable is recorded with its mode and its value.
pub proof fn variable_is_recorded(
    cs: ConstraintSystemView,
    data: ElementView,
    mode: AllocationMode,
)
    ensures
        cs.allocate(data, mode).memory == cs.memory.push(data),
        cs.allocate(data, mode).trace == cs.trace.push(
            TraceEntryView::Alloc { mode, variable: cs.memory.len() as int },
        ),
{
}

/// The record shows each element and each entry as it is.
pub proof fn record_shows_what_it_holds(cs: ConstraintSystem, i: int, k: int)
    ensures
        cs@.memory.len() == cs.memory.len(),
        cs@.trace.len() == cs.trace.len(),
        0 <= i < cs.memory.len() ==> (match cs.memory[i] {
            Element::Num(v) => cs@.memory[i] == ElementView::Num(v as int),
            Element::Str(s) => cs@.memory[i] == ElementView::Str(s@),
        }),
        0 <= k < cs.trace.len() ==> (match cs.trace[k] {
            TraceEntry::Alloc { mode, variable } => cs@.trace[k] == (TraceEntryView::Alloc {
                mode,
                variable: variable as int,
            }),
            TraceEntry::Script { gadget, inputs, first_output } => {
                &&& cs@.trace[k] is Script
                &&& cs@.trace[k]->gadget == gadget
                &&& cs@.trace[k]->first_output == first_output
                &&& cs@.trace[k]->inputs.len() == inputs.len()
                &&& forall|j: int|
                    0 <= j < inputs.len() ==> cs@.trace[k]->inputs[j] == #[trigger] inputs[j]
            },
        }),
{
}

/// A system that grew keeps its variables, its values and its entries, and an assignment meets it
/// only if it meets each entry.
pub proof fn growth_and_satisfaction(
    earlier: ConstraintSystemView,
    later: ConstraintSystemView,
    assignment: Seq<ElementView>,
    i: int,
    k: int,
)
    requires
        later.extends(earlier),
        later.satisfied_by(assignment),
        0 <= i < earlier.memory.len(),
        0 <= k < earlier.trace.len(),
    ensures
        later.memory[i] == earlier.memory[i],
        later.trace[k] == earlier.trace[k],
        assignment.len() == later.memory.len(),
        match earlier.trace[k] {
            TraceEntryView::Alloc { mode, variable } => mode is Constant ==> assignment[variable]
                == later.memory[variable],
            TraceEntryView::Script { gadget, inputs, first_output } => gadget_holds(
                gadget,
                inputs.map_values(|v: int| assignment[v]),
                assignment.subrange(first_output, first_output + gadget.outputs()),
            ),
        },
{
    assert(later.trace[k] == earlier.trace[k]);
    if let TraceEntryView::Script { gadget, inputs, first_output } = earlier.trace[k] {
        assert(values_at(assignment, inputs) =~= inputs.map_values(|v: int| assignment[v]));
    }
}

} // verus!
