//! The covenant that runs the Plonk verifier: its state, its scripts and its single transition.

use crate::bytes;
use crate::constraint_system::{stack_element, stack_element_spells_the_number, Element};
use crate::hash;
use crate::machine;
use crate::machine::Machine;
use crate::script;
use crate::script::{Script, Token, TokenView};
use std::collections::BTreeMap;
use vstd::prelude::*;

verus! {

/// Elements for the stack, the deepest first.
pub type Witness = Vec<Vec<u8>>;

/// The covenant program of the verifier.
pub struct PlonkVerifierProgram {}

/// What a spender gives to the program.
#[derive(Clone, Debug)]
pub struct PlonkVerifierInput {
    pub stack: Witness,
    pub hints: Witness,
}

/// The pieces that push a list of elements.
pub open spec fn pushes(elements: Seq<Seq<u8>>) -> Seq<TokenView> {
    elements.map_values(|d: Seq<u8>| TokenView::Push(d))
}

/// Every element can be pushed.
pub open spec fn pushable(elements: Seq<Seq<u8>>) -> bool {
    forall|i: int| 0 <= i < elements.len() ==> (#[trigger] elements[i]).len() < 0x1_0000_0000
}

/// Adds pushes of a list of elements to the pieces of a script.
fn add_pushes(tokens: &mut Vec<Token>, elements: &Witness)
    ensures
        final(tokens).deep_view() == old(tokens).deep_view() + pushes(bytes::strings(elements@)),
{
    let ghost before = tokens.deep_view();
    let mut i: usize = 0;
    while i < elements.len()
        invariant
            i <= elements.len(),
            tokens.deep_view() == before + pushes(bytes::strings(elements@).take(i as int)),
        decreases elements.len() - i,
    {
        let ghost done = tokens.deep_view();
        tokens.push(Token::Push(elements[i].clone()));
        assert(tokens.deep_view() =~= done.push(TokenView::Push(elements[i as int]@)));
        i += 1;
        assert(tokens.deep_view() =~= before + pushes(bytes::strings(elements@).take(i as int)));
    }
    assert(bytes::strings(elements@).take(elements.len() as int) =~= bytes::strings(elements@));
}

/// The pieces that push the stack and then the hints of an input.
pub open spec fn input_tokens(stack: Seq<Seq<u8>>, hints: Seq<Seq<u8>>) -> Seq<TokenView> {
    pushes(stack) + pushes(hints)
}

impl PlonkVerifierInput {
    /// The script that pushes the stack and then the hints.
    pub fn to_script(&self) -> (r: Script)
        requires
            pushable(bytes::strings(self.stack@)),
            pushable(bytes::strings(self.hints@)),
        ensures
            r@ == script::assembled(
                pushes(bytes::strings(self.stack@)) + pushes(bytes::strings(self.hints@)),
            ),
            r@ == script::assembled(
                input_tokens(bytes::strings(self.stack@), bytes::strings(self.hints@)),
            ),
    {
        let mut tokens: Vec<Token> = Vec::new();
        add_pushes(&mut tokens, &self.stack);
        add_pushes(&mut tokens, &self.hints);
        assert(tokens.deep_view() =~= pushes(bytes::strings(self.stack@)) + pushes(
            bytes::strings(self.hints@),
        ));
        assert forall|i: int| 0 <= i < tokens.len() implies script::encodable(
            #[trigger] tokens[i]@,
        ) by {
            assert(tokens.deep_view()[i] == tokens[i]@);
            if i < self.stack.len() {
                assert(bytes::strings(self.stack@)[i].len() < 0x1_0000_0000);
            } else {
                assert(bytes::strings(self.hints@)[i - self.stack.len()].len() < 0x1_0000_0000);
            }
        }
        script::assemble(&tokens)
    }
}

/// Running the script of an input puts the stack and then the hints on the stack.
pub proof fn input_script_leaves_the_input(
    stack: Seq<Seq<u8>>,
    hints: Seq<Seq<u8>>,
    m: Machine,
)
    ensures
        machine::run(input_tokens(stack, hints), m) == Some(m.with(m.stack + stack + hints)),
{
    machine::running_in_parts(pushes(stack), pushes(hints), m);
    machine::pushes_leave_their_data(stack, m);
    machine::pushes_leave_their_data(hints, m.with(m.stack + stack));
}

/// The state of the covenant.
#[derive(Clone, Debug)]
pub struct PlonkVerifierState {
    /// The program counter.
    pub pc: usize,
    /// The hash of the stack.
    pub stack_hash: Vec<u8>,
    /// The stack from the execution.
    pub stack: Vec<Vec<u8>>,
}

/// The pieces that push the public part of a state.
pub open spec fn state_tokens(pc: int, stack_hash: Seq<u8>) -> Seq<TokenView> {
    seq![TokenView::Int(pc), TokenView::Push(stack_hash)]
}

impl PlonkVerifierState {
    /// The script that pushes the program counter and the stack hash.
    pub fn to_script(&self) -> (r: Script)
        requires
            self.pc <= i64::MAX,
            self.stack_hash.len() < 0x1_0000_0000,
        ensures
            r@ == script::assembled(state_tokens(self.pc as int, self.stack_hash@)),
    {
        let tokens: Vec<Token> = vec![
            Token::Int(self.pc as i64),
            Token::Push(self.stack_hash.clone()),
        ];
        assert(tokens.deep_view() =~= state_tokens(self.pc as int, self.stack_hash@));
        script::assemble(&tokens)
    }
}

/// All that the verifier needs: its script, the hints and what it leaves.
pub struct PlonkAllInformation {
    pub script: Script,
    pub witness: Witness,
    pub output: Witness,
}

impl PlonkAllInformation {
    /// The input for the transition: no stack, and the hints.
    pub fn get_input(&self) -> (r: PlonkVerifierInput)
        ensures
            bytes::strings(r.stack@) == Seq::<Seq<u8>>::empty(),
            bytes::strings(r.hints@) == bytes::strings(self.witness@),
            r.stack.len() == 0,
            r.hints.len() == self.witness.len(),
            forall|i: int|
                0 <= i < self.witness.len() ==> (#[trigger] r.hints[i])@ == self.witness[i]@,
    {
        let r = PlonkVerifierInput {
            stack: Vec::new(),
            hints: bytes::clone_strings(&self.witness),
        };
        assert(bytes::strings(r.stack@) =~= Seq::<Seq<u8>>::empty());
        r
    }
}

/// A part of the verifier that runs once for each query.
#[derive(Clone, Copy, Debug, PartialEq, Eq, Structural)]
pub enum QueryPart {
    Folding,
    NumTrace,
    NumConstant,
    NumComposition,
    NumInteractionShifted,
    NumInteraction1,
    NumInteraction2,
    LastStep,
}

/// A step of the verifier, each with a constraint system of its own.
#[derive(Clone, Copy, Debug, PartialEq, Eq, Structural)]
pub enum VerifierStep {
    FiatShamir1,
    FiatShamir2AndConstraintNum,
    ConstraintDenom,
    PairVanishingAndAlphas,
    ColumnLineCoeffs1,
    ColumnLineCoeffs2,
    ColumnLineCoeffs3,
    Query { index: usize, part: QueryPart },
    Cleanup,
}

/// The number of queries.
pub const N_QUERIES: usize = 8;

/// The number of steps.
pub const N_STEPS: usize = 72;

/// The parts that run for each query, in order.
pub open spec fn query_parts() -> Seq<QueryPart> {
    seq![
        QueryPart::Folding,
        QueryPart::NumTrace,
        QueryPart::NumConstant,
        QueryPart::NumComposition,
        QueryPart::NumInteractionShifted,
        QueryPart::NumInteraction1,
        QueryPart::NumInteraction2,
        QueryPart::LastStep,
    ]
}

/// The steps that come before the queries, in order.
pub open spec fn setup_steps() -> Seq<VerifierStep> {
    seq![
        VerifierStep::FiatShamir1,
        VerifierStep::FiatShamir2AndConstraintNum,
        VerifierStep::ConstraintDenom,
        VerifierStep::PairVanishingAndAlphas,
        VerifierStep::ColumnLineCoeffs1,
        VerifierStep::ColumnLineCoeffs2,
        VerifierStep::ColumnLineCoeffs3,
    ]
}

/// The step at a place in the order of steps.
pub open spec fn step_at(i: int) -> VerifierStep {
    if i < 7 {
        setup_steps()[i]
    } else if i < 71 {
        VerifierStep::Query { index: ((i - 7) / 8) as usize, part: query_parts()[(i - 7) % 8] }
    } else {
        VerifierStep::Cleanup
    }
}

/// The steps of the verifier, in order: the setup, the parts of each query, the cleanup.
pub fn verifier_steps() -> (steps: Vec<VerifierStep>)
    ensures
        steps@ == Seq::new(N_STEPS as nat, |i: int| step_at(i)),
        steps.len() == 72,
        steps[0] == VerifierStep::FiatShamir1,
        steps[1] == VerifierStep::FiatShamir2AndConstraintNum,
        steps[2] == VerifierStep::ConstraintDenom,
        steps[3] == VerifierStep::PairVanishingAndAlphas,
        steps[4] == VerifierStep::ColumnLineCoeffs1,
        steps[5] == VerifierStep::ColumnLineCoeffs2,
        steps[6] == VerifierStep::ColumnLineCoeffs3,
        forall|i: int|
            7 <= i < 71 && (i - 7) % 8 == 0 ==> #[trigger] steps[i] == (VerifierStep::Query {
                index: ((i - 7) / 8) as usize,
                part: QueryPart::Folding,
            }),
        forall|i: int|
            7 <= i < 71 && (i - 7) % 8 == 1 ==> #[trigger] steps[i] == (VerifierStep::Query {
                index: ((i - 7) / 8) as usize,
                part: QueryPart::NumTrace,
            }),
        forall|i: int|
            7 <= i < 71 && (i - 7) % 8 == 2 ==> #[trigger] steps[i] == (VerifierStep::Query {
                index: ((i - 7) / 8) as usize,
                part: QueryPart::NumConstant,
            }),
        forall|i: int|
            7 <= i < 71 && (i - 7) % 8 == 3 ==> #[trigger] steps[i] == (VerifierStep::Query {
                index: ((i - 7) / 8) as usize,
                part: QueryPart::NumComposition,
            }),
        forall|i: int|
            7 <= i < 71 && (i - 7) % 8 == 4 ==> #[trigger] steps[i] == (VerifierStep::Query {
                index: ((i - 7) / 8) as usize,
                part: QueryPart::NumInteractionShifted,
            }),
        forall|i: int|
            7 <= i < 71 && (i - 7) % 8 == 5 ==> #[trigger] steps[i] == (VerifierStep::Query {
                index: ((i - 7) / 8) as usize,
                part: QueryPart::NumInteraction1,
            }),
        forall|i: int|
            7 <= i < 71 && (i - 7) % 8 == 6 ==> #[trigger] steps[i] == (VerifierStep::Query {
                index: ((i - 7) / 8) as usize,
                part: QueryPart::NumInteraction2,
            }),
        forall|i: int|
            7 <= i < 71 && (i - 7) % 8 == 7 ==> #[trigger] steps[i] == (VerifierStep::Query {
                index: ((i - 7) / 8) as usize,
                part: QueryPart::LastStep,
            }),
        steps[71] == VerifierStep::Cleanup,
{
    let mut steps: Vec<VerifierStep> = vec![
        VerifierStep::FiatShamir1,
        VerifierStep::FiatShamir2AndConstraintNum,
        VerifierStep::ConstraintDenom,
        VerifierStep::PairVanishingAndAlphas,
        VerifierStep::ColumnLineCoeffs1,
        VerifierStep::ColumnLineCoeffs2,
        VerifierStep::ColumnLineCoeffs3,
    ];
    let parts: Vec<QueryPart> = vec![
        QueryPart::Folding,
        QueryPart::NumTrace,
        QueryPart::NumConstant,
        QueryPart::NumComposition,
        QueryPart::NumInteractionShifted,
        QueryPart::NumInteraction1,
        QueryPart::NumInteraction2,
        QueryPart::LastStep,
    ];
    assert(steps@ =~= Seq::new(7, |i: int| step_at(i)));
    let mut index: usize = 0;
    while index < N_QUERIES
        invariant
            index <= N_QUERIES,
            parts@ =~= query_parts(),
            steps@ == Seq::new((7 + 8 * index) as nat, |i: int| step_at(i)),
        decreases N_QUERIES - index,
    {
        let mut k: usize = 0;
        while k < parts.len()
            invariant
                index < N_QUERIES,
                k <= parts.len(),
                parts@ =~= query_parts(),
                steps@ == Seq::new((7 + 8 * index + k) as nat, |i: int| step_at(i)),
            decreases parts.len() - k,
        {
            let ghost i = 7 + 8 * index + k;
            assert((i - 7) / 8 == index && (i - 7) % 8 == k);
            steps.push(VerifierStep::Query { index, part: parts[k] });
            k += 1;
            assert(steps@ =~= Seq::new((7 + 8 * index + k) as nat, |i: int| step_at(i)));
        }
        index += 1;
    }
    steps.push(VerifierStep::Cleanup);
    assert(steps@ =~= Seq::new(N_STEPS as nat, |i: int| step_at(i)));
    steps
}

/// A step's constraint system as a script, with the hints that the script takes.
pub struct CompiledProgram {
    pub script: Script,
    pub hint: Vec<Element>,
}

/// The stack elements for a list of elements.
pub open spec fn stack_elements(hint: Seq<Element>) -> Seq<Seq<u8>> {
    hint.map_values(|e: Element| stack_element(e@))
}

/// The hints of a program as stack elements.
pub fn extract_witness(program: &CompiledProgram) -> (r: Witness)
    ensures
        bytes::strings(r@) == stack_elements(program.hint@),
        r.len() == program.hint.len(),
        forall|j: int|
            0 <= j < r.len() ==> (match program.hint[j] {
                Element::Num(v) => {
                    &&& bytes::is_minimal((#[trigger] r[j])@)
                    &&& v >= 0 ==> bytes::le_number(r[j]@) == v
                    &&& v < 0 ==> bytes::le_number(r[j]@) == v + 0x1_0000_0000_0000_0000
                },
                Element::Str(s) => r[j]@ == s@,
            }),
{
    let mut r: Witness = Vec::new();
    let mut i: usize = 0;
    while i < program.hint.len()
        invariant
            i <= program.hint.len(),
            r.len() == i,
            forall|j: int|
                0 <= j < i ==> (#[trigger] r[j])@ == stack_element(program.hint[j]@),
        decreases program.hint.len() - i,
    {
        match &program.hint[i] {
            Element::Num(v) => {
                r.push(bytes::num_to_str(*v));
            },
            Element::Str(v) => {
                r.push(v.clone());
            },
        }
        i += 1;
    }
    assert(bytes::strings(r@) =~= stack_elements(program.hint@));
    proof {
        assert forall|j: int| 0 <= j < r.len() implies (match program.hint[j] {
            Element::Num(v) => {
                &&& bytes::is_minimal((#[trigger] r[j])@)
                &&& v >= 0 ==> bytes::le_number(r[j]@) == v
                &&& v < 0 ==> bytes::le_number(r[j]@) == v + 0x1_0000_0000_0000_0000
            },
            Element::Str(s) => r[j]@ == s@,
        }) by {
            hints_spell_their_numbers(program.hint@, j);
            assert(bytes::strings(r@)[j] == r[j]@);
        }
    }
    r
}

/// The scripts of a list of programs, one after the other.
pub open spec fn merged_script(programs: Seq<CompiledProgram>) -> Seq<u8>
    decreases programs.len(),
{
    if programs.len() == 0 {
        Seq::empty()
    } else {
        merged_script(programs.drop_last()) + programs.last().script@
    }
}

/// The hints of a list of programs, one list after the other.
pub open spec fn merged_witness(programs: Seq<CompiledProgram>) -> Seq<Seq<u8>>
    decreases programs.len(),
{
    if programs.len() == 0 {
        Seq::empty()
    } else {
        merged_witness(programs.drop_last()) + stack_elements(programs.last().hint@)
    }
}

/// Merges the compiled steps of the verifier into one program.
///
/// Each script takes its hints from the bottom of the stack. When the scripts run one after the
/// other, the hints of the later ones stay there, so that each script finds its own once the
/// script before it has finished. `final_hash` is what the last script leaves.
pub fn compute_all_information(programs: &Vec<CompiledProgram>, final_hash: &Vec<u8>) -> (r:
    PlonkAllInformation)
    requires
        programs.len() == N_STEPS,
    ensures
        r.script@ == merged_script(programs@),
        bytes::strings(r.witness@) == merged_witness(programs@),
        bytes::strings(r.output@) == seq![final_hash@],
        r.output.len() == 1,
        r.output[0]@ == final_hash@,
{
    let mut code: Vec<u8> = Vec::new();
    let mut witness: Witness = Vec::new();
    let mut i: usize = 0;
    while i < programs.len()
        invariant
            i <= programs.len(),
            code@ == merged_script(programs@.take(i as int)),
            bytes::strings(witness@) == merged_witness(programs@.take(i as int)),
        decreases programs.len() - i,
    {
        let ghost before = witness@;
        code.extend_from_slice(programs[i].script.bytes.as_slice());
        let mut hints: Witness = extract_witness(&programs[i]);
        let ghost added = hints@;
        witness.append(&mut hints);
        assert(bytes::strings(witness@) =~= bytes::strings(before) + bytes::strings(added));
        i += 1;
        assert(programs@.take(i as int).drop_last() =~= programs@.take(i - 1));
    }
    assert(programs@.take(programs.len() as int) =~= programs@);
    let output: Witness = vec![final_hash.clone()];
    assert(bytes::strings(output@) =~= seq![final_hash@]);
    PlonkAllInformation { script: Script { bytes: code }, witness, output }
}

/// The pieces that take a state's public part from the bottom of the stack, check that the stack
/// hash has the length of a hash, and check the two against a hash on the other stack.
pub open spec fn open_state_tokens() -> Seq<TokenView> {
    machine::hint_tokens() + counter_check_tokens() + machine::hint_tokens()
        + hash_check_tokens()
}

/// The pieces that bring a program counter into its shortest form and check its sign.
pub open spec fn counter_check_tokens() -> Seq<TokenView> {
    seq![
        TokenView::Op(script::OP_1ADD),
        TokenView::Op(script::OP_1SUB),
        TokenView::Op(script::OP_DUP),
        TokenView::Int(0),
        TokenView::Op(script::OP_GREATERTHANOREQUAL),
        TokenView::Op(script::OP_VERIFY),
    ]
}

/// The pieces that check the length of a stack hash and the hash of a state.
pub open spec fn hash_check_tokens() -> Seq<TokenView> {
    seq![
        TokenView::Op(script::OP_SIZE),
        TokenView::Int(32),
        TokenView::Op(script::OP_EQUALVERIFY),
        TokenView::Op(script::OP_2DUP),
        TokenView::Op(script::OP_CAT),
        TokenView::Op(script::OP_SHA256),
        TokenView::Op(script::OP_FROMALTSTACK),
        TokenView::Op(script::OP_EQUALVERIFY),
    ]
}

/// The pieces that come before every script of the covenant.
pub open spec fn common_prefix_tokens() -> Seq<TokenView> {
    seq![TokenView::Op(script::OP_TOALTSTACK), TokenView::Op(script::OP_TOALTSTACK)]
        + open_state_tokens() + open_state_tokens()
}

/// A hash of thirty-two zeros.
pub open spec fn zero_hash() -> Seq<u8> {
    Seq::new(32, |i: int| 0u8)
}

/// The pieces before the verifier: the transition goes from the initial state to program counter
/// one, and the new stack hash is put aside.
pub open spec fn transition_check_tokens() -> Seq<TokenView> {
    seq![
        TokenView::Op(script::OP_SWAP),
        TokenView::Int(1),
        TokenView::Op(script::OP_EQUALVERIFY),
        TokenView::Op(script::OP_ROT),
        TokenView::Int(0),
        TokenView::Op(script::OP_EQUALVERIFY),
        TokenView::Op(script::OP_SWAP),
        TokenView::Push(zero_hash()),
        TokenView::Op(script::OP_EQUALVERIFY),
        TokenView::Op(script::OP_TOALTSTACK),
    ]
}

/// The pieces after the verifier: it left one element.
pub open spec fn depth_check_tokens() -> Seq<TokenView> {
    seq![
        TokenView::Op(script::OP_DEPTH),
        TokenView::Int(1),
        TokenView::Op(script::OP_EQUALVERIFY),
    ]
}

/// The pieces at the end: the hash of what was left is the one that was put aside.
pub open spec fn stack_hash_check_tokens() -> Seq<TokenView> {
    seq![
        TokenView::Op(script::OP_FROMALTSTACK),
        TokenView::Op(script::OP_EQUALVERIFY),
        TokenView::Op(script::OP_TRUE),
    ]
}

/// The hash of a state: of the shortest form of the program counter and of the stack hash.
pub open spec fn state_hash(pc: nat, stack_hash: Seq<u8>) -> Seq<u8> {
    hash::sha256_digest(bytes::le_bytes(pc) + stack_hash)
}

/// The leaf version of the covenant's scripts.
pub const LEAF_VERSION: u8 = 0xc2;

/// Checks a leaf version: `bitcoin`'s `LeafVersion::from_consensus`, and back with
/// `to_consensus`.
///
/// The contract claims that exactly the odd versions and `0x50` are refused and that any other
/// comes back as it was.
#[verifier::external_body]
fn checked_leaf_version(version: u8) -> (r: Option<u8>)
    ensures
        r == (if version % 2 == 1 || version == 0x50 {
            None
        } else {
            Some(version)
        }),
{
    bitcoin::taproot::LeafVersion::from_consensus(version).ok().map(|v| v.to_consensus())
}

/// The bytes of the covenant's script around those of a verifier and of a script that hashes the
/// stack.
pub open spec fn program_bytes(verifier: Seq<u8>, hash_drop: Seq<u8>) -> Seq<u8> {
    script::assembled(transition_check_tokens()) + verifier + script::assembled(
        depth_check_tokens(),
    ) + hash_drop + script::assembled(stack_hash_check_tokens())
}

impl PlonkVerifierProgram {
    /// The initial state.
    pub fn new() -> (r: PlonkVerifierState)
        ensures
            r.pc == 0,
            r.stack_hash@ == zero_hash(),
            r.stack_hash.len() == 32,
            forall|i: int| 0 <= i < 32 ==> #[trigger] r.stack_hash[i] == 0,
            r.stack.len() == 0,
    {
        let r = PlonkVerifierState { pc: 0, stack_hash: vec![0u8; 32], stack: Vec::new() };
        assert(r.stack_hash@ =~= zero_hash());
        r
    }

    /// The hash of a state.
    pub fn get_hash(state: &PlonkVerifierState) -> (r: Vec<u8>)
        requires
            state.stack_hash.len() == 32,
        ensures
            r@ == state_hash(state.pc as nat, state.stack_hash@),
            r@ == hash::sha256_digest(bytes::le_bytes(state.pc as nat) + state.stack_hash@),
            r.len() == 32,
    {
        let mut message: Vec<u8> = bytes::minimal_le_bytes(state.pc as u64);
        message.extend_from_slice(state.stack_hash.as_slice());
        assert(message@ =~= bytes::le_bytes(state.pc as nat) + state.stack_hash@);
        hash::sha256(message.as_slice())
    }

    /// The scripts of the covenant by their numbers. There is one, with number zero. `hash_drop`
    /// is the script that replaces the one element on the stack by the hash of the stack.
    pub fn get_all_scripts(all_information: &PlonkAllInformation, hash_drop: &Script) -> (r:
        BTreeMap<usize, Script>)
        ensures
            r@.dom() == set![0usize],
            r@[0]@ == script::assembled(transition_check_tokens()) + all_information.script@
                + script::assembled(depth_check_tokens()) + hash_drop@ + script::assembled(
                stack_hash_check_tokens(),
            ),
            r@[0]@ == program_bytes(all_information.script@, hash_drop@),
    {
        let before: Vec<Token> = vec![
            Token::Op(script::OP_SWAP),
            Token::Int(1),
            Token::Op(script::OP_EQUALVERIFY),
            Token::Op(script::OP_ROT),
            Token::Int(0),
            Token::Op(script::OP_EQUALVERIFY),
            Token::Op(script::OP_SWAP),
            Token::Push(vec![0u8; 32]),
            Token::Op(script::OP_EQUALVERIFY),
            Token::Op(script::OP_TOALTSTACK),
        ];
        assert(before[7]@->Push_0 =~= zero_hash());
        assert(before.deep_view() =~= transition_check_tokens());
        let between: Vec<Token> = vec![
            Token::Op(script::OP_DEPTH),
            Token::Int(1),
            Token::Op(script::OP_EQUALVERIFY),
        ];
        assert(between.deep_view() =~= depth_check_tokens());
        let after: Vec<Token> = vec![
            Token::Op(script::OP_FROMALTSTACK),
            Token::Op(script::OP_EQUALVERIFY),
            Token::Op(script::OP_TRUE),
        ];
        assert(after.deep_view() =~= stack_hash_check_tokens());

        let mut code: Vec<u8> = script::assemble(&before).bytes;
        code.extend_from_slice(all_information.script.bytes.as_slice());
        code.extend_from_slice(script::assemble(&between).bytes.as_slice());
        code.extend_from_slice(hash_drop.bytes.as_slice());
        code.extend_from_slice(script::assemble(&after).bytes.as_slice());

        let mut map: BTreeMap<usize, Script> = BTreeMap::new();
        map.insert(0, Script { bytes: code });
        assert(map@.dom() =~= set![0usize]);
        map
    }

    /// The script that comes before every script of the covenant.
    ///
    /// It takes from the bottom of the stack the public part of the old state and that of the new
    /// one, and from the top the hashes of the two states. It leaves the old program counter, the
    /// old stack hash, the new program counter and the new stack hash.
    pub fn get_common_prefix() -> (r: Script)
        ensures
            r@ == script::assembled(common_prefix_tokens()),
    {
        let mut tokens: Vec<Token> = vec![
            Token::Op(script::OP_TOALTSTACK),
            Token::Op(script::OP_TOALTSTACK),
        ];
        let ghost start = tokens.deep_view();
        let mut i: usize = 0;
        while i < 2
            invariant
                i <= 2,
                i == 0 ==> tokens.deep_view() == start,
                i == 1 ==> tokens.deep_view() == start + open_state_tokens(),
                i == 2 ==> tokens.deep_view() == start + open_state_tokens() + open_state_tokens(),
                forall|j: int| 0 <= j < tokens.len() ==> script::encodable(#[trigger] tokens[j]@),
            decreases 2 - i,
        {
            let ghost done = tokens.deep_view();
            let mut round: Vec<Token> = vec![
                Token::Op(script::OP_DEPTH),
                Token::Op(script::OP_1SUB),
                Token::Op(script::OP_ROLL),
                Token::Op(script::OP_1ADD),
                Token::Op(script::OP_1SUB),
                Token::Op(script::OP_DUP),
                Token::Int(0),
                Token::Op(script::OP_GREATERTHANOREQUAL),
                Token::Op(script::OP_VERIFY),
                Token::Op(script::OP_DEPTH),
                Token::Op(script::OP_1SUB),
                Token::Op(script::OP_ROLL),
                Token::Op(script::OP_SIZE),
                Token::Int(32),
                Token::Op(script::OP_EQUALVERIFY),
                Token::Op(script::OP_2DUP),
                Token::Op(script::OP_CAT),
                Token::Op(script::OP_SHA256),
                Token::Op(script::OP_FROMALTSTACK),
                Token::Op(script::OP_EQUALVERIFY),
            ];
            assert(round.deep_view() =~= open_state_tokens());
            tokens.append(&mut round);
            assert(tokens.deep_view() =~= done + open_state_tokens());
            i += 1;
        }
        assert(start =~= seq![
            TokenView::Op(script::OP_TOALTSTACK),
            TokenView::Op(script::OP_TOALTSTACK),
        ]);
        script::assemble(&tokens)
    }

    /// The leaf version of the covenant's scripts.
    pub fn leaf_version() -> (r: u8)
        ensures
            r == LEAF_VERSION,
            r == 0xc2,
    {
        checked_leaf_version(LEAF_VERSION).unwrap()
    }

    /// The state after a transition, whatever the state before it and the input: program counter
    /// one and what the verifier leaves. `stack_hash` is the hash of that stack.
    pub fn run(
        _id: usize,
        _old_state: &PlonkVerifierState,
        _input: &PlonkVerifierInput,
        all_information: &PlonkAllInformation,
        stack_hash: Vec<u8>,
    ) -> (r: PlonkVerifierState)
        ensures
            r.pc == 1,
            r.stack_hash@ == stack_hash@,
            bytes::strings(r.stack@) == bytes::strings(all_information.output@),
            r.stack.len() == all_information.output.len(),
            forall|i: int|
                0 <= i < r.stack.len() ==> (#[trigger] r.stack[i])@ == all_information.output[i]@,
    {
        PlonkVerifierState {
            pc: 1,
            stack_hash,
            stack: bytes::clone_strings(&all_information.output),
        }
    }
}

/// Opening a state: the script succeeds exactly where the second hint has the length of a hash
/// and the two hints, the first in its shortest form, hash to the top of the other stack. It
/// leaves the program counter in its shortest form and the stack hash.
pub proof fn opening_a_state_checks_its_hash(
    pc: Seq<u8>,
    stack_hash: Seq<u8>,
    rest: Seq<Seq<u8>>,
    expected: Seq<u8>,
    alt: Seq<Seq<u8>>,
)
    ensures
        machine::run(
            open_state_tokens(),
            (Machine { stack: seq![pc, stack_hash] + rest, alt: alt.push(expected) }),
        ) == (if stack_hash.len() == 32 && state_hash(bytes::le_number(pc), stack_hash)
            == expected {
            Some(
                Machine {
                    stack: rest.push(bytes::le_bytes(bytes::le_number(pc))).push(stack_hash),
                    alt,
                },
            )
        } else {
            None
        }),
{
    let n = bytes::le_number(pc);
    let low = bytes::le_bytes(n);
    let alt2 = alt.push(expected);
    let m0 = Machine { stack: seq![pc, stack_hash] + rest, alt: alt2 };
    let m2 = Machine { stack: (seq![stack_hash] + rest).push(low), alt: alt2 };
    let t1 = machine::hint_tokens();
    let t2 = counter_check_tokens();
    let t3 = hash_check_tokens();

    assert(m0.stack =~= seq![pc] + (seq![stack_hash] + rest));
    machine::hint_comes_from_the_bottom(pc, seq![stack_hash] + rest, alt2);
    lemma_counter_check(pc, seq![stack_hash] + rest, alt2);
    assert(m2.stack =~= seq![stack_hash] + rest.push(low));
    machine::hint_comes_from_the_bottom(stack_hash, rest.push(low), alt2);
    lemma_hash_check(low, stack_hash, rest, expected, alt);

    machine::running_in_parts(t1, t2, m0);
    machine::running_in_parts(t1 + t2, t1, m0);
    machine::running_in_parts(t1 + t2 + t1, t3, m0);
}

proof fn lemma_counter_check(pc: Seq<u8>, rest: Seq<Seq<u8>>, alt: Seq<Seq<u8>>)
    ensures
        machine::run(counter_check_tokens(), (Machine { stack: rest.push(pc), alt })) == Some(
            Machine { stack: rest.push(bytes::le_bytes(bytes::le_number(pc))), alt },
        ),
{
    broadcast use {machine::lemma_run_push, machine::lemma_push_pop};

    let n = bytes::le_number(pc);
    let m = Machine { stack: rest.push(pc), alt };
    bytes::le_number_undoes_le_bytes(n + 1);
    bytes::le_number_undoes_le_bytes(n);
    assert(bytes::le_number(Seq::<u8>::empty()) == 0);
    assert(bytes::le_number(machine::truth(true)) == 1) by {
        assert(seq![1u8].skip(1) =~= Seq::<u8>::empty());
    }
    assert(script::script_number(0) =~= Seq::<u8>::empty());
    assert(counter_check_tokens() =~= Seq::<TokenView>::empty().push(
        TokenView::Op(script::OP_1ADD),
    ).push(TokenView::Op(script::OP_1SUB)).push(TokenView::Op(script::OP_DUP)).push(
        TokenView::Int(0),
    ).push(TokenView::Op(script::OP_GREATERTHANOREQUAL)).push(TokenView::Op(script::OP_VERIFY)));
    assert(machine::run(Seq::<TokenView>::empty(), m) == Some(m));
}

proof fn lemma_hash_check(
    low: Seq<u8>,
    stack_hash: Seq<u8>,
    rest: Seq<Seq<u8>>,
    expected: Seq<u8>,
    alt: Seq<Seq<u8>>,
)
    ensures
        machine::run(
            hash_check_tokens(),
            (Machine { stack: rest.push(low).push(stack_hash), alt: alt.push(expected) }),
        ) == (if stack_hash.len() == 32 && hash::sha256_digest(low + stack_hash) == expected {
            Some(Machine { stack: rest.push(low).push(stack_hash), alt })
        } else {
            None
        }),
{
    broadcast use {machine::lemma_run_push, machine::lemma_push_pop};

    let m = Machine { stack: rest.push(low).push(stack_hash), alt: alt.push(expected) };
    lemma_small_number(32);
    bytes::le_number_undoes_le_bytes(32);
    bytes::le_number_undoes_le_bytes(stack_hash.len());
    assert(hash_check_tokens() =~= Seq::<TokenView>::empty().push(
        TokenView::Op(script::OP_SIZE),
    ).push(TokenView::Int(32)).push(TokenView::Op(script::OP_EQUALVERIFY)).push(
        TokenView::Op(script::OP_2DUP),
    ).push(TokenView::Op(script::OP_CAT)).push(TokenView::Op(script::OP_SHA256)).push(
        TokenView::Op(script::OP_FROMALTSTACK),
    ).push(TokenView::Op(script::OP_EQUALVERIFY)));
    assert(machine::run(Seq::<TokenView>::empty(), m) == Some(m));
}

/// A small number has one spelling, as script data and as a stack element.
proof fn lemma_small_number(n: nat)
    requires
        0 < n < 0x80,
    ensures
        script::script_number(n) == bytes::le_bytes(n),
        bytes::le_bytes(n) == seq![n as u8],
{
    assert(bytes::le_bytes(n / 256) =~= Seq::<u8>::empty());
    assert(bytes::le_bytes(n) =~= seq![n as u8]);
}

/// The common prefix succeeds exactly where both stack hashes have the length of a hash and both
/// states have the hashes that were given for them. It leaves the old program counter, the old
/// stack hash, the new program counter and the new stack hash.
pub proof fn common_prefix_opens_both_states(
    old_pc: Seq<u8>,
    old_stack_hash: Seq<u8>,
    new_pc: Seq<u8>,
    new_stack_hash: Seq<u8>,
    rest: Seq<Seq<u8>>,
    old_state_hash: Seq<u8>,
    new_state_hash: Seq<u8>,
    alt: Seq<Seq<u8>>,
)
    ensures
        machine::run(
            common_prefix_tokens(),
            (Machine {
                stack: (seq![old_pc, old_stack_hash, new_pc, new_stack_hash] + rest).push(
                    old_state_hash,
                ).push(new_state_hash),
                alt,
            }),
        ) == (if old_stack_hash.len() == 32 && new_stack_hash.len() == 32 && state_hash(
            bytes::le_number(old_pc),
            old_stack_hash,
        ) == old_state_hash && state_hash(bytes::le_number(new_pc), new_stack_hash)
            == new_state_hash {
            Some(
                Machine {
                    stack: rest.push(bytes::le_bytes(bytes::le_number(old_pc))).push(
                        old_stack_hash,
                    ).push(bytes::le_bytes(bytes::le_number(new_pc))).push(new_stack_hash),
                    alt,
                },
            )
        } else {
            None
        }),
{
    broadcast use {machine::lemma_run_push, machine::lemma_push_pop};

    let hints = seq![old_pc, old_stack_hash, new_pc, new_stack_hash];
    let later = seq![new_pc, new_stack_hash];
    let m0 = Machine {
        stack: (hints + rest).push(old_state_hash).push(new_state_hash),
        alt,
    };
    let alt2 = alt.push(new_state_hash).push(old_state_hash);
    let m1 = Machine { stack: hints + rest, alt: alt2 };
    let first = seq![TokenView::Op(script::OP_TOALTSTACK), TokenView::Op(script::OP_TOALTSTACK)];
    assert(first =~= Seq::<TokenView>::empty().push(TokenView::Op(script::OP_TOALTSTACK)).push(
        TokenView::Op(script::OP_TOALTSTACK),
    ));
    assert(machine::run(Seq::<TokenView>::empty(), m0) == Some(m0));
    assert(machine::run(first, m0) == Some(m1));

    assert(hints + rest =~= seq![old_pc, old_stack_hash] + (later + rest));
    opening_a_state_checks_its_hash(
        old_pc,
        old_stack_hash,
        later + rest,
        old_state_hash,
        alt.push(new_state_hash),
    );
    let opened = rest.push(bytes::le_bytes(bytes::le_number(old_pc))).push(old_stack_hash);
    assert((later + rest).push(bytes::le_bytes(bytes::le_number(old_pc))).push(old_stack_hash)
        =~= later + opened);
    opening_a_state_checks_its_hash(new_pc, new_stack_hash, opened, new_state_hash, alt);
    machine::running_in_parts(first, open_state_tokens(), m0);
    machine::running_in_parts(first + open_state_tokens(), open_state_tokens(), m0);
}

/// The checks before the verifier succeed exactly on a transition from the initial state to
/// program counter one. They put the new stack hash aside and leave the rest of the stack.
pub proof fn transition_starts_at_the_initial_state(
    old_pc: Seq<u8>,
    old_stack_hash: Seq<u8>,
    new_pc: Seq<u8>,
    new_stack_hash: Seq<u8>,
    rest: Seq<Seq<u8>>,
    alt: Seq<Seq<u8>>,
)
    ensures
        machine::run(
            transition_check_tokens(),
            (Machine {
                stack: rest.push(old_pc).push(old_stack_hash).push(new_pc).push(new_stack_hash),
                alt,
            }),
        ) == (if old_pc == bytes::le_bytes(0) && old_stack_hash == zero_hash() && new_pc
            == bytes::le_bytes(1) {
            Some(Machine { stack: rest, alt: alt.push(new_stack_hash) })
        } else {
            None
        }),
{
    broadcast use {machine::lemma_run_push, machine::lemma_push_pop};

    let m = Machine {
        stack: rest.push(old_pc).push(old_stack_hash).push(new_pc).push(new_stack_hash),
        alt,
    };
    lemma_small_number(1);
    assert(script::script_number(0) =~= bytes::le_bytes(0));
    assert(transition_check_tokens() =~= Seq::<TokenView>::empty().push(
        TokenView::Op(script::OP_SWAP),
    ).push(TokenView::Int(1)).push(TokenView::Op(script::OP_EQUALVERIFY)).push(
        TokenView::Op(script::OP_ROT),
    ).push(TokenView::Int(0)).push(TokenView::Op(script::OP_EQUALVERIFY)).push(
        TokenView::Op(script::OP_SWAP),
    ).push(TokenView::Push(zero_hash())).push(TokenView::Op(script::OP_EQUALVERIFY)).push(
        TokenView::Op(script::OP_TOALTSTACK),
    ));
    assert(machine::run(Seq::<TokenView>::empty(), m) == Some(m));
}

/// After the common prefix and the checks, the old state is the initial state and the new state
/// has program counter one: no other pair of state hashes passes.
pub proof fn covenant_accepts_only_its_transition(
    old_pc: Seq<u8>,
    old_stack_hash: Seq<u8>,
    new_pc: Seq<u8>,
    new_stack_hash: Seq<u8>,
    rest: Seq<Seq<u8>>,
    old_state_hash: Seq<u8>,
    new_state_hash: Seq<u8>,
)
    ensures
        machine::run(
            common_prefix_tokens() + transition_check_tokens(),
            (Machine {
                stack: (seq![old_pc, old_stack_hash, new_pc, new_stack_hash] + rest).push(
                    old_state_hash,
                ).push(new_state_hash),
                alt: Seq::empty(),
            }),
        ) == (if bytes::le_number(old_pc) == 0 && old_stack_hash == zero_hash()
            && bytes::le_number(new_pc) == 1 && new_stack_hash.len() == 32 && old_state_hash
            == state_hash(0, zero_hash()) && new_state_hash == state_hash(1, new_stack_hash) {
            Some(Machine { stack: rest, alt: seq![new_stack_hash] })
        } else {
            None
        }),
{
    let alt = Seq::<Seq<u8>>::empty();
    let m = Machine {
        stack: (seq![old_pc, old_stack_hash, new_pc, new_stack_hash] + rest).push(
            old_state_hash,
        ).push(new_state_hash),
        alt,
    };
    let old_low = bytes::le_bytes(bytes::le_number(old_pc));
    let new_low = bytes::le_bytes(bytes::le_number(new_pc));
    machine::running_in_parts(common_prefix_tokens(), transition_check_tokens(), m);
    common_prefix_opens_both_states(
        old_pc,
        old_stack_hash,
        new_pc,
        new_stack_hash,
        rest,
        old_state_hash,
        new_state_hash,
        alt,
    );
    transition_starts_at_the_initial_state(
        old_low,
        old_stack_hash,
        new_low,
        new_stack_hash,
        rest,
        alt,
    );
    bytes::le_number_undoes_le_bytes(bytes::le_number(old_pc));
    bytes::le_number_undoes_le_bytes(bytes::le_number(new_pc));
    bytes::le_number_undoes_le_bytes(0);
    bytes::le_number_undoes_le_bytes(1);
    assert(alt.push(new_stack_hash) =~= seq![new_stack_hash]);
}

/// The check after the verifier succeeds exactly where one element is left.
pub proof fn verifier_leaves_one_element(stack: Seq<Seq<u8>>, alt: Seq<Seq<u8>>)
    ensures
        machine::run(depth_check_tokens(), (Machine { stack, alt })) == (if stack.len() == 1 {
            Some(Machine { stack, alt })
        } else {
            None
        }),
{
    broadcast use {machine::lemma_run_push, machine::lemma_push_pop};

    let m = Machine { stack, alt };
    lemma_small_number(1);
    bytes::le_number_undoes_le_bytes(1);
    bytes::le_number_undoes_le_bytes(stack.len());
    assert(depth_check_tokens() =~= Seq::<TokenView>::empty().push(
        TokenView::Op(script::OP_DEPTH),
    ).push(TokenView::Int(1)).push(TokenView::Op(script::OP_EQUALVERIFY)));
    assert(machine::run(Seq::<TokenView>::empty(), m) == Some(m));
}

/// The check at the end succeeds exactly where the computed stack hash is the one that was put
/// aside, and leaves true.
pub proof fn computed_hash_is_the_new_stack_hash(
    computed: Seq<u8>,
    stack: Seq<Seq<u8>>,
    new_stack_hash: Seq<u8>,
    alt: Seq<Seq<u8>>,
)
    ensures
        machine::run(
            stack_hash_check_tokens(),
            (Machine { stack: stack.push(computed), alt: alt.push(new_stack_hash) }),
        ) == (if computed == new_stack_hash {
            Some(Machine { stack: stack.push(machine::truth(true)), alt })
        } else {
            None
        }),
{
    broadcast use {machine::lemma_run_push, machine::lemma_push_pop};

    let m = Machine { stack: stack.push(computed), alt: alt.push(new_stack_hash) };
    assert(stack_hash_check_tokens() =~= Seq::<TokenView>::empty().push(
        TokenView::Op(script::OP_FROMALTSTACK),
    ).push(TokenView::Op(script::OP_EQUALVERIFY)).push(TokenView::Op(script::OP_TRUE)));
    assert(machine::run(Seq::<TokenView>::empty(), m) == Some(m));
}

/// Running the script of a state leaves its program counter, as script data, and its stack hash.
pub proof fn state_script_leaves_the_state(pc: int, stack_hash: Seq<u8>, m: Machine)
    requires
        pc >= 0,
    ensures
        machine::run(state_tokens(pc, stack_hash), m) == Some(
            m.with(m.stack.push(script::script_number(pc as nat)).push(stack_hash)),
        ),
{
    broadcast use machine::lemma_run_push;

    assert(state_tokens(pc, stack_hash) =~= Seq::<TokenView>::empty().push(
        TokenView::Int(pc),
    ).push(TokenView::Push(stack_hash)));
    assert(machine::run(Seq::<TokenView>::empty(), m) == Some(m));
}

/// The pieces of a list of scripts, one script after the other.
pub open spec fn joined_tokens(programs: Seq<Seq<TokenView>>) -> Seq<TokenView>
    decreases programs.len(),
{
    if programs.len() == 0 {
        Seq::empty()
    } else {
        joined_tokens(programs.drop_last()) + programs.last()
    }
}

/// A list of lists of stack elements, one list after the other.
pub open spec fn joined_elements(lists: Seq<Seq<Seq<u8>>>) -> Seq<Seq<u8>>
    decreases lists.len(),
{
    if lists.len() == 0 {
        Seq::empty()
    } else {
        joined_elements(lists.drop_last()) + lists.last()
    }
}

/// A script takes its hints from under whatever else lies at the bottom of the stack, turns the
/// top of the stack from `before` to `after` and leaves the rest.
pub open spec fn takes_its_hints(
    program: Seq<TokenView>,
    hints: Seq<Seq<u8>>,
    before: Seq<Seq<u8>>,
    after: Seq<Seq<u8>>,
    alt: Seq<Seq<u8>>,
) -> bool {
    forall|rest: Seq<Seq<u8>>|
        #![trigger hints + rest]
        machine::run(program, (Machine { stack: hints + rest + before, alt })) == Some(
            Machine { stack: rest + after, alt },
        )
}

/// The merged script's bytes are those of the joined pieces.
pub proof fn merged_script_is_assembled(
    programs: Seq<CompiledProgram>,
    tokens: Seq<Seq<TokenView>>,
)
    requires
        programs.len() == tokens.len(),
        forall|i: int|
            0 <= i < programs.len() ==> (#[trigger] programs[i]).script@ == script::assembled(
                tokens[i],
            ),
    ensures
        merged_script(programs) == script::assembled(joined_tokens(tokens)),
    decreases programs.len(),
{
    if programs.len() > 0 {
        merged_script_is_assembled(programs.drop_last(), tokens.drop_last());
        script::assembled_in_parts(joined_tokens(tokens.drop_last()), tokens.last());
    }
}

/// Scripts that each take their hints from the bottom of the stack find them when they run one
/// after the other on all the hints: the hints of the later scripts wait at the bottom.
pub proof fn merged_scripts_find_their_hints(
    programs: Seq<Seq<TokenView>>,
    hints: Seq<Seq<Seq<u8>>>,
    tops: Seq<Seq<Seq<u8>>>,
    rest: Seq<Seq<u8>>,
    alt: Seq<Seq<u8>>,
)
    requires
        hints.len() == programs.len(),
        tops.len() == programs.len() + 1,
        forall|i: int|
            0 <= i < programs.len() ==> takes_its_hints(
                #[trigger] programs[i],
                hints[i],
                tops[i],
                tops[i + 1],
                alt,
            ),
    ensures
        machine::run(
            joined_tokens(programs),
            (Machine { stack: joined_elements(hints) + rest + tops[0], alt }),
        ) == Some(Machine { stack: rest + tops.last(), alt }),
    decreases programs.len(),
{
    let m = Machine { stack: joined_elements(hints) + rest + tops[0], alt };
    if programs.len() == 0 {
        assert(m.stack =~= rest + tops.last());
    } else {
        let n = programs.len() - 1;
        assert forall|i: int| 0 <= i < n implies takes_its_hints(
            #[trigger] programs.drop_last()[i],
            hints.drop_last()[i],
            tops.drop_last()[i],
            tops.drop_last()[i + 1],
            alt,
        ) by {
            assert(takes_its_hints(programs[i], hints[i], tops[i], tops[i + 1], alt));
        }
        merged_scripts_find_their_hints(
            programs.drop_last(),
            hints.drop_last(),
            tops.drop_last(),
            hints.last() + rest,
            alt,
        );
        assert(m.stack =~= joined_elements(hints.drop_last()) + (hints.last() + rest) + tops[0]);
        machine::running_in_parts(joined_tokens(programs.drop_last()), programs.last(), m);
        assert(takes_its_hints(programs[n], hints[n], tops[n], tops[n + 1], alt));
        let between = Machine { stack: hints[n] + rest + tops[n], alt };
        assert(machine::run(programs[n], between) == Some(
            Machine { stack: rest + tops[n + 1], alt },
        ));
    }
}

/// The pieces of the covenant's script around a verifier and a script that hashes the stack.
pub open spec fn program_tokens(verifier: Seq<TokenView>, hash_drop: Seq<TokenView>) -> Seq<
    TokenView,
> {
    transition_check_tokens() + verifier + depth_check_tokens() + hash_drop
        + stack_hash_check_tokens()
}

/// The bytes of the covenant's script are those of its pieces.
pub proof fn program_is_assembled(verifier: Seq<TokenView>, hash_drop: Seq<TokenView>)
    ensures
        script::assembled(program_tokens(verifier, hash_drop)) == program_bytes(
            script::assembled(verifier),
            script::assembled(hash_drop),
        ),
{
    let first = transition_check_tokens();
    let third = depth_check_tokens();
    script::assembled_in_parts(first, verifier);
    script::assembled_in_parts(first + verifier, third);
    script::assembled_in_parts(first + verifier + third, hash_drop);
    script::assembled_in_parts(first + verifier + third + hash_drop, stack_hash_check_tokens());
}

/// The check at the end succeeds exactly where both stacks have the same top. It takes both off and
/// leaves true.
pub open spec fn compared_tops(m: Machine) -> Option<Machine> {
    if m.stack.len() > 0 && m.alt.len() > 0 && m.stack.last() == m.alt.last() {
        Some(
            Machine {
                stack: m.stack.drop_last().push(machine::truth(true)),
                alt: m.alt.drop_last(),
            },
        )
    } else {
        None
    }
}

/// The check at the end compares the tops of the two stacks, whatever else they hold.
pub proof fn hash_check_compares_the_tops(m: Machine)
    ensures
        machine::run(stack_hash_check_tokens(), m) == compared_tops(m),
{
    broadcast use {machine::lemma_run_push, machine::lemma_push_pop};

    assert(stack_hash_check_tokens() =~= Seq::<TokenView>::empty().push(
        TokenView::Op(script::OP_FROMALTSTACK),
    ).push(TokenView::Op(script::OP_EQUALVERIFY)).push(TokenView::Op(script::OP_TRUE)));
    assert(machine::run(Seq::<TokenView>::empty(), m) == Some(m));
}

/// The covenant's script, whatever its verifier and whatever its script that hashes the stack,
/// succeeds only where the old state is the initial one, the new program counter is one, the
/// verifier succeeds and leaves exactly one element, and the script after it succeeds and leaves on
/// top what stands on top of the other stack, where the new stack hash was put.
pub proof fn covenant_script_success(
    old_pc: Seq<u8>,
    old_stack_hash: Seq<u8>,
    new_pc: Seq<u8>,
    new_stack_hash: Seq<u8>,
    input: Seq<Seq<u8>>,
    alt: Seq<Seq<u8>>,
    verifier: Seq<TokenView>,
    hash_drop: Seq<TokenView>,
)
    ensures
        ({
            let left = machine::run(
                verifier,
                (Machine { stack: input, alt: alt.push(new_stack_hash) }),
            );
            let hashed = machine::run_after(left, hash_drop);
            machine::run(
                program_tokens(verifier, hash_drop),
                (Machine {
                    stack: input.push(old_pc).push(old_stack_hash).push(new_pc).push(
                        new_stack_hash,
                    ),
                    alt,
                }),
            ) == (if old_pc == bytes::le_bytes(0) && old_stack_hash == zero_hash() && new_pc
                == bytes::le_bytes(1) && left is Some && left->0.stack.len() == 1
                && hashed is Some {
                compared_tops(hashed->0)
            } else {
                None
            })
        }),
{
    let m = Machine {
        stack: input.push(old_pc).push(old_stack_hash).push(new_pc).push(new_stack_hash),
        alt,
    };
    let checked = Machine { stack: input, alt: alt.push(new_stack_hash) };
    let left = machine::run(verifier, checked);
    let a = transition_check_tokens();
    let b = a + verifier;
    let c = b + depth_check_tokens();
    let d = c + hash_drop;
    transition_starts_at_the_initial_state(
        old_pc,
        old_stack_hash,
        new_pc,
        new_stack_hash,
        input,
        alt,
    );
    machine::running_in_parts(a, verifier, m);
    machine::running_in_parts(b, depth_check_tokens(), m);
    machine::running_in_parts(c, hash_drop, m);
    machine::running_in_parts(d, stack_hash_check_tokens(), m);
    match left {
        None => {},
        Some(after) => {
            verifier_leaves_one_element(after.stack, after.alt);
            match machine::run(hash_drop, after) {
                None => {},
                Some(hashed) => {
                    hash_check_compares_the_tops(hashed);
                },
            }
        },
    }
}

/// A run of a script leaves the other stack as it was, or fails.
pub open spec fn keeps_alt(script: Seq<TokenView>, m: Machine) -> bool {
    machine::run(script, m) matches Some(after) ==> after.alt == m.alt
}

/// A script replaces the one element that another left by its hash.
pub open spec fn hashes_what_is_left(
    hash_drop: Seq<TokenView>,
    hashed: spec_fn(Seq<u8>) -> Seq<u8>,
    left: Option<Machine>,
) -> bool {
    left matches Some(m) ==> m.stack.len() == 1 ==> machine::run(hash_drop, m) == Some(
        m.with(seq![hashed(m.stack[0])]),
    )
}

/// The run of a verifier left exactly one element, and this is its hash.
pub open spec fn leaves_one_with_hash(
    left: Option<Machine>,
    hashed: spec_fn(Seq<u8>) -> Seq<u8>,
    expected: Seq<u8>,
) -> bool {
    left matches Some(m) && m.stack.len() == 1 && hashed(m.stack[0]) == expected
}

/// The covenant's script, whatever its verifier, succeeds on what the common prefix leaves exactly
/// where the old state is the initial one, the new program counter is one, the verifier leaves
/// exactly one element, and the hash of that element is the new stack hash. All that is taken for
/// granted is that the verifier leaves the other stack alone and that the script after it hashes
/// one element.
pub proof fn covenant_script_succeeds_only_on_its_transition(
    old_pc: Seq<u8>,
    old_stack_hash: Seq<u8>,
    new_pc: Seq<u8>,
    new_stack_hash: Seq<u8>,
    input: Seq<Seq<u8>>,
    alt: Seq<Seq<u8>>,
    verifier: Seq<TokenView>,
    hash_drop: Seq<TokenView>,
    hashed: spec_fn(Seq<u8>) -> Seq<u8>,
)
    requires
        keeps_alt(verifier, (Machine { stack: input, alt: alt.push(new_stack_hash) })),
        hashes_what_is_left(
            hash_drop,
            hashed,
            machine::run(
                verifier,
                (Machine { stack: input, alt: alt.push(new_stack_hash) }),
            ),
        ),
    ensures
        machine::run(
            program_tokens(verifier, hash_drop),
            (Machine {
                stack: input.push(old_pc).push(old_stack_hash).push(new_pc).push(new_stack_hash),
                alt,
            }),
        ) == (if old_pc == bytes::le_bytes(0) && old_stack_hash == zero_hash() && new_pc
            == bytes::le_bytes(1) && leaves_one_with_hash(
            machine::run(
                verifier,
                (Machine { stack: input, alt: alt.push(new_stack_hash) }),
            ),
            hashed,
            new_stack_hash,
        ) {
            Some(Machine { stack: seq![machine::truth(true)], alt })
        } else {
            None
        }),
{
    let checked = Machine { stack: input, alt: alt.push(new_stack_hash) };
    covenant_script_success(
        old_pc,
        old_stack_hash,
        new_pc,
        new_stack_hash,
        input,
        alt,
        verifier,
        hash_drop,
    );
    match machine::run(verifier, checked) {
        None => {},
        Some(after) => {
            if after.stack.len() == 1 {
                let output_hash = hashed(after.stack[0]);
                assert(after.with(seq![output_hash]).alt.drop_last() =~= alt);
                assert(seq![output_hash].drop_last().push(machine::truth(true)) =~= seq![
                    machine::truth(true),
                ]);
            }
        },
    }
}

/// Spending the covenant, whatever its verifier, succeeds exactly on the transition from the
/// initial state to program counter one with the hash of the one element that the verifier leaves,
/// and leaves true alone on the stack.
pub proof fn covenant_runs_its_transition(
    old_pc: Seq<u8>,
    old_stack_hash: Seq<u8>,
    new_pc: Seq<u8>,
    new_stack_hash: Seq<u8>,
    input: Seq<Seq<u8>>,
    old_state_hash: Seq<u8>,
    new_state_hash: Seq<u8>,
    verifier: Seq<TokenView>,
    hash_drop: Seq<TokenView>,
    hashed: spec_fn(Seq<u8>) -> Seq<u8>,
)
    requires
        keeps_alt(verifier, (Machine { stack: input, alt: seq![new_stack_hash] })),
        hashes_what_is_left(
            hash_drop,
            hashed,
            machine::run(verifier, (Machine { stack: input, alt: seq![new_stack_hash] })),
        ),
    ensures
        machine::run(
            common_prefix_tokens() + program_tokens(verifier, hash_drop),
            (Machine {
                stack: (seq![old_pc, old_stack_hash, new_pc, new_stack_hash] + input).push(
                    old_state_hash,
                ).push(new_state_hash),
                alt: Seq::empty(),
            }),
        ) == (if bytes::le_number(old_pc) == 0 && old_stack_hash == zero_hash()
            && bytes::le_number(new_pc) == 1 && new_stack_hash.len() == 32 && old_state_hash
            == state_hash(0, zero_hash()) && new_state_hash == state_hash(1, new_stack_hash)
            && leaves_one_with_hash(
            machine::run(verifier, (Machine { stack: input, alt: seq![new_stack_hash] })),
            hashed,
            new_stack_hash,
        ) {
            Some(Machine { stack: seq![machine::truth(true)], alt: Seq::empty() })
        } else {
            None
        }),
{
    let alt = Seq::<Seq<u8>>::empty();
    let m = Machine {
        stack: (seq![old_pc, old_stack_hash, new_pc, new_stack_hash] + input).push(
            old_state_hash,
        ).push(new_state_hash),
        alt,
    };
    let old_low = bytes::le_bytes(bytes::le_number(old_pc));
    let new_low = bytes::le_bytes(bytes::le_number(new_pc));
    assert(alt.push(new_stack_hash) =~= seq![new_stack_hash]);
    machine::running_in_parts(common_prefix_tokens(), program_tokens(verifier, hash_drop), m);
    common_prefix_opens_both_states(
        old_pc,
        old_stack_hash,
        new_pc,
        new_stack_hash,
        input,
        old_state_hash,
        new_state_hash,
        alt,
    );
    covenant_script_succeeds_only_on_its_transition(
        old_low,
        old_stack_hash,
        new_low,
        new_stack_hash,
        input,
        alt,
        verifier,
        hash_drop,
        hashed,
    );
    bytes::le_number_undoes_le_bytes(bytes::le_number(old_pc));
    bytes::le_number_undoes_le_bytes(bytes::le_number(new_pc));
    bytes::le_number_undoes_le_bytes(0);
    bytes::le_number_undoes_le_bytes(1);
}

/// The hints of each program of a list.
pub open spec fn hint_lists(programs: Seq<CompiledProgram>) -> Seq<Seq<Seq<u8>>> {
    programs.map_values(|p: CompiledProgram| stack_elements(p.hint@))
}

/// The merged witness holds the hints of the programs, one list after the other.
pub proof fn merged_witness_is_joined(programs: Seq<CompiledProgram>)
    ensures
        merged_witness(programs) == joined_elements(hint_lists(programs)),
    decreases programs.len(),
{
    if programs.len() > 0 {
        merged_witness_is_joined(programs.drop_last());
        assert(hint_lists(programs).drop_last() =~= hint_lists(programs.drop_last()));
    }
}

/// Each compiled step takes its own hints from the bottom of the stack and turns what the step
/// before it left into what the next one starts with, from nothing to the output.
pub open spec fn steps_take_their_hints(
    programs: Seq<CompiledProgram>,
    tokens: Seq<Seq<TokenView>>,
    tops: Seq<Seq<Seq<u8>>>,
    output: Seq<Seq<u8>>,
    alt: Seq<Seq<u8>>,
) -> bool {
    &&& tokens.len() == programs.len()
    &&& tops.len() == programs.len() + 1
    &&& tops[0] == Seq::<Seq<u8>>::empty()
    &&& tops.last() == output
    &&& forall|i: int|
        0 <= i < programs.len() ==> takes_its_hints(
            #[trigger] tokens[i],
            stack_elements(programs[i].hint@),
            tops[i],
            tops[i + 1],
            alt,
        )
}

/// The merged script, run on the merged witness, leaves the output and the other stack as it was.
pub proof fn merged_verifier_leaves_the_output(
    programs: Seq<CompiledProgram>,
    tokens: Seq<Seq<TokenView>>,
    tops: Seq<Seq<Seq<u8>>>,
    output: Seq<Seq<u8>>,
    alt: Seq<Seq<u8>>,
)
    requires
        steps_take_their_hints(programs, tokens, tops, output, alt),
    ensures
        machine::run(
            joined_tokens(tokens),
            (Machine { stack: merged_witness(programs), alt }),
        ) == Some(Machine { stack: output, alt }),
{
    let hints = hint_lists(programs);
    let rest = Seq::<Seq<u8>>::empty();
    merged_witness_is_joined(programs);
    merged_scripts_find_their_hints(tokens, hints, tops, rest, alt);
    assert(joined_elements(hints) + rest + tops[0] =~= merged_witness(programs));
    assert(rest + tops.last() =~= output);
}

/// The pieces that check the stack against expected elements, the top one first, and leave true.
pub open spec fn output_check_tokens(output: Seq<Seq<u8>>) -> Seq<TokenView>
    decreases output.len(),
{
    if output.len() == 0 {
        seq![TokenView::Op(script::OP_TRUE)]
    } else {
        seq![TokenView::Push(output.last()), TokenView::Op(script::OP_EQUALVERIFY)]
            + output_check_tokens(output.drop_last())
    }
}

/// The check of the output succeeds where the top of the stack is the output. It takes the output
/// off and leaves true.
pub proof fn output_check_accepts_the_output(
    below: Seq<Seq<u8>>,
    output: Seq<Seq<u8>>,
    alt: Seq<Seq<u8>>,
)
    ensures
        machine::run(
            output_check_tokens(output),
            (Machine { stack: below + output, alt }),
        ) == Some(Machine { stack: below.push(machine::truth(true)), alt }),
    decreases output.len(),
{
    broadcast use {machine::lemma_run_push, machine::lemma_push_pop};

    let m = Machine { stack: below + output, alt };
    assert(machine::run(Seq::<TokenView>::empty(), m) == Some(m));
    if output.len() == 0 {
        assert(output_check_tokens(output) =~= Seq::<TokenView>::empty().push(
            TokenView::Op(script::OP_TRUE),
        ));
        assert(below + output =~= below);
    } else {
        let shorter = output.drop_last();
        let first = seq![
            TokenView::Push(output.last()),
            TokenView::Op(script::OP_EQUALVERIFY),
        ];
        assert(below + output =~= (below + shorter).push(output.last()));
        assert(first =~= Seq::<TokenView>::empty().push(TokenView::Push(output.last())).push(
            TokenView::Op(script::OP_EQUALVERIFY),
        ));
        assert(machine::run(first, m) == Some(Machine { stack: below + shorter, alt }));
        output_check_accepts_the_output(below, shorter, alt);
        machine::running_in_parts(first, output_check_tokens(shorter), m);
    }
}

/// The whole verifier as one script: pushing the hints of its input, running the merged script and
/// checking the output leaves true alone, where each step takes its hints.
pub proof fn merged_verifier_passes(
    programs: Seq<CompiledProgram>,
    tokens: Seq<Seq<TokenView>>,
    tops: Seq<Seq<Seq<u8>>>,
    output: Seq<Seq<u8>>,
)
    requires
        steps_take_their_hints(programs, tokens, tops, output, Seq::empty()),
    ensures
        machine::run(
            pushes(merged_witness(programs)) + joined_tokens(tokens) + output_check_tokens(output),
            (Machine { stack: Seq::empty(), alt: Seq::empty() }),
        ) == Some(Machine { stack: seq![machine::truth(true)], alt: Seq::empty() }),
{
    let none = Seq::<Seq<u8>>::empty();
    let m = Machine { stack: none, alt: none };
    let first = pushes(merged_witness(programs));
    machine::pushes_leave_their_data(merged_witness(programs), m);
    assert(none + merged_witness(programs) =~= merged_witness(programs));
    merged_verifier_leaves_the_output(programs, tokens, tops, output, none);
    output_check_accepts_the_output(none, output, none);
    assert(none + output =~= output);
    assert(none.push(machine::truth(true)) =~= seq![machine::truth(true)]);
    machine::running_in_parts(first, joined_tokens(tokens), m);
    machine::running_in_parts(first + joined_tokens(tokens), output_check_tokens(output), m);
}

/// The bytes of that script are the pushes of the hints, the merged script and the check.
pub proof fn merged_verifier_is_assembled(
    programs: Seq<CompiledProgram>,
    tokens: Seq<Seq<TokenView>>,
    output: Seq<Seq<u8>>,
)
    requires
        programs.len() == tokens.len(),
        forall|i: int|
            0 <= i < programs.len() ==> (#[trigger] programs[i]).script@ == script::assembled(
                tokens[i],
            ),
    ensures
        script::assembled(
            pushes(merged_witness(programs)) + joined_tokens(tokens) + output_check_tokens(output),
        ) == script::assembled(pushes(merged_witness(programs))) + merged_script(programs)
            + script::assembled(output_check_tokens(output)),
{
    let first = pushes(merged_witness(programs));
    merged_script_is_assembled(programs, tokens);
    script::assembled_in_parts(first, joined_tokens(tokens));
    script::assembled_in_parts(first + joined_tokens(tokens), output_check_tokens(output));
}

/// The covenant's script around the merged verifier, on the merged witness: where each step takes
/// its hints and the last leaves the final hash, it succeeds exactly on the transition from the
/// initial state to program counter one with what the script after it makes of the final hash.
pub proof fn merged_covenant_runs_its_transition(
    programs: Seq<CompiledProgram>,
    tokens: Seq<Seq<TokenView>>,
    tops: Seq<Seq<Seq<u8>>>,
    final_hash: Seq<u8>,
    hash_drop: Seq<TokenView>,
    stack_hash: Seq<u8>,
    old_pc: Seq<u8>,
    old_stack_hash: Seq<u8>,
    new_pc: Seq<u8>,
    new_stack_hash: Seq<u8>,
    alt: Seq<Seq<u8>>,
)
    requires
        steps_take_their_hints(
            programs,
            tokens,
            tops,
            seq![final_hash],
            alt.push(new_stack_hash),
        ),
        machine::run(
            hash_drop,
            (Machine { stack: seq![final_hash], alt: alt.push(new_stack_hash) }),
        ) == Some(Machine { stack: seq![stack_hash], alt: alt.push(new_stack_hash) }),
    ensures
        machine::run(
            program_tokens(joined_tokens(tokens), hash_drop),
            (Machine {
                stack: merged_witness(programs).push(old_pc).push(old_stack_hash).push(new_pc).push(
                    new_stack_hash,
                ),
                alt,
            }),
        ) == (if old_pc == bytes::le_bytes(0) && old_stack_hash == zero_hash() && new_pc
            == bytes::le_bytes(1) && new_stack_hash == stack_hash {
            Some(Machine { stack: seq![machine::truth(true)], alt })
        } else {
            None
        }),
{
    let alt2 = alt.push(new_stack_hash);
    merged_verifier_leaves_the_output(programs, tokens, tops, seq![final_hash], alt2);
    covenant_script_success(
        old_pc,
        old_stack_hash,
        new_pc,
        new_stack_hash,
        merged_witness(programs),
        alt,
        joined_tokens(tokens),
        hash_drop,
    );
    assert(alt2.drop_last() =~= alt);
    assert(seq![stack_hash].drop_last().push(machine::truth(true)) =~= seq![machine::truth(true)]);
}

/// The steps before the queries and after them.
pub proof fn steps_of_the_setup_and_the_cleanup()
    ensures
        step_at(0) == VerifierStep::FiatShamir1,
        step_at(1) == VerifierStep::FiatShamir2AndConstraintNum,
        step_at(2) == VerifierStep::ConstraintDenom,
        step_at(3) == VerifierStep::PairVanishingAndAlphas,
        step_at(4) == VerifierStep::ColumnLineCoeffs1,
        step_at(5) == VerifierStep::ColumnLineCoeffs2,
        step_at(6) == VerifierStep::ColumnLineCoeffs3,
        step_at(71) == VerifierStep::Cleanup,
{
}

/// Each query has its eight parts, in one order, one query after the other.
pub proof fn steps_of_a_query(index: usize)
    requires
        index < 8,
    ensures
        step_at(7 + 8 * index) == (VerifierStep::Query { index, part: QueryPart::Folding }),
        step_at(8 + 8 * index) == (VerifierStep::Query { index, part: QueryPart::NumTrace }),
        step_at(9 + 8 * index) == (VerifierStep::Query { index, part: QueryPart::NumConstant }),
        step_at(10 + 8 * index) == (VerifierStep::Query { index, part: QueryPart::NumComposition }),
        step_at(11 + 8 * index) == (VerifierStep::Query { index, part: QueryPart::NumInteractionShifted }),
        step_at(12 + 8 * index) == (VerifierStep::Query { index, part: QueryPart::NumInteraction1 }),
        step_at(13 + 8 * index) == (VerifierStep::Query { index, part: QueryPart::NumInteraction2 }),
        step_at(14 + 8 * index) == (VerifierStep::Query { index, part: QueryPart::LastStep }),
{
}

/// Each hint becomes one element, in order: a number its shortest little-endian spelling, a string
/// itself.
pub proof fn hints_spell_their_numbers(hint: Seq<Element>, i: int)
    requires
        0 <= i < hint.len(),
    ensures
        stack_elements(hint).len() == hint.len(),
        match hint[i] {
            Element::Num(v) => {
                &&& bytes::is_minimal(stack_elements(hint)[i])
                &&& v >= 0 ==> bytes::le_number(stack_elements(hint)[i]) == v
                &&& v < 0 ==> bytes::le_number(stack_elements(hint)[i]) == v
                    + 0x1_0000_0000_0000_0000
            },
            Element::Str(s) => stack_elements(hint)[i] == s@,
        },
{
    match hint[i] {
        Element::Num(v) => {
            stack_element_spells_the_number(v, Seq::empty());
        },
        Element::Str(s) => {},
    }
}

/// One program merges into its own script and its own hints.
pub proof fn one_program_is_merged(program: CompiledProgram)
    ensures
        merged_script(seq![program]) == program.script@,
        merged_witness(seq![program]) == stack_elements(program.hint@),
{
    let none = Seq::<CompiledProgram>::empty();
    assert(seq![program].drop_last() =~= none);
    assert(merged_script(none) =~= Seq::<u8>::empty());
    assert(merged_witness(none) =~= Seq::<Seq<u8>>::empty());
    assert(merged_script(seq![program]) =~= program.script@);
    assert(merged_witness(seq![program]) =~= stack_elements(program.hint@));
}

/// Merging two lists of programs puts the scripts and the hints of the first before those of the
/// second.
pub proof fn programs_are_merged_in_turn(
    first: Seq<CompiledProgram>,
    second: Seq<CompiledProgram>,
)
    ensures
        merged_script(first + second) == merged_script(first) + merged_script(second),
        merged_witness(first + second) == merged_witness(first) + merged_witness(second),
    decreases second.len(),
{
    if second.len() == 0 {
        assert(first + second =~= first);
        assert(merged_script(first) + merged_script(second) =~= merged_script(first));
        assert(merged_witness(first) + merged_witness(second) =~= merged_witness(first));
    } else {
        programs_are_merged_in_turn(first, second.drop_last());
        assert((first + second).drop_last() =~= first + second.drop_last());
        assert(merged_script(first + second) =~= merged_script(first) + merged_script(second));
        assert(merged_witness(first + second) =~= merged_witness(first) + merged_witness(second));
    }
}

/// One more element of an input is one more push of data, whatever the element is.
pub proof fn each_element_is_pushed_as_data(elements: Seq<Seq<u8>>, element: Seq<u8>)
    ensures
        script::assembled(pushes(Seq::empty())) == Seq::<u8>::empty(),
        script::assembled(pushes(elements.push(element))) == script::assembled(pushes(elements))
            + script::push_encoding(element),
{
    assert(pushes(Seq::empty()) =~= Seq::<TokenView>::empty());
    assert(pushes(elements.push(element)).drop_last() =~= pushes(elements));
    assert(pushes(elements.push(element)).last() == TokenView::Push(element));
}

/// The script of a state is a push of its program counter as a number and a push of its stack hash
/// as data.
pub proof fn state_script_pushes_counter_and_hash(pc: int, stack_hash: Seq<u8>)
    ensures
        script::assembled(state_tokens(pc, stack_hash)) == script::int_encoding(pc)
            + script::push_encoding(stack_hash),
{
    let tokens = state_tokens(pc, stack_hash);
    let none = Seq::<TokenView>::empty();
    assert(tokens.drop_last().drop_last() =~= none);
    assert(script::assembled(none) =~= Seq::<u8>::empty());
    assert(script::assembled(tokens.drop_last()) =~= script::int_encoding(pc));
}

/// The hash of a state is the hash of one message: the stack hash behind a string that spells the
/// program counter and does not end in a zero.
pub proof fn state_hash_is_of_counter_and_hash(counter: Seq<u8>, stack_hash: Seq<u8>)
    requires
        bytes::is_minimal(counter),
    ensures
        state_hash(bytes::le_number(counter), stack_hash) == hash::sha256_digest(
            counter + stack_hash,
        ),
{
    bytes::le_bytes_undoes_le_number(counter);
}

/// The zero hash is thirty-two zeros.
pub proof fn zero_hash_is_zeros(i: int)
    requires
        0 <= i < 32,
    ensures
        zero_hash().len() == 32,
        zero_hash()[i] == 0,
{
}

} // verus!
