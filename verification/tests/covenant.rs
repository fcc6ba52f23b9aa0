use bitcoin_circle_stark::constraint_system::Element;
use bitcoin_circle_stark::dsl::plonk::covenant::{
    compute_all_information, extract_witness, verifier_steps, CompiledProgram,
    PlonkAllInformation, PlonkVerifierInput, PlonkVerifierProgram, PlonkVerifierState, QueryPart,
    VerifierStep,
};
use bitcoin_circle_stark::script::Script;
use sha2::{Digest, Sha256};

fn information() -> PlonkAllInformation {
    PlonkAllInformation {
        script: Script { bytes: vec![0xaa, 0xbb] },
        witness: vec![vec![1], vec![], vec![2, 3]],
        output: vec![vec![9; 32]],
    }
}

#[test]
fn input_is_the_hints() {
    let input = information().get_input();
    assert!(input.stack.is_empty());
    assert_eq!(input.hints, vec![vec![1], vec![], vec![2, 3]]);
}

#[test]
fn input_script_pushes_stack_and_hints() {
    let input = PlonkVerifierInput {
        stack: vec![vec![7]],
        hints: vec![vec![], vec![2, 3]],
    };
    assert_eq!(input.to_script().bytes, vec![0x01, 7, 0x00, 0x02, 2, 3]);
}

#[test]
fn state_script_pushes_counter_and_hash() {
    let state = PlonkVerifierState { pc: 72, stack_hash: vec![5; 32], stack: vec![] };
    let mut expected = vec![0x01, 72, 0x20];
    expected.extend_from_slice(&[5; 32]);
    assert_eq!(state.to_script().bytes, expected);
}

#[test]
fn initial_state() {
    let state = PlonkVerifierProgram::new();
    assert_eq!(state.pc, 0);
    assert_eq!(state.stack_hash, vec![0u8; 32]);
    assert!(state.stack.is_empty());
}

#[test]
fn state_hashes() {
    let state = PlonkVerifierProgram::new();
    assert_eq!(
        PlonkVerifierProgram::get_hash(&state),
        Sha256::digest([0u8; 32]).to_vec()
    );
    let state = PlonkVerifierState { pc: 258, stack_hash: vec![5; 32], stack: vec![] };
    let mut message = vec![2u8, 1u8];
    message.extend_from_slice(&[5; 32]);
    assert_eq!(
        PlonkVerifierProgram::get_hash(&state),
        Sha256::digest(&message).to_vec()
    );
}

#[test]
fn covenant_script() {
    let hash_drop = Script { bytes: vec![0xcc] };
    let scripts = PlonkVerifierProgram::get_all_scripts(&information(), &hash_drop);
    assert_eq!(scripts.len(), 1);
    let mut expected = vec![0x7c, 0x51, 0x88, 0x7b, 0x00, 0x88, 0x7c, 0x20];
    expected.extend_from_slice(&[0; 32]);
    expected.extend_from_slice(&[0x88, 0x6b]);
    expected.extend_from_slice(&[0xaa, 0xbb]);
    expected.extend_from_slice(&[0x74, 0x51, 0x88]);
    expected.extend_from_slice(&[0xcc]);
    expected.extend_from_slice(&[0x6c, 0x88, 0x51]);
    assert_eq!(scripts[&0].bytes, expected);
}

#[test]
fn common_prefix() {
    let round = vec![
        0x74, 0x8c, 0x7a, 0x8b, 0x8c, 0x76, 0x00, 0xa2, 0x69, 0x74, 0x8c, 0x7a, 0x82, 0x01, 0x20,
        0x88, 0x6e, 0x7e, 0xa8, 0x6c, 0x88,
    ];
    let mut expected = vec![0x6b, 0x6b];
    expected.extend_from_slice(&round);
    expected.extend_from_slice(&round);
    assert_eq!(PlonkVerifierProgram::get_common_prefix().bytes, expected);
}

#[test]
fn leaf_version() {
    assert_eq!(PlonkVerifierProgram::leaf_version(), 0xc2);
}

#[test]
fn transition() {
    let info = information();
    let old = PlonkVerifierProgram::new();
    let new = PlonkVerifierProgram::run(0, &old, &info.get_input(), &info, vec![4; 32]);
    assert_eq!(new.pc, 1);
    assert_eq!(new.stack_hash, vec![4; 32]);
    assert_eq!(new.stack, info.output);
}

#[test]
fn steps_in_order() {
    let steps = verifier_steps();
    assert_eq!(steps.len(), 72);
    assert_eq!(steps[0], VerifierStep::FiatShamir1);
    assert_eq!(steps[6], VerifierStep::ColumnLineCoeffs3);
    assert_eq!(steps[7], VerifierStep::Query { index: 0, part: QueryPart::Folding });
    assert_eq!(steps[14], VerifierStep::Query { index: 0, part: QueryPart::LastStep });
    assert_eq!(steps[15], VerifierStep::Query { index: 1, part: QueryPart::Folding });
    assert_eq!(steps[70], VerifierStep::Query { index: 7, part: QueryPart::LastStep });
    assert_eq!(steps[71], VerifierStep::Cleanup);
}

#[test]
fn merges_the_steps() {
    let programs: Vec<CompiledProgram> = (0..72u8)
        .map(|i| CompiledProgram {
            script: Script { bytes: vec![i; (i % 3) as usize] },
            hint: if i == 5 {
                vec![Element::Num(300), Element::Str(vec![8, 0])]
            } else if i == 70 {
                vec![Element::Num(0)]
            } else {
                vec![]
            },
        })
        .collect();
    assert_eq!(extract_witness(&programs[5]), vec![vec![44, 1], vec![8, 0]]);
    let info = compute_all_information(&programs, &vec![3; 32]);
    let expected: Vec<u8> = (0..72u8).flat_map(|i| vec![i; (i % 3) as usize]).collect();
    assert_eq!(info.script.bytes, expected);
    assert_eq!(info.witness, vec![vec![44, 1], vec![8, 0], vec![]]);
    assert_eq!(info.output, vec![vec![3u8; 32]]);
}
