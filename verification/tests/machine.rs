use bitcoin_circle_stark::bytes::minimal_le_bytes;
use bitcoin_circle_stark::dsl::plonk::covenant::{
    compute_all_information, CompiledProgram, PlonkAllInformation, PlonkVerifierProgram,
    PlonkVerifierState,
};
use bitcoin_circle_stark::dsl::primitives::channel::{
    draw_digest_gadget, reconstruct_for_channel_draw_gadget,
};
use bitcoin_circle_stark::script;
use bitcoin_circle_stark::script::Script;
use sha2::{Digest, Sha256};

fn number(bytes: &[u8]) -> u64 {
    bytes.iter().rev().fold(0, |n, b| n * 256 + *b as u64)
}

fn sha256(data: &[u8]) -> Vec<u8> {
    Sha256::digest(data).to_vec()
}

/// Runs a script whose pushes are short, or returns `None` where it fails.
fn run(code: &[u8], mut stack: Vec<Vec<u8>>) -> Option<(Vec<Vec<u8>>, Vec<Vec<u8>>)> {
    let mut alt: Vec<Vec<u8>> = vec![];
    let mut i = 0;
    while i < code.len() {
        let op = code[i];
        i += 1;
        match op {
            0x00..=0x4b => {
                stack.push(code[i..i + op as usize].to_vec());
                i += op as usize;
            }
            0x51..=0x60 => stack.push(vec![op - 0x50]),
            script::OP_VERIFY => {
                if number(&stack.pop()?) == 0 {
                    return None;
                }
            }
            script::OP_TOALTSTACK => alt.push(stack.pop()?),
            script::OP_FROMALTSTACK => stack.push(alt.pop()?),
            script::OP_2DUP => {
                let n = stack.len();
                stack.push(stack.get(n.checked_sub(2)?)?.clone());
                stack.push(stack[n - 1].clone());
            }
            script::OP_DEPTH => stack.push(minimal_le_bytes(stack.len() as u64)),
            script::OP_DUP => stack.push(stack.last()?.clone()),
            script::OP_ROLL => {
                let n = number(&stack.pop()?) as usize;
                let at = stack.len().checked_sub(n + 1)?;
                let x = stack.remove(at);
                stack.push(x);
            }
            script::OP_ROT => {
                let at = stack.len().checked_sub(3)?;
                let x = stack.remove(at);
                stack.push(x);
            }
            script::OP_SWAP => {
                let at = stack.len().checked_sub(2)?;
                let x = stack.remove(at);
                stack.push(x);
            }
            script::OP_CAT => {
                let y = stack.pop()?;
                let mut x = stack.pop()?;
                x.extend(y);
                stack.push(x);
            }
            script::OP_SIZE => stack.push(minimal_le_bytes(stack.last()?.len() as u64)),
            script::OP_AND => {
                let y = stack.pop()?;
                let x = stack.pop()?;
                if x.len() != y.len() {
                    return None;
                }
                stack.push(x.iter().zip(y).map(|(a, b)| a & b).collect());
            }
            script::OP_EQUALVERIFY => {
                if stack.pop()? != stack.pop()? {
                    return None;
                }
            }
            script::OP_1ADD => {
                let x = number(&stack.pop()?);
                stack.push(minimal_le_bytes(x + 1));
            }
            script::OP_1SUB => {
                let x = number(&stack.pop()?);
                stack.push(minimal_le_bytes(x.checked_sub(1)?));
            }
            script::OP_ADD => {
                let y = number(&stack.pop()?);
                let x = number(&stack.pop()?);
                stack.push(minimal_le_bytes(x + y));
            }
            script::OP_GREATERTHANOREQUAL => {
                let y = number(&stack.pop()?);
                let x = number(&stack.pop()?);
                stack.push(if x >= y { vec![1] } else { vec![] });
            }
            script::OP_SHA256 => {
                let x = stack.pop()?;
                stack.push(sha256(&x));
            }
            _ => return None,
        }
    }
    Some((stack, alt))
}

fn state(pc: usize, stack_hash: Vec<u8>) -> PlonkVerifierState {
    PlonkVerifierState { pc, stack_hash, stack: vec![] }
}

fn hash(pc: usize, stack_hash: &[u8]) -> Vec<u8> {
    PlonkVerifierProgram::get_hash(&state(pc, stack_hash.to_vec()))
}

#[test]
fn prefix_opens_both_states() {
    let prefix = PlonkVerifierProgram::get_common_prefix().bytes;
    let old = [5u8; 32];
    let new = [6u8; 32];
    let stack = |pc: Vec<u8>| {
        vec![
            pc,
            old.to_vec(),
            vec![44, 1],
            new.to_vec(),
            vec![0xee],
            hash(3, &old),
            hash(300, &new),
        ]
    };
    let (left, alt) = run(&prefix, stack(vec![3])).unwrap();
    assert_eq!(
        left,
        vec![vec![0xee], vec![3], old.to_vec(), vec![44, 1], new.to_vec()]
    );
    assert!(alt.is_empty());
    // A program counter that is not in its shortest form is brought into it.
    assert_eq!(run(&prefix, stack(vec![3, 0, 0])).unwrap().0, left);
    assert!(run(&prefix, stack(vec![4])).is_none());
    let mut short = stack(vec![3]);
    short[3].pop();
    assert!(run(&prefix, short).is_none());
}

/// A verifier that takes one hint and leaves it; a script that leaves the hash of one element.
fn covenant_code() -> Vec<u8> {
    let info = PlonkAllInformation {
        script: Script { bytes: vec![0x74, 0x8c, 0x7a] },
        witness: vec![vec![9]],
        output: vec![vec![9]],
    };
    let hash_drop = Script { bytes: vec![0xa8] };
    let mut code = PlonkVerifierProgram::get_common_prefix().bytes;
    code.extend(&PlonkVerifierProgram::get_all_scripts(&info, &hash_drop)[&0].bytes);
    code
}

#[test]
fn covenant_accepts_its_transition_only() {
    let code = covenant_code();
    let output_hash = sha256(&[9]);
    let stack = |old_pc: usize, old: &[u8], new_pc: usize, new: &[u8]| {
        vec![
            minimal_le_bytes(old_pc as u64),
            old.to_vec(),
            minimal_le_bytes(new_pc as u64),
            new.to_vec(),
            vec![9],
            hash(old_pc, old),
            hash(new_pc, new),
        ]
    };
    let zeros = [0u8; 32];
    assert_eq!(
        run(&code, stack(0, &zeros, 1, &output_hash)),
        Some((vec![vec![1]], vec![]))
    );
    assert!(run(&code, stack(1, &zeros, 1, &output_hash)).is_none());
    assert!(run(&code, stack(0, &[1; 32], 1, &output_hash)).is_none());
    assert!(run(&code, stack(0, &zeros, 2, &output_hash)).is_none());
    assert!(run(&code, stack(0, &zeros, 1, &[7; 32])).is_none());
    let mut forged = stack(0, &zeros, 1, &output_hash);
    forged[5] = hash(0, &[1; 32]);
    assert!(run(&code, forged).is_none());
    let mut two = stack(0, &zeros, 1, &output_hash);
    two.insert(4, vec![8]);
    assert!(run(&code, two).is_none());
}

#[test]
fn merged_scripts_take_their_hints_in_order() {
    // Each script takes a hint from the bottom and appends it to the top.
    let programs: Vec<CompiledProgram> = (1..=72u8)
        .map(|i| CompiledProgram {
            script: Script { bytes: vec![0x74, 0x8c, 0x7a, 0x7e] },
            hint: vec![bitcoin_circle_stark::constraint_system::Element::Str(vec![i])],
        })
        .collect();
    let info = compute_all_information(&programs, &vec![0; 32]);
    let mut stack = info.witness.clone();
    stack.push(vec![]);
    let (left, _) = run(&info.script.bytes, stack).unwrap();
    assert_eq!(left, vec![(1..=72u8).collect::<Vec<u8>>()]);
}

#[test]
fn channel_scripts() {
    let digest = vec![3u8; 32];
    let (left, _) = run(&draw_digest_gadget().bytes, vec![vec![1], digest.clone()]).unwrap();
    let mut message = digest.clone();
    message.push(0);
    assert_eq!(left, vec![vec![1], sha256(&digest), sha256(&message)]);

    let gadget = reconstruct_for_channel_draw_gadget().bytes;
    let (left, _) = run(&gadget, vec![vec![1, 2, 0, 0x80]]).unwrap();
    assert_eq!(left, vec![vec![1, 2, 0, 0x80], vec![1, 2]]);
    let (left, _) = run(&gadget, vec![vec![0xff; 4]]).unwrap();
    assert_eq!(left, vec![vec![0xff; 4], vec![0xff, 0xff, 0xff, 0x7f]]);
}

#[test]
fn scripts_of_inputs_and_states_push_them() {
    let input = bitcoin_circle_stark::dsl::plonk::covenant::PlonkVerifierInput {
        stack: vec![vec![1, 2]],
        hints: vec![vec![], vec![3]],
    };
    let (left, _) = run(&input.to_script().bytes, vec![]).unwrap();
    assert_eq!(left, vec![vec![1, 2], vec![], vec![3]]);
    let (left, _) = run(&state(1, vec![4; 32]).to_script().bytes, vec![]).unwrap();
    assert_eq!(left, vec![vec![1], vec![4; 32]]);
}

#[test]
fn merged_verifier_passes_on_its_input() {
    // Each script takes a hint from the bottom; all but the first append it to the top.
    let programs: Vec<CompiledProgram> = (1..=72u8)
        .map(|i| CompiledProgram {
            script: Script {
                bytes: if i == 1 { vec![0x74, 0x8c, 0x7a] } else { vec![0x74, 0x8c, 0x7a, 0x7e] },
            },
            hint: vec![bitcoin_circle_stark::constraint_system::Element::Num(i as i32)],
        })
        .collect();
    let output: Vec<u8> = (1..=72u8).collect();
    let info = compute_all_information(&programs, &output);
    let check = |info: &PlonkAllInformation, expected: &[Vec<u8>]| {
        let mut code = info.get_input().to_script().bytes;
        code.extend_from_slice(&info.script.bytes);
        for elem in expected.iter().rev() {
            code.push(elem.len() as u8);
            code.extend_from_slice(elem);
            code.push(script::OP_EQUALVERIFY);
        }
        code.push(script::OP_TRUE);
        run(&code, vec![])
    };
    assert_eq!(check(&info, &info.output), Some((vec![vec![1]], vec![])));
    assert_eq!(check(&info, &[vec![1]]), None);

    // The same verifier inside the covenant.
    let hash_drop = Script { bytes: vec![0xa8] };
    let code = PlonkVerifierProgram::get_all_scripts(&info, &hash_drop)[&0].bytes.clone();
    let stack = |new_stack_hash: Vec<u8>| {
        let mut stack = info.witness.clone();
        stack.extend([vec![], vec![0; 32], vec![1], new_stack_hash]);
        stack
    };
    assert_eq!(run(&code, stack(sha256(&output))), Some((vec![vec![1]], vec![])));
    assert_eq!(run(&code, stack(vec![0; 32])), None);
}
