use bitcoin_circle_stark::channel::{chunk_to_m31, Sha256Channel};
use bitcoin_circle_stark::constraint_system::{
    AllocationMode, ConstraintSystem, Element, Gadget, TraceEntry,
};
use bitcoin_circle_stark::dsl::primitives::channel::{
    draw_digest_gadget, draw_hints_to_str_vars, reconstruct_for_channel_draw_gadget,
    HashVarWithChannel, StrVarWithChannel,
};
use bitcoin_circle_stark::dsl::primitives::strings::{HashVar, StrVar};
use rand::{Rng, SeedableRng};
use rand_chacha::ChaCha20Rng;
use sha2::{Digest, Sha256};

fn sha256(data: &[u8]) -> Vec<u8> {
    Sha256::digest(data).to_vec()
}

fn init_state() -> Vec<u8> {
    let mut prng = ChaCha20Rng::seed_from_u64(0);
    let mut init_state = [0u8; 32];
    init_state.iter_mut().for_each(|v| *v = prng.gen());
    init_state.to_vec()
}

fn drawn(digest: &[u8]) -> Vec<u8> {
    let mut message = digest.to_vec();
    message.push(0);
    sha256(&message)
}

fn elements(drawn: &[u8], n: usize) -> Vec<u32> {
    drawn
        .chunks(4)
        .take(n)
        .map(|c| u32::from_le_bytes([c[0], c[1], c[2], c[3]]) & 0x7fff_ffff)
        .collect()
}

fn number_at(cs: &ConstraintSystem, variable: usize) -> i32 {
    match &cs.memory[variable] {
        Element::Num(v) => *v,
        Element::Str(_) => panic!("a string"),
    }
}

fn string_at(cs: &ConstraintSystem, variable: usize) -> Vec<u8> {
    match &cs.memory[variable] {
        Element::Num(_) => panic!("a number"),
        Element::Str(v) => v.clone(),
    }
}

#[test]
fn test_draw_felt() {
    let init_state = init_state();
    let b = elements(&drawn(&init_state), 4);
    let c = sha256(&init_state);

    let mut cs = ConstraintSystem::new();
    let mut channel_digest = HashVar::new_constant(&mut cs, init_state);
    let res = channel_digest.draw_felt(&mut cs);

    assert_eq!(channel_digest.value, c);
    assert_eq!(string_at(&cs, channel_digest.variable), c);
    assert_eq!(res.first.real.value, b[0]);
    assert_eq!(res.first.imag.value, b[1]);
    assert_eq!(res.second.real.value, b[2]);
    assert_eq!(res.second.imag.value, b[3]);
    for (var, value) in [
        (res.first.real, b[0]),
        (res.first.imag, b[1]),
        (res.second.real, b[2]),
        (res.second.imag, b[3]),
    ] {
        assert_eq!(number_at(&cs, var.variable), value as i32);
    }
    // One constant, two digests, five hints, two outputs for each chunk, four concatenations.
    assert_eq!(cs.memory.len(), 1 + 2 + 5 + 8 + 4);
}

#[test]
fn test_draw_numbers() {
    let init_state = init_state();
    let numbers: Vec<u32> = elements(&drawn(&init_state), 8)
        .into_iter()
        .map(|v| v % (1 << 12))
        .collect();
    let digest = sha256(&init_state);

    let mut cs = ConstraintSystem::new();
    let mut channel_digest = HashVar::new_constant(&mut cs, init_state);
    let res = channel_digest.draw_numbers(8, 12, &mut cs);

    assert_eq!(channel_digest.value, digest);
    let values: Vec<u32> = res.iter().map(|v| v.value).collect();
    assert_eq!(values, numbers);
    for v in &res {
        assert_eq!(number_at(&cs, v.variable), v.value as i32);
    }
}

#[test]
fn draws_eight_at_a_time() {
    let first = init_state();
    let second = sha256(&first);
    let third = sha256(&second);
    let mut expected = elements(&drawn(&first), 8);
    expected.extend(elements(&drawn(&second), 8));
    expected.extend(elements(&drawn(&third), 4));

    let mut cs = ConstraintSystem::new();
    let mut digest = HashVar::new_constant(&mut cs, first);
    let res = digest.draw_many_m31(20, &mut cs);
    let values: Vec<u32> = res.iter().map(|v| v.value).collect();
    assert_eq!(values, expected);
    assert_eq!(digest.value, sha256(&third));
}

#[test]
fn drawing_nothing_changes_nothing() {
    let mut cs = ConstraintSystem::new();
    let mut digest = HashVar::new_constant(&mut cs, init_state());
    let res = digest.draw_many_m31(0, &mut cs);
    assert_eq!(res.len(), 0);
    assert_eq!(digest.value, init_state());
    assert_eq!(digest.variable, 0);
    assert_eq!(cs.memory.len(), 1);
}

#[test]
fn draws_a_digest() {
    let mut cs = ConstraintSystem::new();
    let mut digest = HashVar::new_constant(&mut cs, vec![7u8; 32]);
    let res = digest.draw_digest(&mut cs);
    assert_eq!(digest.value, sha256(&[7u8; 32]));
    assert_eq!(digest.variable, 1);
    let mut message = vec![7u8; 32];
    message.push(0);
    assert_eq!(res.value, sha256(&message));
    assert_eq!(res.variable, 2);
    match &cs.trace[1] {
        TraceEntry::Script { gadget, inputs, first_output } => {
            assert_eq!(*gadget, Gadget::DrawDigest);
            assert_eq!(inputs, &vec![0usize]);
            assert_eq!(*first_output, 1);
        }
        TraceEntry::Alloc { .. } => panic!("no script"),
    }
}

#[test]
fn unpacks_with_a_rest() {
    let data: Vec<u8> = (0u8..32).collect();
    let mut cs = ConstraintSystem::new();
    let digest = HashVar::new_constant(&mut cs, data.clone());
    let hints: Vec<StrVar> = [&data[0..4], &data[4..8], &data[8..32]]
        .iter()
        .map(|s| StrVar::new_variable(&mut cs, s.to_vec(), AllocationMode::Hint))
        .collect();
    let res = digest.unpack_multi_m31(2, &hints, &mut cs);
    assert_eq!(res.len(), 2);
    assert_eq!(res[0].value, 0x0302_0100);
    assert_eq!(res[1].value, 0x0706_0504);
    let checks = cs
        .trace
        .iter()
        .filter(|e| {
            matches!(e, TraceEntry::Script { gadget: Gadget::StrEqualVerify, .. })
        })
        .count();
    assert_eq!(checks, 1);
}

#[test]
fn unpacks_a_whole_digest() {
    let data: Vec<u8> = (0u8..32).map(|b| 255 - b).collect();
    let mut cs = ConstraintSystem::new();
    let digest = HashVar::new_constant(&mut cs, data.clone());
    let hints: Vec<StrVar> = data
        .chunks(4)
        .map(|s| StrVar::new_variable(&mut cs, s.to_vec(), AllocationMode::Hint))
        .collect();
    let res = digest.unpack_multi_m31(8, &hints, &mut cs);
    let values: Vec<u32> = res.iter().map(|v| v.value).collect();
    assert_eq!(values, elements(&data, 8));
}

#[test]
fn reads_chunks() {
    assert_eq!(chunk_to_m31(&[]), 0);
    assert_eq!(chunk_to_m31(&[5]), 5);
    assert_eq!(chunk_to_m31(&[1, 2, 3]), 0x030201);
    assert_eq!(chunk_to_m31(&[0, 0, 0, 0x80]), 0);
    assert_eq!(chunk_to_m31(&[0xff; 4]), 0x7fff_ffff);

    let mut cs = ConstraintSystem::new();
    let chunk = StrVar::new_variable(&mut cs, vec![1, 2, 3, 0xff], AllocationMode::Hint);
    let (element, again) = chunk.reconstruct_for_channel_draw(&mut cs);
    assert_eq!(element.value, 0x7f03_0201);
    assert_eq!(again.value, vec![1, 2, 3, 0xff]);
    assert_eq!(again.variable, 1);
    assert_eq!(element.variable, 2);
}

#[test]
fn plain_channel_draws_with_hints() {
    let mut channel = Sha256Channel::new(init_state());
    let (values, hints) = channel.draw_m31_and_hints(3);
    let source = drawn(&init_state());
    assert_eq!(channel.digest, sha256(&init_state()));
    assert_eq!(values, elements(&source, 3));
    assert_eq!(
        hints.0,
        vec![source[0..4].to_vec(), source[4..8].to_vec(), source[8..12].to_vec()]
    );
    assert_eq!(hints.1, source[12..].to_vec());

    let (values, hints) = Sha256Channel::new(init_state()).draw_m31_and_hints(8);
    assert_eq!(values, elements(&source, 8));
    assert_eq!(hints.0.len(), 8);
    assert!(hints.1.is_empty());

    let mut cs = ConstraintSystem::new();
    let vars = draw_hints_to_str_vars(&mut cs, hints);
    assert_eq!(vars.len(), 8);
    let (_, hints) = Sha256Channel::new(init_state()).draw_m31_and_hints(7);
    let vars = draw_hints_to_str_vars(&mut cs, hints);
    assert_eq!(vars.len(), 8);
    assert_eq!(vars[7].value, source[28..].to_vec());
}

#[test]
fn gadget_scripts() {
    assert_eq!(
        draw_digest_gadget().bytes,
        vec![0x76, 0xa8, 0x7c, 0x01, 0x00, 0x7e, 0xa8]
    );
    assert_eq!(
        reconstruct_for_channel_draw_gadget().bytes,
        vec![0x76, 0x04, 0xff, 0xff, 0xff, 0x7f, 0x84, 0x00, 0x93]
    );
}
