use bitcoin_circle_stark::constraint_system::{
    AllocationMode, ConstraintSystem, Element, Gadget, TraceEntry,
};
use bitcoin_circle_stark::dsl::primitives::channel::HashVarWithChannel;
use bitcoin_circle_stark::dsl::primitives::cm31::CM31Var;
use bitcoin_circle_stark::dsl::primitives::strings::HashVar;
use bitcoin_circle_stark::fields::cm31::CM31;
use bitcoin_circle_stark::fields::m31::{add_m31, mul_m31, neg_m31, sub_m31};
use sha2::{Digest, Sha256};

fn number(e: &Element) -> Option<u32> {
    match e {
        Element::Num(v) => Some(*v as u32),
        Element::Str(_) => None,
    }
}

fn string(e: &Element) -> Option<Vec<u8>> {
    match e {
        Element::Num(_) => None,
        Element::Str(v) => Some(v.clone()),
    }
}

fn same(a: &Element, b: &Element) -> bool {
    number(a) == number(b) && string(a) == string(b)
}

/// What a gadget leaves on some elements, or `None` where it fails.
fn outputs(gadget: Gadget, ins: &[Element]) -> Option<Vec<Element>> {
    let num = |v: u32| Element::Num(v as i32);
    let sha = |data: &[u8]| Element::Str(Sha256::digest(data).to_vec());
    Some(match gadget {
        Gadget::Copy => vec![ins[0].clone()],
        Gadget::M31Add => vec![num(add_m31(number(&ins[0])?, number(&ins[1])?))],
        Gadget::M31Sub => vec![num(sub_m31(number(&ins[0])?, number(&ins[1])?))],
        Gadget::M31Mul => vec![num(mul_m31(number(&ins[0])?, number(&ins[1])?))],
        Gadget::M31Neg => vec![num(neg_m31(number(&ins[0])?))],
        Gadget::M31IsOne if number(&ins[0])? == 1 => vec![],
        Gadget::M31IsZero if number(&ins[0])? == 0 => vec![],
        Gadget::M31Trim(logn) => vec![num(number(&ins[0])? % (1 << logn))],
        Gadget::StrCat => {
            let mut s = string(&ins[0])?;
            s.extend(string(&ins[1])?);
            vec![Element::Str(s)]
        }
        Gadget::StrEqualVerify if string(&ins[0])? == string(&ins[1])? => vec![],
        Gadget::StrLenLessThanOrEqual(n) if string(&ins[0])?.len() <= n => vec![],
        Gadget::DrawDigest => {
            let digest = string(&ins[0])?;
            let mut message = digest.clone();
            message.push(0);
            vec![sha(&digest), sha(&message)]
        }
        Gadget::ReconstructForChannelDraw => {
            let chunk = string(&ins[0])?;
            let mut padded = [0u8; 4];
            padded[..chunk.len()].copy_from_slice(&chunk);
            let value = u32::from_le_bytes(padded) & 0x7fff_ffff;
            vec![ins[0].clone(), num(value)]
        }
        _ => return None,
    })
}

/// Whether an assignment meets every entry of the record.
fn is_met(cs: &ConstraintSystem, assignment: &[Element]) -> bool {
    cs.trace.iter().all(|entry| match entry {
        TraceEntry::Alloc { mode, variable } => {
            *mode != AllocationMode::Constant || same(&assignment[*variable], &cs.memory[*variable])
        }
        TraceEntry::Script { gadget, inputs, first_output } => {
            let ins: Vec<Element> = inputs.iter().map(|v| assignment[*v].clone()).collect();
            match outputs(*gadget, &ins) {
                None => false,
                Some(outs) => outs
                    .iter()
                    .enumerate()
                    .all(|(i, out)| same(out, &assignment[first_output + i])),
            }
        }
    })
}

#[test]
fn recorded_values_meet_the_record() {
    let mut cs = ConstraintSystem::new();
    let mut digest = HashVar::new_constant(&mut cs, vec![1u8; 32]);
    let numbers = digest.draw_numbers(11, 12, &mut cs);
    assert_eq!(numbers.len(), 11);
    let felt = digest.draw_felt(&mut cs);
    let inverse = felt.first.inverse_without_table(&mut cs);
    let sum = inverse.add(&felt.second, &mut cs);
    let difference = sum.sub(&felt.first, &mut cs);
    let shifted = difference.neg(&mut cs).shift_by_i(&mut cs);
    assert_eq!(shifted.variables().len(), 2);
    assert!(is_met(&cs, &cs.memory));
}

#[test]
fn a_wrong_inverse_is_refused() {
    let mut cs = ConstraintSystem::new();
    let x = CM31Var::new_constant(&mut cs, CM31(3, 4));
    let inverse = x.inverse_without_table(&mut cs);
    for variable in inverse.variables() {
        let mut forged = cs.memory.clone();
        forged[variable] = Element::Num(number(&forged[variable]).unwrap() as i32 ^ 1);
        assert!(!is_met(&cs, &forged));
    }
}

#[test]
fn a_wrong_chunk_is_refused() {
    let mut cs = ConstraintSystem::new();
    let mut digest = HashVar::new_constant(&mut cs, vec![1u8; 32]);
    digest.draw_many_m31(8, &mut cs);
    let hints: Vec<usize> = cs
        .trace
        .iter()
        .filter_map(|e| match e {
            TraceEntry::Alloc { mode: AllocationMode::Hint, variable } => Some(*variable),
            _ => None,
        })
        .collect();
    assert_eq!(hints.len(), 8);
    for variable in hints {
        let mut chunk = string(&cs.memory[variable]).unwrap();
        chunk[2] ^= 1;
        let mut forged = cs.memory.clone();
        forged[variable] = Element::Str(chunk);
        assert!(!is_met(&cs, &forged));
    }
}

#[test]
fn a_grown_record_keeps_its_start() {
    let mut cs = ConstraintSystem::new();
    let x = CM31Var::new_constant(&mut cs, CM31(3, 4));
    let y = x.mul(&x, &mut cs);
    let earlier = cs.clone();
    y.add(&x, &mut cs);
    assert!(cs.memory.len() > earlier.memory.len());
    assert!(is_met(&earlier, &cs.memory[..earlier.memory.len()]));
}
