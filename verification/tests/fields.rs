use bitcoin_circle_stark::constraint_system::{AllocationMode, ConstraintSystem, Element};
use bitcoin_circle_stark::dsl::primitives::cm31::CM31Var;
use bitcoin_circle_stark::dsl::primitives::m31::{trim_m31, M31Var};
use bitcoin_circle_stark::dsl::primitives::table::TableVar;
use bitcoin_circle_stark::fields::cm31::CM31;
use bitcoin_circle_stark::fields::m31::{add_m31, mul_m31, neg_m31, sub_m31, P};
use rand::{Rng, SeedableRng};
use rand_chacha::ChaCha20Rng;

fn rand_cm31(prng: &mut ChaCha20Rng) -> CM31 {
    CM31(prng.gen::<u32>() % P, prng.gen::<u32>() % P)
}

fn assert_number(cs: &ConstraintSystem, variable: usize, value: u32) {
    match &cs.memory[variable] {
        Element::Num(v) => assert_eq!(*v, value as i32),
        Element::Str(_) => panic!("a string"),
    }
}

#[test]
fn cm31_inverse() {
    let mut prng = ChaCha20Rng::seed_from_u64(0);
    let a_val = rand_cm31(&mut prng);

    let mut cs = ConstraintSystem::new();
    let a = CM31Var::new_constant(&mut cs, a_val);
    let table = TableVar {};

    let a_inv = a.inverse(&table, &mut cs);
    let res = a.mul_with_table((&table, &a_inv), &mut cs);

    assert_eq!(res.value(), CM31(1, 0));
    assert_number(&cs, res.imag.variable, 0);
    assert_number(&cs, res.real.variable, 1);
}

#[test]
fn cm31_inverse_without_table() {
    let mut prng = ChaCha20Rng::seed_from_u64(0);
    let a_val = rand_cm31(&mut prng);

    let mut cs = ConstraintSystem::new();
    let a = CM31Var::new_constant(&mut cs, a_val);

    let a_inv = a.inverse_without_table(&mut cs);
    let res = a.mul(&a_inv, &mut cs);

    assert_eq!(res.value(), CM31(1, 0));
    assert_number(&cs, res.imag.variable, 0);
    assert_number(&cs, res.real.variable, 1);
}

#[test]
fn inverts_known_elements() {
    let mut cs = ConstraintSystem::new();
    // The inverse of i is -i, that of 2 is 2^30.
    let i = CM31Var::new_constant(&mut cs, CM31(0, 1));
    assert_eq!(i.inverse_without_table(&mut cs).value(), CM31(0, P - 1));
    let two = CM31Var::new_constant(&mut cs, CM31(2, 0));
    assert_eq!(two.inverse_without_table(&mut cs).value(), CM31(1 << 30, 0));
    // The modulus is a second name of zero.
    let other = CM31Var::new_constant(&mut cs, CM31(P, 1));
    assert_eq!(other.inverse_without_table(&mut cs).value(), CM31(0, P - 1));
}

#[test]
fn base_field_operations() {
    assert_eq!(add_m31(P - 1, 1), 0);
    assert_eq!(add_m31(P - 1, 5), 4);
    assert_eq!(add_m31(2, 3), 5);
    assert_eq!(sub_m31(2, 3), P - 1);
    assert_eq!(sub_m31(3, 3), 0);
    assert_eq!(neg_m31(1), P - 1);
    assert_eq!(neg_m31(0), 0);
    assert_eq!(mul_m31(1 << 30, 2), 1);
    assert_eq!(mul_m31(P - 1, P - 1), 1);
    assert_eq!(mul_m31(P, 12345), 0);
    assert_eq!(trim_m31(0x1fff, 12), 0xfff);
    assert_eq!(trim_m31(0x7fff_ffff, 31), 0x7fff_ffff);
    assert_eq!(trim_m31(77, 0), 0);
}

#[test]
fn subtraction_undoes_addition() {
    for (a, b) in [(5, 7), (P - 1, P - 1), (0, 1), (123_456_789, 2_000_000_000)] {
        assert_eq!(sub_m31(add_m31(a, b), b), a);
        assert_eq!(add_m31(a, neg_m31(a)), 0);
    }
}

#[test]
fn complex_operations() {
    let mut cs = ConstraintSystem::new();
    let x = CM31Var::new_constant(&mut cs, CM31(3, 4));
    let y = CM31Var::new_constant(&mut cs, CM31(5, 6));
    let k = M31Var::new_variable(&mut cs, 10, AllocationMode::Constant);
    let table = TableVar {};
    assert_eq!(x.add(&y, &mut cs).value(), CM31(8, 10));
    assert_eq!(x.sub(&y, &mut cs).value(), CM31(P - 2, P - 2));
    // (3 + 4i)(5 + 6i) = -9 + 38i
    assert_eq!(x.mul(&y, &mut cs).value(), CM31(P - 9, 38));
    assert_eq!(y.mul(&x, &mut cs).value(), CM31(P - 9, 38));
    assert_eq!(x.neg(&mut cs).value(), CM31(P - 3, P - 4));
    assert_eq!(x.add_m31(&k, &mut cs).value(), CM31(13, 4));
    assert_eq!(x.sub_m31(&k, &mut cs).value(), CM31(P - 7, 4));
    assert_eq!(
        x.mul_m31_with_table((&table, &k), &mut cs).value(),
        CM31(30, 40)
    );
    assert_eq!(x.shift_by_i(&mut cs).value(), CM31(P - 4, 3));
    assert_eq!(x.variables(), vec![0, 1]);
    assert_eq!(CM31Var::length(), 2);
}

#[test]
fn shifting_is_multiplying_by_i() {
    let mut cs = ConstraintSystem::new();
    let x = CM31Var::new_constant(&mut cs, CM31(1234, 5678));
    let i = CM31Var::new_constant(&mut cs, CM31(0, 1));
    assert_eq!(x.shift_by_i(&mut cs).value(), x.mul(&i, &mut cs).value());
}

#[test]
fn checks_one_and_zero() {
    let mut cs = ConstraintSystem::new();
    let one = CM31Var::new_constant(&mut cs, CM31(1, 0));
    let zero = CM31Var::new_constant(&mut cs, CM31(0, 0));
    let before = cs.trace.len();
    one.is_one(&mut cs);
    zero.is_zero(&mut cs);
    assert_eq!(cs.trace.len(), before + 4);
    assert_eq!(cs.memory.len(), 4);
}

#[test]
fn allocates_in_every_mode() {
    for mode in [
        AllocationMode::Constant,
        AllocationMode::FunctionOutput,
        AllocationMode::Hint,
    ] {
        let mut cs = ConstraintSystem::new();
        let x = CM31Var::new_variable(&mut cs, CM31(3, 4), mode);
        assert_eq!(x.value(), CM31(3, 4));
        assert_eq!(x.variables(), vec![0, 1]);
        assert_eq!(x.variables().len(), CM31Var::length());
        assert_number(&cs, x.imag.variable, 4);
        assert_number(&cs, x.real.variable, 3);
        let y = M31Var::new_variable(&mut cs, 5, mode);
        assert_eq!(y.variable, 2);
        assert_number(&cs, y.variable, 5);
    }
}
