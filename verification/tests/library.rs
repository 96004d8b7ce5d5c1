use distaff::constraint_poly::ConstraintPoly;
use distaff::field;
use distaff::field64;
use distaff::hash;
use distaff::inputs::ProgramInputs;
use distaff::opcodes;
use distaff::polynom;
use distaff::stack;
use distaff::utils::CompositionCoefficients;

#[test]
fn field_arithmetic() {
    assert_eq!(0, field::add(field::M - 1, 1));
    assert_eq!(field::M - 2, field::sub(3, 5));
    assert_eq!(6, field::mul(2, 3));
    assert_eq!(1024, field::exp(2, 10));
    assert_eq!(0, field::add(field::neg(5), 5));
    // the inverse produced by exponentiation really inverts
    assert_eq!(1, field::mul(field::inv(7), 7));
    assert_eq!(1, field::mul(field::inv(field::M - 3), field::M - 3));
}

#[test]
fn field64_arithmetic() {
    assert_eq!(0, field64::add(field64::K - 1, 1));
    assert_eq!(6, field64::mul(2, 3));
    assert_eq!(field64::K - 2, field64::sub(3, 5));
}

#[test]
fn sponge_round_is_deterministic() {
    let mut state_a: [u128; 6] = [1, 2, 3, 4, 5, 6];
    let mut state_b: [u128; 6] = [1, 2, 3, 4, 5, 6];
    hash::apply_round(&mut state_a, 7);
    hash::apply_round(&mut state_b, 7);
    assert_eq!(state_a, state_b);

    // a different cycle injects different constants
    let mut state_c: [u128; 6] = [1, 2, 3, 4, 5, 6];
    hash::apply_round(&mut state_c, 8);
    assert_ne!(state_a, state_c);
}

#[test]
fn synthetic_division_round_trip() {
    // divide p - p(z) by (x - z), multiply back, re-add p(z): p returns
    let original: Vec<u64> = vec![5, 12, 7, 99, 3, 0, 1, 42];
    let z: u64 = 11;
    let pz = polynom::eval(&original, z);

    let mut quotient = original.clone();
    quotient[0] = field64::sub(quotient[0], pz);
    polynom::syn_div_in_place(&mut quotient, z);

    let mut rebuilt: Vec<u64> = Vec::with_capacity(original.len());
    for i in 0..original.len() {
        let shifted = if i == 0 { 0 } else { quotient[i - 1] };
        let coeff = field64::sub(shifted, field64::mul(z, quotient[i]));
        rebuilt.push(coeff);
    }
    rebuilt[0] = field64::add(rebuilt[0], pz);
    assert_eq!(original, rebuilt);
}

#[test]
fn polynom_eval_and_degree() {
    let p: Vec<u64> = vec![1, 2, 3];
    // 1 + 2*4 + 3*16 = 57
    assert_eq!(57, polynom::eval(&p, 4));
    assert_eq!(2, polynom::degree_of(&p));
    let q: Vec<u64> = vec![9, 0, 0, 0];
    assert_eq!(0, polynom::degree_of(&q));
}

#[test]
fn constraint_poly_basics() {
    let coefficients: Vec<u64> = vec![1, 2, 3, 4, 5, 6, 7, 8];
    let poly = ConstraintPoly::new(coefficients.clone());
    assert_eq!(7, poly.degree());
    assert_eq!(polynom::eval(&coefficients, 3), poly.eval_at(3));

    // evaluation over the domain generated by the twiddle base
    let twiddles: Vec<u64> = vec![1, 2, 4, 8, 16, 32, 64, 128];
    let evaluations = poly.eval(&twiddles);
    assert_eq!(16, evaluations.len());
    assert_eq!(polynom::eval(&coefficients, 1), evaluations[0]);
    assert_eq!(polynom::eval(&coefficients, 8), evaluations[3]);
}

#[test]
fn constraint_poly_merge_into() {
    let coefficients: Vec<u64> = vec![1, 2, 3, 4, 5, 6, 7, 8];
    let z: u64 = 3;
    let expected_value = polynom::eval(&coefficients, z);

    let poly = ConstraintPoly::new(coefficients.clone());
    let mut result: Vec<u64> = vec![0; 8];
    let cc = CompositionCoefficients { constraints: 1 };
    let z_value = poly.merge_into(&mut result, z, &cc);
    assert_eq!(expected_value, z_value);

    // multiplying the merged quotient back by (x - z) and re-adding the
    // value at z restores the original coefficients
    let mut rebuilt: Vec<u64> = Vec::with_capacity(8);
    for i in 0..8 {
        let shifted = if i == 0 { 0 } else { result[i - 1] };
        rebuilt.push(field64::sub(shifted, field64::mul(z, result[i])));
    }
    rebuilt[0] = field64::add(rebuilt[0], expected_value);
    assert_eq!(coefficients, rebuilt);
}

#[test]
fn execute_small_program() {
    let mut program: Vec<u128> = vec![opcodes::NOOP; 16];
    program[0] = opcodes::BEGIN;
    program[1] = opcodes::ADD;
    let inputs = ProgramInputs::new(vec![1, 2], vec![], vec![]);

    let registers = stack::execute(&program, &inputs, 2);

    // two auxiliary columns plus one column per occupied stack slot
    assert_eq!(4, registers.len());
    for column in registers.iter() {
        assert_eq!(16, column.len());
    }
    // public inputs seed row 0, BEGIN repeats it, ADD folds 1 + 2
    assert_eq!(1, registers[2][0]);
    assert_eq!(2, registers[3][0]);
    assert_eq!(1, registers[2][1]);
    assert_eq!(3, registers[2][2]);
    assert_eq!(0, registers[3][2]);
    // the sum rides to the end of the trace
    assert_eq!(3, registers[2][15]);
}

#[test]
fn execute_push_program() {
    let mut program: Vec<u128> = vec![opcodes::NOOP; 16];
    program[0] = opcodes::BEGIN;
    program[1] = opcodes::PUSH;
    program[2] = 11;
    program[3] = opcodes::DUP;
    program[4] = opcodes::MUL;
    let inputs = ProgramInputs::new(vec![], vec![], vec![]);

    let registers = stack::execute(&program, &inputs, 2);

    assert_eq!(4, registers.len());
    // PUSH writes its immediate, DUP repeats it, MUL squares it
    assert_eq!(11, registers[2][2]);
    assert_eq!(11, registers[2][3]);
    assert_eq!(11, registers[2][4]);
    assert_eq!(11, registers[3][4]);
    assert_eq!(121, registers[2][5]);
    assert_eq!(121, registers[2][15]);
}
