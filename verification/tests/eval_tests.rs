use raster_vm::eval::Arith;
use raster_vm::program::{Instruction, Op, Program};
use raster_vm::raster::pixel;

fn unit(request: Arith) -> u64 {
    let f = f64::from_bits;
    match request {
        Arith::Neg(a) => (-f(a)).to_bits(),
        Arith::Sqrt(a) => f(a).sqrt().to_bits(),
        Arith::Add(a, b) => (f(a) + f(b)).to_bits(),
        Arith::Sub(a, b) => (f(a) - f(b)).to_bits(),
        Arith::Mul(a, b) => (f(a) * f(b)).to_bits(),
        Arith::Max(a, b) => f(a).max(f(b)).to_bits(),
        Arith::Min(a, b) => f(a).min(f(b)).to_bits(),
    }
}

fn decode(token: Vec<u8>) -> u64 {
    std::str::from_utf8(&token).unwrap().parse::<f64>().unwrap().to_bits()
}

fn program(ops: &[Op]) -> Program {
    let instrs = ops.iter().enumerate().map(|(i, op)| Instruction { out: i, op: *op }).collect();
    Program::new(instrs).unwrap()
}

fn run(p: &Program, x: f64, y: f64) -> f64 {
    f64::from_bits(p.execute(x.to_bits(), y.to_bits(), &unit))
}

fn samples() -> Vec<f64> {
    vec![-1.0, -0.75, -0.5, -0.001953125, -0.0, 0.0, 0.001953125, 0.25, 0.5, 0.998046875, 1.0]
}

#[test]
fn a_constant_program_returns_its_constant() {
    let constants = [0.0, -0.0, 1.0, -2.5, 0.1, 1e300, -1e-300, f64::INFINITY, f64::MIN_POSITIVE];
    for c in constants {
        let p = program(&[Op::Const(c.to_bits())]);
        for x in samples() {
            for y in samples() {
                assert_eq!(p.execute(x.to_bits(), y.to_bits(), &unit), c.to_bits());
            }
        }
    }
    let nan = program(&[Op::Const(f64::NAN.to_bits())]);
    assert_eq!(nan.execute(0, 0, &unit), f64::NAN.to_bits());
}

#[test]
fn a_constant_after_other_work_is_still_returned() {
    let p = program(&[Op::VarX, Op::Sqrt(0), Op::Const(3.5f64.to_bits())]);
    assert_eq!(run(&p, -1.0, 0.0), 3.5);
}

#[test]
fn var_x_returns_x_and_var_y_returns_y() {
    let px = program(&[Op::VarX]);
    let py = program(&[Op::VarY]);
    for x in samples() {
        for y in samples() {
            assert_eq!(px.execute(x.to_bits(), y.to_bits(), &unit), x.to_bits());
            assert_eq!(py.execute(x.to_bits(), y.to_bits(), &unit), y.to_bits());
        }
    }
}

#[test]
fn square_equals_mul_bit_for_bit() {
    let square = program(&[Op::VarX, Op::Square(0)]);
    let mul = program(&[Op::VarX, Op::Mul(0, 0)]);
    let values = [0.0, -0.0, 1.0, -1.0, 0.1, -0.3, 1.5, 1e-200, 1e200, 3.0e-162, 0.7071067811865476,
        f64::MAX, f64::MIN_POSITIVE, 5e-324, f64::INFINITY, f64::NEG_INFINITY];
    for v in values {
        let a = square.execute(v.to_bits(), 0, &unit);
        let b = mul.execute(v.to_bits(), 0, &unit);
        assert_eq!(a, b, "{}", v);
        assert_eq!(a, v.powi(2).to_bits(), "{}", v);
    }
}

#[test]
fn each_operation_on_given_values() {
    let binary = |op: Op, x: f64, y: f64| run(&program(&[Op::VarX, Op::VarY, op]), x, y);
    assert_eq!(binary(Op::Add(0, 1), 0.5, 0.25), 0.75);
    assert_eq!(binary(Op::Sub(0, 1), 0.5, 0.25), 0.25);
    assert_eq!(binary(Op::Sub(1, 0), 0.5, 0.25), -0.25);
    assert_eq!(binary(Op::Mul(0, 1), 0.5, 0.25), 0.125);
    assert_eq!(binary(Op::Max(0, 1), 0.5, 0.25), 0.5);
    assert_eq!(binary(Op::Min(0, 1), 0.5, 0.25), 0.25);
    assert_eq!(binary(Op::Neg(0), 0.5, 0.25), -0.5);
    assert_eq!(binary(Op::Neg(1), 0.5, 0.25), -0.25);
    assert_eq!(binary(Op::Sqrt(1), 0.5, 0.25), 0.5);
    assert_eq!(binary(Op::Square(0), 0.5, 0.25), 0.25);
    assert_eq!(binary(Op::Add(0, 1), 0.1, 0.2), 0.1 + 0.2);
}

#[test]
fn the_result_is_the_last_slot() {
    let p = program(&[Op::VarX, Op::VarY, Op::Add(0, 1), Op::Mul(2, 2), Op::Neg(3)]);
    assert_eq!(run(&p, 1.0, 2.0), -9.0);
    let q = program(&[Op::VarX, Op::VarY, Op::Add(0, 1), Op::Mul(2, 2), Op::Neg(3), Op::VarY]);
    assert_eq!(run(&q, 1.0, 2.0), 2.0);
}

#[test]
fn slots_are_positions_whatever_the_labels_say() {
    let instrs = vec![
        Instruction { out: 7, op: Op::VarX },
        Instruction { out: 7, op: Op::VarY },
        Instruction { out: 0, op: Op::Sub(0, 1) },
    ];
    let p = Program::new(instrs).unwrap();
    assert_eq!(run(&p, 0.75, 0.25), 0.5);
}

#[test]
fn the_evaluator_asks_the_unit_what_the_program_says() {
    let echo = |request: Arith| match request {
        Arith::Neg(a) => 1000 + a,
        Arith::Sqrt(a) => 2000 + a,
        Arith::Add(a, b) => 3000 + 10 * a + b,
        Arith::Sub(a, b) => 4000 + 10 * a + b,
        Arith::Mul(a, b) => 5000 + 10 * a + b,
        Arith::Max(a, b) => 6000 + 10 * a + b,
        Arith::Min(a, b) => 7000 + 10 * a + b,
    };
    let one = |op: Op| program(&[Op::VarX, Op::VarY, op]).execute(3, 4, &echo);
    assert_eq!(one(Op::Neg(1)), 1004);
    assert_eq!(one(Op::Sqrt(0)), 2003);
    assert_eq!(one(Op::Add(0, 1)), 3034);
    assert_eq!(one(Op::Sub(1, 0)), 4043);
    assert_eq!(one(Op::Mul(0, 1)), 5034);
    assert_eq!(one(Op::Max(1, 1)), 6044);
    assert_eq!(one(Op::Min(0, 0)), 7033);
    assert_eq!(one(Op::Square(1)), 5044);
    assert_eq!(one(Op::Const(9)), 9);
}

#[test]
fn max_and_min_commute_and_bound() {
    let max = program(&[Op::VarX, Op::VarY, Op::Max(0, 1)]);
    let min = program(&[Op::VarX, Op::VarY, Op::Min(0, 1)]);
    let values = [f64::NEG_INFINITY, -1e300, -1.0, -0.5, -0.0, 0.0, 5e-324, 0.5, 1.0, 1e300,
        f64::INFINITY];
    for a in values {
        for b in values {
            let hi = run(&max, a, b);
            let lo = run(&min, a, b);
            assert_eq!(hi, run(&max, b, a));
            assert_eq!(lo, run(&min, b, a));
            assert!(hi >= a && hi >= b);
            assert!(lo <= a && lo <= b);
        }
    }
}

#[test]
fn sqrt_of_a_negative_is_painted_as_outside() {
    let p = program(&[Op::VarX, Op::Sqrt(0)]);
    for x in [-1.0, -0.5, -1e-300] {
        let v = p.execute(f64::to_bits(x), 0, &unit);
        assert!(f64::from_bits(v).is_nan());
        assert_eq!(pixel(v), 255);
    }
    let through = program(&[Op::VarX, Op::Sqrt(0), Op::Const(1f64.to_bits()), Op::Add(1, 2), Op::Neg(3)]);
    let v = through.execute(f64::to_bits(-0.25), 0, &unit);
    assert!(f64::from_bits(v).is_nan());
    assert_eq!(pixel(v), 255);
    assert_eq!(pixel(p.execute(f64::to_bits(0.25), 0, &unit)), 0);
}

#[test]
fn sign_of_x_end_to_end() {
    let text = "header\n0 var-x\n1 var-y\n2 const 0.0\n3 sub 0 2";
    let p = Program::parse(text, &decode).unwrap();
    for y in samples() {
        let inside = p.execute(0.5f64.to_bits(), y.to_bits(), &unit);
        assert_eq!(f64::from_bits(inside), 0.5);
        assert_eq!(pixel(inside), 0);
        let outside = p.execute((-0.5f64).to_bits(), y.to_bits(), &unit);
        assert_eq!(f64::from_bits(outside), -0.5);
        assert_eq!(pixel(outside), 255);
    }
}

#[test]
fn sign_of_x_with_prefixed_ids() {
    let text = "# header\n_0 var-x\n_1 var-y\n_2 const 0.0\n_3 sub _0 _2\n";
    let p = Program::parse(text, &decode).unwrap();
    assert_eq!(pixel(p.execute(0.5f64.to_bits(), 0.25f64.to_bits(), &unit)), 0);
    assert_eq!(pixel(p.execute((-0.5f64).to_bits(), 0.25f64.to_bits(), &unit)), 255);
    assert_eq!(pixel(p.execute(0f64.to_bits(), 0.25f64.to_bits(), &unit)), 255);
}

#[test]
fn disk_values() {
    let text = "# x^2 + y^2 - 0.25\n_0 var-x\n_1 var-y\n_2 square _0\n_3 square _1\n_4 add _2 _3\n\
                _5 const 0.25\n_6 sub _4 _5\n";
    let p = Program::parse(text, &decode).unwrap();
    assert_eq!(run(&p, 0.0, 0.0), -0.25);
    assert_eq!(run(&p, 0.9, 0.9), 0.9f64 * 0.9 + 0.9 * 0.9 - 0.25);
    assert!(run(&p, 0.9, 0.9) > 0.0);
    assert_eq!(run(&p, 0.5, 0.0), 0.0);
    assert_eq!(run(&p, 0.25, 0.25), -0.125);
}

#[test]
fn evaluating_twice_gives_the_same_bits() {
    let p = program(&[Op::VarX, Op::VarY, Op::Mul(0, 1), Op::Sqrt(2), Op::Min(3, 0), Op::Neg(4)]);
    for x in samples() {
        for y in samples() {
            assert_eq!(
                p.execute(x.to_bits(), y.to_bits(), &unit),
                p.execute(x.to_bits(), y.to_bits(), &unit)
            );
        }
    }
}
