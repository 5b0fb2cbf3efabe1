//! Tests of the computation graph with a scalar floating-point backend:
//! forward evaluation, reverse-mode gradients, lifecycle resets, parameter
//! updates, and cross-checks of the analytic gradients against finite
//! differences.

use std::cell::Cell;
use std::rc::Rc;

use rs_autograd::compute::{Calculator, ComputGraph, Node2};
use rs_autograd::core_syntax::{ComputValue, DefaultAdjoin, ExprBuilder, Node};
use rs_autograd::float::syntax::{FloatOperAry1, FloatOperAry2};

#[derive(Clone, Copy, Debug, PartialEq)]
struct F32(f32);

impl DefaultAdjoin for F32 {
    fn default_adjoin(_value: Self) -> Self {
        F32(1.0)
    }
}

impl ComputValue for F32 {
    fn dup(&self) -> Self {
        *self
    }

    fn add(&self, other: &Self) -> Self {
        F32(self.0 + other.0)
    }

    fn mul(&self, other: &Self) -> Self {
        F32(self.0 * other.0)
    }

    fn sub(&self, other: &Self) -> Self {
        F32(self.0 - other.0)
    }

    fn div_count(&self, count: u32) -> Self {
        F32(self.0 / count as f32)
    }

    fn render(&self) -> String {
        format!("{}", self.0)
    }
}

struct FloatCalculator;

impl Calculator<FloatOperAry1, FloatOperAry2, F32> for FloatCalculator {
    fn forward1(&self, op: FloatOperAry1, a: &F32) -> F32 {
        let a = a.0;
        F32(match op {
            FloatOperAry1::Cos => a.cos(),
            FloatOperAry1::Sin => a.sin(),
            FloatOperAry1::Ln => a.ln(),
            FloatOperAry1::PowI(b) => a.powi(b),
            FloatOperAry1::Relu => {
                if a <= 0.0 {
                    0.0
                } else {
                    a
                }
            }
        })
    }

    fn forward2(&self, op: FloatOperAry2, a: &F32, b: &F32) -> F32 {
        let (a, b) = (a.0, b.0);
        F32(match op {
            FloatOperAry2::Add => a + b,
            FloatOperAry2::Sub => a - b,
            FloatOperAry2::Mul => a * b,
            FloatOperAry2::Pow => a.powf(b),
        })
    }

    fn backward1(&self, op: FloatOperAry1, a: &F32, adjoin: &F32) -> F32 {
        let (a, adjoin) = (a.0, adjoin.0);
        F32(match op {
            FloatOperAry1::Sin => adjoin * a.cos(),
            FloatOperAry1::Cos => adjoin * (-1.0 * a.sin()),
            FloatOperAry1::Ln => adjoin * (1.0 / a),
            FloatOperAry1::PowI(b) => adjoin * ((b as f32) * a.powi(b - 1)),
            FloatOperAry1::Relu => {
                if a <= 0.0 {
                    0.0
                } else {
                    adjoin
                }
            }
        })
    }

    fn backward2(&self, op: FloatOperAry2, a: &F32, b: &F32, adjoin: &F32) -> (F32, F32) {
        let (a, b, adjoin) = (a.0, b.0, adjoin.0);
        let (da, db) = match op {
            FloatOperAry2::Add => (adjoin, adjoin),
            FloatOperAry2::Sub => (adjoin, adjoin * -1.0),
            FloatOperAry2::Mul => (adjoin * b, adjoin * a),
            FloatOperAry2::Pow => (
                adjoin * (b * a.powf(b - 1.0)),
                adjoin * (a.powf(b) * a.ln()),
            ),
        };
        (F32(da), F32(db))
    }
}

/// A backend that counts how many local forward rules it is asked for.
struct CountingCalculator {
    calls: Rc<Cell<u32>>,
}

impl Calculator<FloatOperAry1, FloatOperAry2, F32> for CountingCalculator {
    fn forward1(&self, op: FloatOperAry1, a: &F32) -> F32 {
        self.calls.set(self.calls.get() + 1);
        FloatCalculator.forward1(op, a)
    }

    fn forward2(&self, op: FloatOperAry2, a: &F32, b: &F32) -> F32 {
        self.calls.set(self.calls.get() + 1);
        FloatCalculator.forward2(op, a, b)
    }

    fn backward1(&self, op: FloatOperAry1, a: &F32, adjoin: &F32) -> F32 {
        FloatCalculator.backward1(op, a, adjoin)
    }

    fn backward2(&self, op: FloatOperAry2, a: &F32, b: &F32, adjoin: &F32) -> (F32, F32) {
        FloatCalculator.backward2(op, a, b, adjoin)
    }
}

fn new_eb() -> ExprBuilder<F32, FloatOperAry1, FloatOperAry2> {
    ExprBuilder::new()
}

fn assert_almost_eq(actual: f32, expected: f32, eps: f32) {
    let d = (actual - expected).abs();
    assert!(d <= eps, "{} != {} (eps={})", actual, expected, eps);
}

/// Compare a reference function against a reconstruction from its claimed
/// derivative (Euler integration from the range start), by root-mean-square
/// error over the sampled range.
fn assert_function_and_derivative_similar<F1, F2>(
    f: F1,
    df: &mut F2,
    start: f32,
    end: f32,
    step: f32,
    max_rms: f32,
) where
    F1: Fn(f32) -> f32,
    F2: FnMut(f32) -> f32,
{
    let mut rms = 0.0_f32;
    let mut n = 0_u32;
    let mut y2 = f(start);
    let mut x = start;
    while x < end {
        let y1 = f(x);
        let d = y1 - y2;
        rms += d * d;
        n += 1;
        y2 += df(x) * step;
        x += step;
    }
    assert!(n > 0);
    rms = (rms / n as f32).sqrt();
    assert!(rms <= max_rms, "RMS was {} > {}", rms, max_rms);
}

/// Compare two functions point-wise by root-mean-square error.
fn assert_functions_similar<F1, F2>(f1: F1, f2: &mut F2, start: f32, end: f32, step: f32, max_rms: f32)
where
    F1: Fn(f32) -> f32,
    F2: FnMut(f32) -> f32,
{
    let mut rms = 0.0_f32;
    let mut n = 0_u32;
    let mut x = start;
    while x < end {
        let d = f1(x) - f2(x);
        rms += d * d;
        n += 1;
        x += step;
    }
    assert!(n > 0);
    rms = (rms / n as f32).sqrt();
    assert!(rms <= max_rms, "RMS was {} > {}", rms, max_rms);
}

#[test]
fn compute_primal() {
    let mut eb = new_eb();
    let x1 = eb.new_variable("x1");
    let x2 = eb.new_variable("x2");
    let x3 = eb.add(x1, x2);
    let x4 = eb.add(x1, x2);
    let s = eb.add(x1, x2);
    let m = eb.mul(s, x3);
    let e = eb.add(m, x4);

    let x1 = x1.ident();
    let x2 = x2.ident();
    let e = e.ident();
    let mut cg = ComputGraph::new(eb, FloatCalculator);
    cg.set_variable(&x1, F32(3.0));
    cg.set_variable(&x2, F32(5.0));
    let p = cg.forward(&e);
    assert_eq!(p, F32((3.0 + 5.0) * (3.0 + 5.0) + (3.0 + 5.0)));
}

#[test]
fn compute_simple_tangent() {
    let mut eb = new_eb();
    let x1 = eb.new_variable("x1");
    let x2 = eb.new_variable("x2");
    let y = eb.mul(x1, x2);

    let x1 = x1.ident();
    let x2 = x2.ident();
    let y = y.ident();
    let mut cg = ComputGraph::new(eb, FloatCalculator);
    cg.set_variable(&x1, F32(3.0));
    cg.set_variable(&x2, F32(-4.0));
    cg.forward(&y);
    cg.backward(&y);
    assert_eq!(cg.adjoin(&x1), Some(F32(-4.0)));
}

#[test]
fn test_float_derivate_compare_sin_cos() {
    let mut df = |x: f32| x.cos();
    assert_function_and_derivative_similar(|x| x.sin(), &mut df, 0.0, 3.14 / 2.0, 0.01, 0.01);
}

#[test]
fn test_float_derivate_test_hf() {
    let mut eb = new_eb();
    let x1 = eb.new_variable("x1");
    let x2 = eb.new_variable("x2");
    let vm1 = x1;
    let v0 = x2;
    let v1 = eb.mul(vm1, v0);
    let v2 = eb.ln(vm1);
    let v3 = eb.add(v0, v1);
    let v4 = eb.sub(v3, v2);
    let y = v4;

    let x1 = x1.ident();
    let x2 = x2.ident();
    let v1 = v1.ident();
    let v2 = v2.ident();
    let v3 = v3.ident();
    let v4 = v4.ident();
    let y = y.ident();
    let mut cg = ComputGraph::new(eb, FloatCalculator);
    cg.set_variable(&x1, F32(3.0));
    cg.set_variable(&x2, F32(-4.0));

    let eps = 0.01;
    cg.forward(&y);
    assert_almost_eq(cg.primal(&y).0, -17.10, eps);

    cg.backward(&y);
    assert_almost_eq(cg.adjoin(&y).unwrap().0, 1.0, eps);
    assert_almost_eq(cg.adjoin(&v4).unwrap().0, 1.0, eps);
    assert_almost_eq(cg.adjoin(&v3).unwrap().0, 1.0, eps);
    assert_almost_eq(cg.adjoin(&v2).unwrap().0, -1.0, eps);
    assert_almost_eq(cg.adjoin(&v1).unwrap().0, 1.0, eps);
    assert_almost_eq(cg.adjoin(&x2).unwrap().0, 4.0, eps);
    assert_almost_eq(cg.adjoin(&x1).unwrap().0, -4.33, eps);
}

#[test]
fn test_float_derivate_sin_cos() {
    let mut eb = new_eb();
    let x = eb.new_variable("x");
    let c = eb.register_node_get_expr(Node::Const(F32(30.0)));
    let xc = eb.mul(x, c);
    let s = eb.sin(xc);
    let co = eb.cos(x);
    let y = eb.mul(s, co);
    assert_eq!("(sin((x * 30)) * cos(x))", y.to_string(&eb));

    let x = x.ident();
    let y = y.ident();
    let mut cg = ComputGraph::new(eb, FloatCalculator);
    let mut df = |x_inp: f32| {
        cg.reset_state_for_next_epoch();
        cg.set_variable(&x, F32(x_inp));
        cg.forward(&y);
        cg.backward(&y);
        cg.adjoin(&x).unwrap().0
    };
    assert_function_and_derivative_similar(
        |x| (x * 30.0).sin() * x.cos(),
        &mut df,
        0.0,
        3.14,
        0.001,
        0.02,
    );
}

#[test]
fn test_pow() {
    let mut eb = new_eb();
    let x = eb.new_variable("x1");
    let two = eb.register_node_get_expr(Node::Const(F32(2.0)));
    let y = eb.pow(x, two);

    let x = x.ident();
    let y = y.ident();
    let mut cg = ComputGraph::new(eb, FloatCalculator);
    let mut df = |x_inp: f32| {
        cg.reset_state_for_next_epoch();
        cg.set_variable(&x, F32(x_inp));
        cg.forward(&y);
        cg.backward(&y);
        cg.adjoin(&x).unwrap().0
    };
    assert_function_and_derivative_similar(|x| x.powf(2.0), &mut df, 0.0, 5.0, 0.01, 0.03);
}

#[test]
fn test_float_gradient_descent_test_gradient_descent_simple() {
    let poly = |x: f32| 3.14 * x;

    let mut eb = new_eb();
    let x = eb.new_variable("x");
    let a = eb.new_named_parameter("a", F32(0.1));
    let y = eb.mul(a, x);
    let t = eb.new_variable("t");
    let diff = eb.sub(y, t);
    let loss = eb.powi(diff, 2);

    assert_eq!("(a * x)", y.to_string(&eb));

    let x = x.ident();
    let t = t.ident();
    let y = y.ident();
    let loss = loss.ident();
    let mut cg = ComputGraph::new(eb, FloatCalculator);

    let n_epochs = 1000;
    let learn_rate = F32(0.1);
    for _ in 0..n_epochs {
        cg.reset_state_for_next_epoch();
        let mut x_inp = -1.0_f32;
        while x_inp < 1.0 {
            cg.reset_state_for_next_input();
            cg.reset_primal_of_variable(&x, F32(x_inp));
            cg.reset_primal_of_variable(&t, F32(poly(x_inp)));
            cg.forward(&loss);
            cg.backward(&loss);
            x_inp += 0.1;
        }
        cg.update_params_lr(&learn_rate);
    }

    let mut df = |x_inp: f32| {
        cg.reset_state_for_next_input();
        cg.reset_primal_of_variable(&x, F32(x_inp));
        cg.forward(&y).0
    };
    assert_functions_similar(poly, &mut df, -1.0, 1.0, 0.1, 0.01);
}

#[test]
fn test_float_gradient_descent_test_fit_simple_relu() {
    let target_poly = |x: f32| {
        let x = x - 2.0;
        3.0 * (if x > 0.0 { x } else { 0.0 })
    };

    let mut eb = new_eb();
    let x = eb.new_variable("x");
    let p0 = eb.new_parameter(F32(0.01));
    let p1 = eb.new_parameter(F32(0.02));
    let shifted = eb.sub(x, p0);
    let rect = eb.relu(shifted);
    let y = eb.mul(rect, p1);
    let t = eb.new_variable("t");
    let diff = eb.sub(y, t);
    let loss = eb.powi(diff, 2);

    let x = x.ident();
    let t = t.ident();
    let y = y.ident();
    let loss = loss.ident();
    let mut cg = ComputGraph::new(eb, FloatCalculator);

    let n_epochs = 50;
    let learn_rate = F32(0.1);
    for _ in 0..n_epochs {
        cg.reset_state_for_next_epoch();
        let mut x_inp = -2.0_f32;
        while x_inp < 6.0 {
            cg.reset_state_for_next_input();
            cg.reset_primal_of_variable(&x, F32(x_inp));
            cg.reset_primal_of_variable(&t, F32(target_poly(x_inp)));
            cg.forward(&loss);
            cg.backward(&loss);
            x_inp += 0.1;
        }
        cg.update_params_lr(&learn_rate);
    }

    let mut df = |x_inp: f32| {
        cg.reset_state_for_next_input();
        cg.reset_primal_of_variable(&x, F32(x_inp));
        cg.forward(&y).0
    };
    assert_functions_similar(target_poly, &mut df, -2.0, 6.0, 0.1, 0.01);
}

#[test]
fn forward_is_deterministic_and_memoized() {
    // Repeated forward calls on the same identifier, without a reset,
    // return bit-identical results.
    let mut eb = new_eb();
    let x1 = eb.new_variable("x1");
    let x2 = eb.new_variable("x2");
    let s = eb.add(x1, x2);
    let e = eb.mul(s, s);
    let x1 = x1.ident();
    let x2 = x2.ident();
    let e = e.ident();
    let mut cg = ComputGraph::new(eb, FloatCalculator);
    cg.set_variable(&x1, F32(0.1));
    cg.set_variable(&x2, F32(0.7));
    let first = cg.forward(&e);
    let second = cg.forward(&e);
    assert_eq!(first, second);
}

#[test]
fn backward_accumulates_so_adjoint_doubles() {
    // Backward passes are not idempotent by design: running the same pass
    // twice with the same seed doubles a fresh adjoint.
    let mut eb = new_eb();
    let x1 = eb.new_variable("x1");
    let x2 = eb.new_variable("x2");
    let y = eb.mul(x1, x2);
    let x1 = x1.ident();
    let y = y.ident();
    let mut cg = ComputGraph::new(eb, FloatCalculator);
    cg.set_variable(&x1, F32(3.0));
    cg.set_variable(&x2.ident(), F32(-4.0));
    cg.forward(&y);
    cg.backward(&y);
    let once = cg.adjoin(&x1).unwrap();
    cg.backward(&y);
    let twice = cg.adjoin(&x1).unwrap();
    assert_eq!(twice, F32(2.0 * once.0));
}

#[test]
fn shared_node_is_evaluated_exactly_once() {
    // A node with two incoming edges from a shared ancestor is evaluated
    // exactly once per forward pass: the counting backend sees one call
    // for the shared sum and one for the product, not three.
    let calls = Rc::new(Cell::new(0u32));
    let mut eb = new_eb();
    let x1 = eb.new_variable("x1");
    let x2 = eb.new_variable("x2");
    let s = eb.add(x1, x2);
    let e = eb.mul(s, s);
    let x1 = x1.ident();
    let x2 = x2.ident();
    let e = e.ident();
    let mut cg = ComputGraph::new(eb, CountingCalculator { calls: Rc::clone(&calls) });
    cg.set_variable(&x1, F32(3.0));
    cg.set_variable(&x2, F32(5.0));
    cg.forward(&e);
    assert_eq!(calls.get(), 2);
}

#[test]
fn chain_rule_square_of_sum() {
    // y = x1 + x2, z = y * y with x1 = 3, x2 = 5: z = 64 and
    // dz/dx1 = dz/dx2 = 2y = 16.
    let mut eb = new_eb();
    let x1 = eb.new_variable("x1");
    let x2 = eb.new_variable("x2");
    let y = eb.add(x1, x2);
    let z = eb.mul(y, y);
    let x1 = x1.ident();
    let x2 = x2.ident();
    let z = z.ident();
    let mut cg = ComputGraph::new(eb, FloatCalculator);
    cg.set_variable(&x1, F32(3.0));
    cg.set_variable(&x2, F32(5.0));
    assert_eq!(cg.forward(&z), F32(64.0));
    cg.backward(&z);
    assert_eq!(cg.adjoin(&x1), Some(F32(16.0)));
    assert_eq!(cg.adjoin(&x2), Some(F32(16.0)));
}

#[test]
fn product_rule() {
    // y = x1 * x2 with x1 = 3, x2 = -4: y = -12, dy/dx1 = -4, dy/dx2 = 3.
    let mut eb = new_eb();
    let x1 = eb.new_variable("x1");
    let x2 = eb.new_variable("x2");
    let y = eb.mul(x1, x2);
    let x1 = x1.ident();
    let x2 = x2.ident();
    let y = y.ident();
    let mut cg = ComputGraph::new(eb, FloatCalculator);
    cg.set_variable(&x1, F32(3.0));
    cg.set_variable(&x2, F32(-4.0));
    assert_eq!(cg.forward(&y), F32(-12.0));
    cg.backward(&y);
    assert_eq!(cg.adjoin(&x1), Some(F32(-4.0)));
    assert_eq!(cg.adjoin(&x2), Some(F32(3.0)));
}

fn variable_primal(cg: &ComputGraph<F32, FloatOperAry1, FloatOperAry2, FloatCalculator>, id: &rs_autograd::core_syntax::Ident) -> Option<F32> {
    match cg.get_node(id) {
        Node2::Variable { tensors, .. } => tensors.primal,
        Node2::Parameter { tensors, .. } => tensors.primal,
        _ => None,
    }
}

#[test]
fn reset_semantics() {
    let mut eb = new_eb();
    let x = eb.new_variable("x");
    let p = eb.new_named_parameter("p", F32(0.5));
    let y = eb.mul(p, x);
    let x = x.ident();
    let p = p.ident();
    let y = y.ident();
    let mut cg = ComputGraph::new(eb, FloatCalculator);
    cg.set_variable(&x, F32(2.0));
    cg.forward(&y);
    cg.backward(&y);
    let p_adjoin = cg.adjoin(&p);
    assert!(p_adjoin.is_some());

    // After a per-input reset, the variable's primal is absent but the
    // parameter's accumulated adjoint (and its primal) are unchanged.
    cg.reset_state_for_next_input();
    assert_eq!(variable_primal(&cg, &x), None);
    assert_eq!(variable_primal(&cg, &p), Some(F32(0.5)));
    assert_eq!(cg.adjoin(&p), p_adjoin);

    // After a per-epoch reset, the parameter's primal survives but its
    // adjoint and all variable/intermediate state are cleared.
    cg.reset_state_for_next_epoch();
    assert_eq!(variable_primal(&cg, &p), Some(F32(0.5)));
    assert_eq!(cg.adjoin(&p), None);
    assert_eq!(variable_primal(&cg, &x), None);
    assert_eq!(cg.adjoin(&x), None);
    assert_eq!(cg.adjoin(&y), None);
}

#[test]
fn gradient_mean_over_three_inputs() {
    // Accumulate adjoints for a parameter across three inputs; the update
    // must use the mean adjoint_sum / 3, not the raw sum: with y = p * x
    // and inputs x = 1, 2, 3 the adjoint sum is 6 and the count 3, so
    // p steps from 1.0 to 1.0 - 0.5 * (6 / 3) = 0.0.
    let mut eb = new_eb();
    let x = eb.new_variable("x");
    let p = eb.new_named_parameter("p", F32(1.0));
    let y = eb.mul(p, x);
    let x = x.ident();
    let p = p.ident();
    let y = y.ident();
    let mut cg = ComputGraph::new(eb, FloatCalculator);
    for x_inp in [1.0_f32, 2.0, 3.0] {
        cg.reset_state_for_next_input();
        cg.reset_primal_of_variable(&x, F32(x_inp));
        cg.forward(&y);
        cg.backward(&y);
    }
    match cg.get_node(&p) {
        Node2::Parameter { tensors, .. } => {
            assert_eq!(tensors.adjoin, Some((F32(6.0), 3)));
        }
        _ => panic!("not a parameter"),
    }
    cg.update_params_lr(&F32(0.5));
    assert_eq!(cg.primal(&p), F32(0.0));
    assert_eq!(cg.adjoin(&p), None);
}

#[test]
fn set_parameter_writes_once_and_clears_stale_adjoint() {
    // A parameter's primal is initialized at freeze time; to write it
    // explicitly, the slot must first be vacated (the same at-most-once
    // discipline as variables). Any stale adjoint is discarded.
    let mut eb = new_eb();
    let x = eb.new_variable("x");
    let p = eb.new_named_parameter("p", F32(0.5));
    let y = eb.mul(p, x);
    let x = x.ident();
    let p = p.ident();
    let y = y.ident();
    let mut cg = ComputGraph::new(eb, FloatCalculator);
    cg.set_variable(&x, F32(2.0));
    cg.forward(&y);
    cg.backward(&y);
    assert!(cg.adjoin(&p).is_some());
    match &mut cg.ast[p.0] {
        Node2::Parameter { tensors, .. } => tensors.primal = None,
        _ => panic!("not a parameter"),
    }
    cg.set_parameter(&p, F32(7.0));
    assert_eq!(cg.primal(&p), F32(7.0));
    assert_eq!(cg.adjoin(&p), None);
}

#[test]
fn constants_take_no_backward_contribution() {
    // A constant visited during backward is skipped, not an error, and
    // keeps no adjoint.
    let mut eb = new_eb();
    let x = eb.new_variable("x");
    let c = eb.register_node_get_expr(Node::Const(F32(2.0)));
    let y = eb.mul(x, c);
    let x = x.ident();
    let c = c.ident();
    let y = y.ident();
    let mut cg = ComputGraph::new(eb, FloatCalculator);
    cg.set_variable(&x, F32(3.0));
    assert_eq!(cg.forward(&y), F32(6.0));
    cg.backward(&y);
    assert_eq!(cg.adjoin(&x), Some(F32(2.0)));
    assert_eq!(cg.adjoin(&c), None);
}
