//! Tests for building expressions and rendering them as text.

use rs_autograd::core_syntax::{ComputValue, DefaultAdjoin, ExprBuilder, Node};
use rs_autograd::float::syntax::{FloatOperAry1, FloatOperAry2};
use rs_autograd::nar::syntax::{NaOperAry1, NaOperAry2};

#[derive(Clone, Copy, Debug, PartialEq)]
struct F32(f32);

impl DefaultAdjoin for F32 {
    fn default_adjoin(_value: Self) -> Self {
        F32(1.0)
    }
}

impl ComputValue for F32 {
    fn dup(&self) -> Self {
        *self
    }

    fn add(&self, other: &Self) -> Self {
        F32(self.0 + other.0)
    }

    fn mul(&self, other: &Self) -> Self {
        F32(self.0 * other.0)
    }

    fn sub(&self, other: &Self) -> Self {
        F32(self.0 - other.0)
    }

    fn div_count(&self, count: u32) -> Self {
        F32(self.0 / count as f32)
    }

    fn render(&self) -> String {
        format!("{}", self.0)
    }
}

fn new_eb() -> ExprBuilder<F32, FloatOperAry1, FloatOperAry2> {
    ExprBuilder::new()
}

fn new_eb_m() -> ExprBuilder<F32, NaOperAry1, NaOperAry2> {
    ExprBuilder::new()
}

#[test]
fn syntax_syntax() {
    let mut eb = new_eb();
    let x1 = eb.new_variable("x1");
    let x2 = eb.new_variable("x2");
    let x3 = eb.add(x1, x2);
    let x4 = eb.add(x1, x2);
    let m = eb.mul(x2, x3);
    let s = eb.add(x1, m);
    let z = eb.add(s, x4);
    assert_eq!("((x1 + (x2 * (x1 + x2))) + (x1 + x2))", z.to_string(&eb));
}

#[test]
fn cos() {
    let mut eb = new_eb();
    let x = eb.new_variable("x");
    let c = eb.cos(x);
    let y = eb.sin(c);
    assert_eq!("sin(cos(x))", y.to_string(&eb));
}

#[test]
fn const_value() {
    let mut eb = new_eb();
    let x = eb.new_variable("x");
    let two = eb.register_node_get_expr(Node::Const(F32(2.0)));
    let y = eb.add(x, two);
    assert_eq!("(x + 2)", y.to_string(&eb));
}

#[test]
fn powi() {
    let mut eb = new_eb();
    let x = eb.new_variable("x");
    let y = eb.powi(x, 2);
    assert_eq!("pow2(x)", y.to_string(&eb));
}

#[test]
fn negative_exponent_symbol() {
    let mut eb = new_eb();
    let x = eb.new_variable("x");
    let y = eb.powi(x, -13);
    assert_eq!("pow-13(x)", y.to_string(&eb));
}

#[test]
fn named_parameter_display() {
    let mut eb = new_eb();
    let a = eb.new_named_parameter("a", F32(0.1));
    let x = eb.new_variable("x");
    let y = eb.mul(a, x);
    assert_eq!("(a * x)", y.to_string(&eb));
}

#[test]
fn syntax_syntax_add() {
    let mut eb = new_eb_m();
    let a = eb.new_variable("a");
    let b = eb.new_variable("b");
    let c = eb.add(a, b);
    let _a2 = eb.add(a, a);
    assert_eq!("(a + b)", c.to_string(&eb));
}

#[test]
fn syntax_syntax_copy() {
    let mut eb = new_eb_m();
    let a = eb.new_variable("a");
    let c = eb.add(a, a);
    assert_eq!("(a + a)", c.to_string(&eb));
}

#[test]
fn syntax_syntax_component_mul() {
    let mut eb = new_eb_m();
    let a = eb.new_variable("a");
    let b = eb.new_variable("b");
    let c = eb.mul(a, b);
    assert_eq!("(a .* b)", c.to_string(&eb));
}

#[test]
fn syntax_syntax_relu() {
    let mut eb = new_eb_m();
    let a = eb.new_variable("a");
    let b = eb.relu(a);
    assert_eq!("relu(a)", b.to_string(&eb));
}

#[test]
fn matrix_sum_display() {
    let mut eb = new_eb_m();
    let a = eb.new_variable("a");
    let b = eb.sum(a);
    assert_eq!("sum(a)", b.to_string(&eb));
}
