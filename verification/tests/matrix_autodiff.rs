//! Tests of the computation graph with a dense-matrix backend over
//! `ndarray`: element-wise arithmetic with scalar broadcast, rectified
//! linear unit, integer powers and reduction-sum, forward and backward.

use std::rc::Rc;

use ndarray as nd;
use rs_autograd::compute::{Calculator, ComputGraph};
use rs_autograd::core_syntax::{ComputValue, DefaultAdjoin, ExprBuilder};
use rs_autograd::nar::syntax::{NaOperAry1, NaOperAry2};

#[derive(Debug, Clone, PartialEq)]
enum MatrixF32 {
    M(Rc<nd::ArrayD<f32>>),
    V(f32),
}

impl MatrixF32 {
    fn new_m(m: nd::ArrayD<f32>) -> MatrixF32 {
        MatrixF32::M(Rc::new(m))
    }

    fn m(&self) -> Option<&nd::ArrayD<f32>> {
        match self {
            MatrixF32::M(m) => Some(m),
            MatrixF32::V(_) => None,
        }
    }

    fn v(&self) -> Option<f32> {
        match self {
            MatrixF32::M(_) => None,
            MatrixF32::V(v) => Some(*v),
        }
    }

    fn map(&self, f: impl Fn(f32) -> f32) -> MatrixF32 {
        match self {
            MatrixF32::M(m) => MatrixF32::new_m(m.mapv(&f)),
            MatrixF32::V(v) => MatrixF32::V(f(*v)),
        }
    }
}

impl DefaultAdjoin for MatrixF32 {
    fn default_adjoin(value: Self) -> Self {
        match value {
            MatrixF32::M(m) => MatrixF32::new_m(nd::ArrayD::from_elem(m.shape(), 1.0)),
            MatrixF32::V(_) => MatrixF32::V(1.0),
        }
    }
}

impl ComputValue for MatrixF32 {
    fn dup(&self) -> Self {
        self.clone()
    }

    fn add(&self, other: &Self) -> Self {
        match (self, other) {
            (MatrixF32::M(m1), MatrixF32::M(m2)) => MatrixF32::new_m(m1.as_ref() + m2.as_ref()),
            (MatrixF32::M(m1), MatrixF32::V(v2)) => MatrixF32::new_m(m1.as_ref() + *v2),
            (MatrixF32::V(v1), MatrixF32::M(m2)) => MatrixF32::new_m(m2.as_ref() + *v1),
            (MatrixF32::V(v1), MatrixF32::V(v2)) => MatrixF32::V(v1 + v2),
        }
    }

    fn mul(&self, other: &Self) -> Self {
        match (self, other) {
            (MatrixF32::M(m1), MatrixF32::M(m2)) => MatrixF32::new_m(m1.as_ref() * m2.as_ref()),
            (MatrixF32::M(m), MatrixF32::V(v)) => MatrixF32::new_m(m.as_ref() * *v),
            (MatrixF32::V(v), MatrixF32::M(m)) => MatrixF32::new_m(m.as_ref() * *v),
            (MatrixF32::V(v1), MatrixF32::V(v2)) => MatrixF32::V(v1 * v2),
        }
    }

    fn sub(&self, other: &Self) -> Self {
        match (self, other) {
            (MatrixF32::M(m1), MatrixF32::M(m2)) => MatrixF32::new_m(m1.as_ref() - m2.as_ref()),
            (MatrixF32::M(m1), MatrixF32::V(v2)) => MatrixF32::new_m(m1.as_ref() - *v2),
            (MatrixF32::V(v1), MatrixF32::M(m2)) => {
                let m1 = nd::ArrayD::from_elem(m2.shape(), *v1);
                MatrixF32::new_m(m1 - m2.as_ref())
            }
            (MatrixF32::V(v1), MatrixF32::V(v2)) => MatrixF32::V(v1 - v2),
        }
    }

    fn div_count(&self, count: u32) -> Self {
        let d = count as f32;
        self.map(|v| v / d)
    }

    fn render(&self) -> String {
        match self {
            MatrixF32::M(m) => format!("{}", m),
            MatrixF32::V(v) => format!("{}", v),
        }
    }
}

fn relu(v: f32) -> f32 {
    if v <= 0.0 {
        0.0
    } else {
        v
    }
}

fn backward_relu(v: f32) -> f32 {
    if v <= 0.0 {
        0.0
    } else {
        1.0
    }
}

struct MatrixCalculator;

impl Calculator<NaOperAry1, NaOperAry2, MatrixF32> for MatrixCalculator {
    fn forward1(&self, op: NaOperAry1, a: &MatrixF32) -> MatrixF32 {
        match op {
            NaOperAry1::Relu => a.map(relu),
            NaOperAry1::PowI(p) => a.map(|v| v.powi(p)),
            NaOperAry1::Sum => match a {
                MatrixF32::M(m) => MatrixF32::V(m.sum()),
                MatrixF32::V(v) => MatrixF32::V(*v),
            },
        }
    }

    fn forward2(&self, op: NaOperAry2, a: &MatrixF32, b: &MatrixF32) -> MatrixF32 {
        match op {
            NaOperAry2::Add => a.add(b),
            NaOperAry2::Sub => a.sub(b),
            NaOperAry2::MulComp => a.mul(b),
            NaOperAry2::Conv2d => panic!("conv2d is not exercised by these tests"),
        }
    }

    fn backward1(&self, op: NaOperAry1, a: &MatrixF32, adjoin: &MatrixF32) -> MatrixF32 {
        match op {
            NaOperAry1::Relu => adjoin.mul(&a.map(backward_relu)),
            NaOperAry1::PowI(p) => adjoin.mul(&a.map(|v| (p as f32) * v.powi(p - 1))),
            NaOperAry1::Sum => adjoin.clone(),
        }
    }

    fn backward2(
        &self,
        op: NaOperAry2,
        a: &MatrixF32,
        b: &MatrixF32,
        adjoin: &MatrixF32,
    ) -> (MatrixF32, MatrixF32) {
        match op {
            NaOperAry2::Add => (adjoin.clone(), adjoin.clone()),
            NaOperAry2::Sub => (adjoin.clone(), adjoin.mul(&MatrixF32::V(-1.0))),
            NaOperAry2::MulComp => (adjoin.mul(b), adjoin.mul(a)),
            NaOperAry2::Conv2d => panic!("conv2d is not exercised by these tests"),
        }
    }
}

fn new_eb() -> ExprBuilder<MatrixF32, NaOperAry1, NaOperAry2> {
    ExprBuilder::new()
}

fn sh2x2() -> nd::IxDyn {
    nd::IxDyn(&[2, 2])
}

#[test]
fn calculator_forward_add_mul() {
    let mut eb = new_eb();
    let a = eb.new_variable("a");
    let b = eb.new_variable("b");
    let c = eb.new_variable("c");
    let m = eb.mul(b, c);
    let y = eb.add(a, m);
    assert_eq!("(a + (b .* c))", y.to_string(&eb));

    let (a, b, c, y) = (a.ident(), b.ident(), c.ident(), y.ident());
    let mut cb = ComputGraph::new(eb, MatrixCalculator);
    cb.set_variable(&a, MatrixF32::new_m(nd::ArrayD::from_elem(sh2x2(), 1.0_f32)));
    cb.set_variable(&b, MatrixF32::new_m(nd::ArrayD::from_elem(sh2x2(), 2.0_f32)));
    cb.set_variable(&c, MatrixF32::new_m(nd::ArrayD::from_elem(sh2x2(), 3.0_f32)));
    let y = cb.forward(&y);
    assert_eq!(y.m(), Some(&nd::ArrayD::from_elem(sh2x2(), 7.0)));
}

#[test]
fn calculator_forward_relu() {
    let mut eb = new_eb();
    let a = eb.new_variable("a");
    let y = eb.relu(a);

    let (a, y) = (a.ident(), y.ident());
    let mut cb = ComputGraph::new(eb, MatrixCalculator);
    cb.set_variable(
        &a,
        MatrixF32::new_m(nd::ArrayD::from_shape_vec(sh2x2(), vec![-1.0, -3.0, 0.0, 42.0]).unwrap()),
    );
    let y = cb.forward(&y);
    assert_eq!(
        y.m(),
        Some(&nd::ArrayD::from_shape_vec(sh2x2(), vec![0.0, 0.0, 0.0, 42.0]).unwrap())
    );
}

#[test]
fn calculator_forward_add_sub_mul_mixed() {
    let mut eb = new_eb();
    let m = eb.new_variable("m");
    let v = eb.new_variable("v");
    let vv = eb.add(v, v);
    let prod = eb.mul(m, vv);
    let diff = eb.sub(prod, v);
    let y = eb.mul(diff, m);
    let (m, v, y) = (m.ident(), v.ident(), y.ident());
    let mut cb = ComputGraph::new(eb, MatrixCalculator);
    cb.set_variable(
        &m,
        MatrixF32::new_m(nd::ArrayD::from_shape_vec(sh2x2(), vec![3.0, 3.0, 3.0, 3.0]).unwrap()),
    );
    cb.set_variable(&v, MatrixF32::V(2.0));
    let y = cb.forward(&y);
    let expected = (3.0 * (2.0 + 2.0) - 2.0) * 3.0;
    assert_eq!(y.m(), Some(&nd::ArrayD::from_elem(sh2x2(), expected)));
}

#[test]
fn calculator_backward_add_mul() {
    let mut eb = new_eb();
    let a = eb.new_variable("a");
    let b = eb.new_variable("b");
    let c = eb.new_variable("c");
    let m = eb.mul(b, c);
    let y = eb.add(a, m);

    let (a, b, c, y) = (a.ident(), b.ident(), c.ident(), y.ident());
    let mut cb = ComputGraph::new(eb, MatrixCalculator);
    cb.set_variable(&a, MatrixF32::new_m(nd::ArrayD::from_elem(sh2x2(), 1.0_f32)));
    cb.set_variable(&b, MatrixF32::new_m(nd::ArrayD::from_elem(sh2x2(), 2.0_f32)));
    cb.set_variable(&c, MatrixF32::new_m(nd::ArrayD::from_elem(sh2x2(), 3.0_f32)));
    cb.forward(&y);
    cb.backward(&y);

    assert_eq!(
        cb.adjoin(&a).unwrap().m(),
        Some(&nd::ArrayD::from_elem(sh2x2(), 1.0))
    );
    assert_eq!(
        cb.adjoin(&b).unwrap().m(),
        Some(&nd::ArrayD::from_elem(sh2x2(), 3.0))
    );
    assert_eq!(
        cb.adjoin(&c).unwrap().m(),
        Some(&nd::ArrayD::from_elem(sh2x2(), 2.0))
    );
}

#[test]
fn calculator_backward_relu() {
    let mut eb = new_eb();
    let a = eb.new_variable("a");
    let y = eb.relu(a);

    let (a, y) = (a.ident(), y.ident());
    let mut cb = ComputGraph::new(eb, MatrixCalculator);
    cb.set_variable(
        &a,
        MatrixF32::new_m(nd::ArrayD::from_shape_vec(sh2x2(), vec![-2.0, 0.0, 0.0, 2.0]).unwrap()),
    );
    cb.forward(&y);
    cb.backward(&y);

    assert_eq!(
        cb.adjoin(&a).unwrap().m(),
        Some(&nd::ArrayD::from_shape_vec(sh2x2(), vec![0.0, 0.0, 0.0, 1.0]).unwrap())
    );
}

#[test]
fn backward_powi_m() {
    let mut eb = new_eb();
    let a = eb.new_variable("a");
    let y = eb.powi(a, 2);

    let (a, y) = (a.ident(), y.ident());
    let mut cb = ComputGraph::new(eb, MatrixCalculator);
    cb.set_variable(
        &a,
        MatrixF32::new_m(nd::ArrayD::from_shape_vec(sh2x2(), vec![-1.0, 0.0, 1.0, 2.0]).unwrap()),
    );
    cb.forward(&y);
    cb.backward(&y);

    assert_eq!(
        cb.adjoin(&a).unwrap().m(),
        Some(&nd::ArrayD::from_shape_vec(sh2x2(), vec![-2.0, 0.0, 2.0, 4.0]).unwrap())
    );
}

#[test]
fn backward_powi_v() {
    let mut eb = new_eb();
    let a = eb.new_variable("a");
    let y = eb.powi(a, 3);

    let (a, y) = (a.ident(), y.ident());
    let mut cb = ComputGraph::new(eb, MatrixCalculator);
    cb.set_variable(&a, MatrixF32::V(3.0));
    cb.forward(&y);
    cb.backward(&y);

    assert_eq!(cb.adjoin(&a).unwrap().v(), Some(3.0 * 3.0_f32.powi(2)));
}

#[test]
fn backward_sum_m() {
    let mut eb = new_eb();
    let a = eb.new_variable("a");
    let y = eb.sum(a);

    let (a, y) = (a.ident(), y.ident());
    let mut cb = ComputGraph::new(eb, MatrixCalculator);
    cb.set_variable(
        &a,
        MatrixF32::new_m(nd::ArrayD::from_shape_vec(sh2x2(), vec![-1.0, 0.0, 1.0, 2.0]).unwrap()),
    );
    let actual_forward_sum = cb.forward(&y);
    cb.backward(&y);

    assert_eq!(actual_forward_sum, MatrixF32::V(2.0));
    assert_eq!(cb.adjoin(&a).unwrap(), MatrixF32::V(1.0));
}
