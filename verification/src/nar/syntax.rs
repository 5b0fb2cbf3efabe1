//! The operator set of a dense-matrix numeric backend, and the arithmetic
//! surface for building matrix expressions: element-wise addition,
//! subtraction and multiplication, rectified linear unit, integer power,
//! reduction-sum, and two-dimensional convolution. The operators are only
//! tags; what they compute is decided by the backend that the graph is
//! frozen with.

use crate::core_syntax::{ComputValue, Expr, ExprBuilder, Node, Operator};
use crate::core_syntax::{int_string, int_text};
use vstd::prelude::*;
use vstd::string::*;

verus! {

/// Arity-1 matrix operations.
#[derive(Copy, Clone, Debug)]
pub enum NaOperAry1 {
    Relu,
    /// Element-wise power to a constant integer exponent.
    PowI(i32),
    /// Add all the elements of the matrix and return a single value.
    Sum,
}

/// Arity-2 matrix operations.
#[derive(Copy, Clone, Debug)]
pub enum NaOperAry2 {
    Add,
    Sub,
    /// Element-wise multiplication.
    MulComp,
    /// Two-dimensional convolution of the left operand with the right
    /// operand as kernel.
    Conv2d,
}

impl Operator for NaOperAry1 {
    open spec fn symbol_spec(self) -> Seq<char> {
        match self {
            NaOperAry1::Relu => "relu"@,
            NaOperAry1::PowI(p) => "pow"@ + int_text(p as int),
            NaOperAry1::Sum => "sum"@,
        }
    }

    fn symbol(&self) -> (r: String) {
        match self {
            NaOperAry1::Relu => "relu".to_owned(),
            NaOperAry1::PowI(p) => {
                let mut s = "pow".to_owned();
                let digits = int_string(*p);
                s.append(digits.as_str());
                s
            },
            NaOperAry1::Sum => "sum".to_owned(),
        }
    }
}

impl Operator for NaOperAry2 {
    open spec fn symbol_spec(self) -> Seq<char> {
        match self {
            NaOperAry2::Add => " + "@,
            NaOperAry2::Sub => " - "@,
            NaOperAry2::MulComp => " .* "@,
            NaOperAry2::Conv2d => "conv2d"@,
        }
    }

    fn symbol(&self) -> (r: String) {
        match self {
            NaOperAry2::Add => " + ".to_owned(),
            NaOperAry2::Sub => " - ".to_owned(),
            NaOperAry2::MulComp => " .* ".to_owned(),
            NaOperAry2::Conv2d => "conv2d".to_owned(),
        }
    }
}

impl<V: ComputValue> ExprBuilder<V, NaOperAry1, NaOperAry2> {
    /// `lhs + rhs`, element-wise.
    pub fn add(&mut self, lhs: Expr, rhs: Expr) -> (r: Expr)
        requires
            old(self).wf(),
            lhs.ident.0 < old(self).nodes@.len(),
            rhs.ident.0 < old(self).nodes@.len(),
        ensures
            final(self).wf(),
            r.ident.0 == old(self).nodes@.len(),
            final(self).nodes@ =~= old(self).nodes@.push(
                Node::Ary2(NaOperAry2::Add, lhs.ident, rhs.ident),
            ),
            final(self).names_view() =~= old(self).names_view().push(None),
    {
        self.register_node_get_expr(Node::Ary2(NaOperAry2::Add, lhs.ident, rhs.ident))
    }

    /// `lhs - rhs`, element-wise.
    pub fn sub(&mut self, lhs: Expr, rhs: Expr) -> (r: Expr)
        requires
            old(self).wf(),
            lhs.ident.0 < old(self).nodes@.len(),
            rhs.ident.0 < old(self).nodes@.len(),
        ensures
            final(self).wf(),
            r.ident.0 == old(self).nodes@.len(),
            final(self).nodes@ =~= old(self).nodes@.push(
                Node::Ary2(NaOperAry2::Sub, lhs.ident, rhs.ident),
            ),
            final(self).names_view() =~= old(self).names_view().push(None),
    {
        self.register_node_get_expr(Node::Ary2(NaOperAry2::Sub, lhs.ident, rhs.ident))
    }

    /// `lhs .* rhs`: element-wise multiplication (not a matrix product).
    pub fn mul(&mut self, lhs: Expr, rhs: Expr) -> (r: Expr)
        requires
            old(self).wf(),
            lhs.ident.0 < old(self).nodes@.len(),
            rhs.ident.0 < old(self).nodes@.len(),
        ensures
            final(self).wf(),
            r.ident.0 == old(self).nodes@.len(),
            final(self).nodes@ =~= old(self).nodes@.push(
                Node::Ary2(NaOperAry2::MulComp, lhs.ident, rhs.ident),
            ),
            final(self).names_view() =~= old(self).names_view().push(None),
    {
        self.register_node_get_expr(Node::Ary2(NaOperAry2::MulComp, lhs.ident, rhs.ident))
    }

    /// `relu(a)`, element-wise.
    pub fn relu(&mut self, a: Expr) -> (r: Expr)
        requires
            old(self).wf(),
            a.ident.0 < old(self).nodes@.len(),
        ensures
            final(self).wf(),
            r.ident.0 == old(self).nodes@.len(),
            final(self).nodes@ =~= old(self).nodes@.push(Node::Ary1(NaOperAry1::Relu, a.ident)),
            final(self).names_view() =~= old(self).names_view().push(None),
    {
        self.register_node_get_expr(Node::Ary1(NaOperAry1::Relu, a.ident))
    }

    /// `a^p` element-wise, with a constant integer exponent.
    pub fn powi(&mut self, a: Expr, p: i32) -> (r: Expr)
        requires
            old(self).wf(),
            a.ident.0 < old(self).nodes@.len(),
        ensures
            final(self).wf(),
            r.ident.0 == old(self).nodes@.len(),
            final(self).nodes@ =~= old(self).nodes@.push(
                Node::Ary1(NaOperAry1::PowI(p), a.ident),
            ),
            final(self).names_view() =~= old(self).names_view().push(None),
    {
        self.register_node_get_expr(Node::Ary1(NaOperAry1::PowI(p), a.ident))
    }

    /// `sum(a)`: the sum of all elements, as a single value.
    pub fn sum(&mut self, a: Expr) -> (r: Expr)
        requires
            old(self).wf(),
            a.ident.0 < old(self).nodes@.len(),
        ensures
            final(self).wf(),
            r.ident.0 == old(self).nodes@.len(),
            final(self).nodes@ =~= old(self).nodes@.push(Node::Ary1(NaOperAry1::Sum, a.ident)),
            final(self).names_view() =~= old(self).names_view().push(None),
    {
        self.register_node_get_expr(Node::Ary1(NaOperAry1::Sum, a.ident))
    }

    /// Two-dimensional convolution of `a` with `kernel`.
    pub fn conv2d(&mut self, a: Expr, kernel: Expr) -> (r: Expr)
        requires
            old(self).wf(),
            a.ident.0 < old(self).nodes@.len(),
            kernel.ident.0 < old(self).nodes@.len(),
        ensures
            final(self).wf(),
            r.ident.0 == old(self).nodes@.len(),
            final(self).nodes@ =~= old(self).nodes@.push(
                Node::Ary2(NaOperAry2::Conv2d, a.ident, kernel.ident),
            ),
            final(self).names_view() =~= old(self).names_view().push(None),
    {
        self.register_node_get_expr(Node::Ary2(NaOperAry2::Conv2d, a.ident, kernel.ident))
    }
}

} // verus!
