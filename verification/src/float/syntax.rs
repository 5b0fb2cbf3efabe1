//! The operator set of a scalar numeric backend, and the arithmetic surface
//! for building scalar expressions: addition, subtraction, multiplication,
//! powers, trigonometry, logarithm and rectified linear unit. The operators
//! are only tags; what they compute is decided by the backend that the
//! graph is frozen with.

use crate::core_syntax::{ComputValue, Expr, ExprBuilder, Node, Operator};
use crate::core_syntax::{int_string, int_text};
use vstd::prelude::*;
use vstd::string::*;

verus! {

/// Arity-1 scalar operations.
#[derive(Copy, Clone, Debug)]
pub enum FloatOperAry1 {
    Cos,
    Sin,
    Ln,
    /// Power to a constant integer exponent.
    PowI(i32),
    Relu,
}

/// Arity-2 scalar operations.
#[derive(Copy, Clone, Debug)]
pub enum FloatOperAry2 {
    Add,
    Sub,
    Mul,
    /// Power where the exponent is another expression.
    Pow,
}

impl Operator for FloatOperAry1 {
    open spec fn symbol_spec(self) -> Seq<char> {
        match self {
            FloatOperAry1::Cos => "cos"@,
            FloatOperAry1::Sin => "sin"@,
            FloatOperAry1::Ln => "ln"@,
            FloatOperAry1::PowI(p) => "pow"@ + int_text(p as int),
            FloatOperAry1::Relu => "relu"@,
        }
    }

    fn symbol(&self) -> (r: String) {
        match self {
            FloatOperAry1::Cos => "cos".to_owned(),
            FloatOperAry1::Sin => "sin".to_owned(),
            FloatOperAry1::Ln => "ln".to_owned(),
            FloatOperAry1::PowI(p) => {
                let mut s = "pow".to_owned();
                let digits = int_string(*p);
                s.append(digits.as_str());
                s
            },
            FloatOperAry1::Relu => "relu".to_owned(),
        }
    }
}

impl Operator for FloatOperAry2 {
    open spec fn symbol_spec(self) -> Seq<char> {
        match self {
            FloatOperAry2::Add => " + "@,
            FloatOperAry2::Sub => " - "@,
            FloatOperAry2::Mul => " * "@,
            FloatOperAry2::Pow => "^"@,
        }
    }

    fn symbol(&self) -> (r: String) {
        match self {
            FloatOperAry2::Add => " + ".to_owned(),
            FloatOperAry2::Sub => " - ".to_owned(),
            FloatOperAry2::Mul => " * ".to_owned(),
            FloatOperAry2::Pow => "^".to_owned(),
        }
    }
}

impl<V: ComputValue> ExprBuilder<V, FloatOperAry1, FloatOperAry2> {
    /// `lhs + rhs`.
    pub fn add(&mut self, lhs: Expr, rhs: Expr) -> (r: Expr)
        requires
            old(self).wf(),
            lhs.ident.0 < old(self).nodes@.len(),
            rhs.ident.0 < old(self).nodes@.len(),
        ensures
            final(self).wf(),
            r.ident.0 == old(self).nodes@.len(),
            final(self).nodes@ =~= old(self).nodes@.push(
                Node::Ary2(FloatOperAry2::Add, lhs.ident, rhs.ident),
            ),
            final(self).names_view() =~= old(self).names_view().push(None),
    {
        self.register_node_get_expr(Node::Ary2(FloatOperAry2::Add, lhs.ident, rhs.ident))
    }

    /// `lhs - rhs`.
    pub fn sub(&mut self, lhs: Expr, rhs: Expr) -> (r: Expr)
        requires
            old(self).wf(),
            lhs.ident.0 < old(self).nodes@.len(),
            rhs.ident.0 < old(self).nodes@.len(),
        ensures
            final(self).wf(),
            r.ident.0 == old(self).nodes@.len(),
            final(self).nodes@ =~= old(self).nodes@.push(
                Node::Ary2(FloatOperAry2::Sub, lhs.ident, rhs.ident),
            ),
            final(self).names_view() =~= old(self).names_view().push(None),
    {
        self.register_node_get_expr(Node::Ary2(FloatOperAry2::Sub, lhs.ident, rhs.ident))
    }

    /// `lhs * rhs`.
    pub fn mul(&mut self, lhs: Expr, rhs: Expr) -> (r: Expr)
        requires
            old(self).wf(),
            lhs.ident.0 < old(self).nodes@.len(),
            rhs.ident.0 < old(self).nodes@.len(),
        ensures
            final(self).wf(),
            r.ident.0 == old(self).nodes@.len(),
            final(self).nodes@ =~= old(self).nodes@.push(
                Node::Ary2(FloatOperAry2::Mul, lhs.ident, rhs.ident),
            ),
            final(self).names_view() =~= old(self).names_view().push(None),
    {
        self.register_node_get_expr(Node::Ary2(FloatOperAry2::Mul, lhs.ident, rhs.ident))
    }

    /// `cos(a)`.
    pub fn cos(&mut self, a: Expr) -> (r: Expr)
        requires
            old(self).wf(),
            a.ident.0 < old(self).nodes@.len(),
        ensures
            final(self).wf(),
            r.ident.0 == old(self).nodes@.len(),
            final(self).nodes@ =~= old(self).nodes@.push(
                Node::Ary1(FloatOperAry1::Cos, a.ident),
            ),
            final(self).names_view() =~= old(self).names_view().push(None),
    {
        self.register_node_get_expr(Node::Ary1(FloatOperAry1::Cos, a.ident))
    }

    /// `sin(a)`.
    pub fn sin(&mut self, a: Expr) -> (r: Expr)
        requires
            old(self).wf(),
            a.ident.0 < old(self).nodes@.len(),
        ensures
            final(self).wf(),
            r.ident.0 == old(self).nodes@.len(),
            final(self).nodes@ =~= old(self).nodes@.push(
                Node::Ary1(FloatOperAry1::Sin, a.ident),
            ),
            final(self).names_view() =~= old(self).names_view().push(None),
    {
        self.register_node_get_expr(Node::Ary1(FloatOperAry1::Sin, a.ident))
    }

    /// `ln(a)`.
    pub fn ln(&mut self, a: Expr) -> (r: Expr)
        requires
            old(self).wf(),
            a.ident.0 < old(self).nodes@.len(),
        ensures
            final(self).wf(),
            r.ident.0 == old(self).nodes@.len(),
            final(self).nodes@ =~= old(self).nodes@.push(Node::Ary1(FloatOperAry1::Ln, a.ident)),
            final(self).names_view() =~= old(self).names_view().push(None),
    {
        self.register_node_get_expr(Node::Ary1(FloatOperAry1::Ln, a.ident))
    }

    /// `a^p` where the exponent `p` is another expression.
    pub fn pow(&mut self, a: Expr, p: Expr) -> (r: Expr)
        requires
            old(self).wf(),
            a.ident.0 < old(self).nodes@.len(),
            p.ident.0 < old(self).nodes@.len(),
        ensures
            final(self).wf(),
            r.ident.0 == old(self).nodes@.len(),
            final(self).nodes@ =~= old(self).nodes@.push(
                Node::Ary2(FloatOperAry2::Pow, a.ident, p.ident),
            ),
            final(self).names_view() =~= old(self).names_view().push(None),
    {
        self.register_node_get_expr(Node::Ary2(FloatOperAry2::Pow, a.ident, p.ident))
    }

    /// `a^b` where the exponent `b` is a constant integer.
    pub fn powi(&mut self, a: Expr, b: i32) -> (r: Expr)
        requires
            old(self).wf(),
            a.ident.0 < old(self).nodes@.len(),
        ensures
            final(self).wf(),
            r.ident.0 == old(self).nodes@.len(),
            final(self).nodes@ =~= old(self).nodes@.push(
                Node::Ary1(FloatOperAry1::PowI(b), a.ident),
            ),
            final(self).names_view() =~= old(self).names_view().push(None),
    {
        self.register_node_get_expr(Node::Ary1(FloatOperAry1::PowI(b), a.ident))
    }

    /// `relu(a)`.
    pub fn relu(&mut self, a: Expr) -> (r: Expr)
        requires
            old(self).wf(),
            a.ident.0 < old(self).nodes@.len(),
        ensures
            final(self).wf(),
            r.ident.0 == old(self).nodes@.len(),
            final(self).nodes@ =~= old(self).nodes@.push(
                Node::Ary1(FloatOperAry1::Relu, a.ident),
            ),
            final(self).names_view() =~= old(self).names_view().push(None),
    {
        self.register_node_get_expr(Node::Ary1(FloatOperAry1::Relu, a.ident))
    }
}

} // verus!
