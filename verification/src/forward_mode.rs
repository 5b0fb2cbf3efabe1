//! Automatic differentiation in forward mode: every expression carries a
//! pair of a value and a "dot" (its derivative with respect to the chosen
//! seed direction), and both are computed in one memoized pass. The code
//! works on any value type that implements [`Algebraic`].

use vstd::prelude::*;
use vstd::string::*;

verus! {

/// A type that can be used in a forward-mode computation. Each executable
/// method is tied to an abstract specification function, so the
/// evaluator's contracts can name the results. Implementations outside
/// this crate are not checked by the verifier; everything proved about the
/// evaluator holds relative to an implementation meeting these contracts.
/// Implementations supply the executable methods only: each specification
/// function has a default body that leaves it unconstrained, standing for
/// whatever the implementation actually computes.
pub trait Algebraic: Sized {
    /// Abstract meaning of [`Self::add`].
    open spec fn add_spec(self, other: Self) -> Self {
        arbitrary()
    }

    /// Abstract meaning of [`Self::sub`].
    open spec fn sub_spec(self, other: Self) -> Self {
        arbitrary()
    }

    /// Abstract meaning of [`Self::mul`].
    open spec fn mul_spec(self, other: Self) -> Self {
        arbitrary()
    }

    /// Abstract meaning of [`Self::div`].
    open spec fn div_spec(self, other: Self) -> Self {
        arbitrary()
    }

    /// Abstract meaning of [`Self::sin`].
    open spec fn sin_spec(self) -> Self {
        arbitrary()
    }

    /// Abstract meaning of [`Self::cos`].
    open spec fn cos_spec(self) -> Self {
        arbitrary()
    }

    /// Abstract meaning of [`Self::exp`].
    open spec fn exp_spec(self) -> Self {
        arbitrary()
    }

    /// Structural clone of the value.
    fn dup(&self) -> (r: Self)
        ensures
            r == *self,
    ;

    fn add(&self, other: &Self) -> (r: Self)
        ensures
            r == self.add_spec(*other),
    ;

    fn sub(&self, other: &Self) -> (r: Self)
        ensures
            r == self.sub_spec(*other),
    ;

    fn mul(&self, other: &Self) -> (r: Self)
        ensures
            r == self.mul_spec(*other),
    ;

    fn div(&self, other: &Self) -> (r: Self)
        ensures
            r == self.div_spec(*other),
    ;

    fn sin(&self) -> (r: Self)
        ensures
            r == self.sin_spec(),
    ;

    fn cos(&self) -> (r: Self)
        ensures
            r == self.cos_spec(),
    ;

    fn exp(&self) -> (r: Self)
        ensures
            r == self.exp_spec(),
    ;
}

/// A node of a forward-mode expression: a named input variable, or an
/// operation over earlier nodes.
pub enum Node {
    Variable(String),
    Add(usize, usize),
    Sub(usize, usize),
    Div(usize, usize),
    Mul(usize, usize),
    Sin(usize),
    Exp(usize),
}

/// A lightweight, copyable handle to a node registered in a [`State`].
#[derive(Clone, Copy, Debug)]
pub struct Expr {
    pub id: usize,
}

/// An input variable, with its name; a thin shim so the user does not need
/// to deal in nodes directly.
pub struct Variable(pub String);

impl Variable {
    pub fn new(name: &str) -> (r: Variable)
        ensures
            r.0@ == name@,
    {
        Variable(name.to_owned())
    }

    pub fn name(&self) -> (r: &str)
        ensures
            r@ == self.0@,
    {
        self.0.as_str()
    }

    /// Register this variable in a state and get an expression handle for
    /// it.
    pub fn as_expr<A: Algebraic>(&self, state: &mut State<A>) -> (r: Expr)
        requires
            old(state).wf(),
            !old(state).name_used(self.0@),
        ensures
            final(state).wf(),
            r.id == old(state).nodes@.len(),
            final(state).nodes@ =~= old(state).nodes@.push(Node::Variable(self.0)),
            final(state).values@ =~= old(state).values@.push(None),
    {
        state.variable(self)
    }
}

/// A binary operation tag copied out of the arena so the arena can be
/// mutated while the operands are evaluated.
enum FmBin {
    Add,
    Sub,
    Div,
    Mul,
}

/// A unary operation tag copied out of the arena.
enum FmUn {
    Sin,
    Exp,
}

/// The dependency description of an operation node.
enum FmPending {
    Bin(FmBin, usize, usize),
    Un(FmUn, usize),
}

impl Expr {
    /// Return the `(value, dot)` pair of the expression — its forward value
    /// and its derivative — computing and caching it on first use, so the
    /// same shared subexpression is not computed twice. Fails exactly when
    /// some variable the expression depends on has not been set.
    pub fn forward<A: Algebraic>(&self, state: &mut State<A>) -> (r: Result<A, String>)
        requires
            old(state).wf(),
            self.id < old(state).nodes@.len(),
        ensures
            final(state).wf(),
            final(state).nodes@ == old(state).nodes@,
            fm_evolution(old(state).nodes@, old(state).values@, final(state).values@),
            match r {
                Ok(v) => {
                    &&& fm_can_eval(old(state).nodes@, old(state).values@, self.id as int)
                    &&& v == fm_eval(old(state).nodes@, old(state).values@, self.id as int).0
                    &&& final(state).values@[self.id as int] == Some(
                        fm_eval(old(state).nodes@, old(state).values@, self.id as int),
                    )
                },
                Err(_) => !fm_can_eval(old(state).nodes@, old(state).values@, self.id as int),
            },
            old(state).values@[self.id as int] is Some ==> *final(state) == *old(state),
        decreases self.id,
    {
        let i = self.id;
        let ghost nodes = state.nodes@;
        let ghost v0 = state.values@;
        let cached: Option<A> = match &state.values[i] {
            Some(p) => Some(p.0.dup()),
            None => None,
        };
        if let Some(v) = cached {
            return Ok(v);
        }
        let pending: FmPending = match &state.nodes[i] {
            Node::Variable(name) => {
                let mut m = "Variable ".to_owned();
                m.append(name.as_str());
                m.append(" is not set");
                return Err(m);
            },
            Node::Add(a, b) => FmPending::Bin(FmBin::Add, *a, *b),
            Node::Sub(a, b) => FmPending::Bin(FmBin::Sub, *a, *b),
            Node::Div(a, b) => FmPending::Bin(FmBin::Div, *a, *b),
            Node::Mul(a, b) => FmPending::Bin(FmBin::Mul, *a, *b),
            Node::Sin(a) => FmPending::Un(FmUn::Sin, *a),
            Node::Exp(a) => FmPending::Un(FmUn::Exp, *a),
        };
        match pending {
            FmPending::Bin(op, a, b) => {
                let lhs = Expr { id: a };
                match lhs.forward(state) {
                    Ok(_) => {},
                    Err(e) => {
                        return Err(e);
                    },
                }
                let ghost v1 = state.values@;
                proof {
                    lemma_fm_evolution_eval(nodes, v0, v1, b as int);
                }
                let rhs = Expr { id: b };
                match rhs.forward(state) {
                    Ok(_) => {},
                    Err(e) => {
                        proof {
                            lemma_fm_evolution_trans(nodes, v0, v1, state.values@);
                        }
                        return Err(e);
                    },
                }
                let ghost v2 = state.values@;
                proof {
                    lemma_fm_evolution_trans(nodes, v0, v1, v2);
                    assert(v2[a as int] == Some(fm_eval(nodes, v0, a as int)));
                    assert(v2[b as int] == Some(fm_eval(nodes, v1, b as int)));
                    assert(fm_eval(nodes, v1, b as int) == fm_eval(nodes, v0, b as int));
                }
                let (va, da) = match &state.values[a] {
                    Some(p) => (p.0.dup(), p.1.dup()),
                    None => vstd::pervasive::unreached(),
                };
                let (vb, db) = match &state.values[b] {
                    Some(p) => (p.0.dup(), p.1.dup()),
                    None => vstd::pervasive::unreached(),
                };
                let (v, d): (A, A) = match op {
                    FmBin::Add => (va.add(&vb), da.add(&db)),
                    FmBin::Sub => (va.sub(&vb), da.sub(&db)),
                    FmBin::Div => {
                        let den = vb.mul(&vb);
                        let num = da.mul(&vb).sub(&va.mul(&db));
                        (va.div(&vb), num.div(&den))
                    },
                    FmBin::Mul => (va.mul(&vb), va.mul(&db).add(&da.mul(&vb))),
                };
                proof {
                    assert((v, d) == fm_eval(nodes, v0, i as int));
                    lemma_fm_evolution_eval(nodes, v0, v2, i as int);
                }
                let out = v.dup();
                state.values.set(i, Some((v, d)));
                proof {
                    assert(fm_evolution(nodes, v2, state.values@));
                    lemma_fm_evolution_trans(nodes, v0, v2, state.values@);
                }
                Ok(out)
            },
            FmPending::Un(op, a) => {
                let arg = Expr { id: a };
                match arg.forward(state) {
                    Ok(_) => {},
                    Err(e) => {
                        return Err(e);
                    },
                }
                let ghost v2 = state.values@;
                proof {
                    assert(v2[a as int] == Some(fm_eval(nodes, v0, a as int)));
                }
                let (va, da) = match &state.values[a] {
                    Some(p) => (p.0.dup(), p.1.dup()),
                    None => vstd::pervasive::unreached(),
                };
                let (v, d): (A, A) = match op {
                    FmUn::Sin => (va.sin(), va.cos().mul(&da)),
                    FmUn::Exp => {
                        let va_exp = va.exp();
                        let dd = va_exp.dup().mul(&da);
                        (va_exp, dd)
                    },
                };
                proof {
                    assert((v, d) == fm_eval(nodes, v0, i as int));
                    lemma_fm_evolution_eval(nodes, v0, v2, i as int);
                }
                let out = v.dup();
                state.values.set(i, Some((v, d)));
                proof {
                    assert(fm_evolution(nodes, v2, state.values@));
                    lemma_fm_evolution_trans(nodes, v0, v2, state.values@);
                }
                Ok(out)
            },
        }
    }

    /// Return the cached derivative of the expression. One needs to first
    /// run [`Self::forward`] to compute it; before that, this fails.
    pub fn dot<A: Algebraic>(&self, state: &State<A>) -> (r: Result<A, String>)
        requires
            self.id < state.values@.len(),
        ensures
            match r {
                Ok(d) => match state.values@[self.id as int] {
                    Some(p) => d == p.1,
                    None => false,
                },
                Err(_) => state.values@[self.id as int] is None,
            },
    {
        match &state.values[self.id] {
            Some(p) => Ok(p.1.dup()),
            None => Err("Missing dot for state, did you forget to run .forward()?".to_owned()),
        }
    }
}

/// Whether the memoized pass can resolve node `i` of the arena: its pair is
/// already cached, or it is an operation whose dependencies can in turn be
/// resolved. A variable with no value set cannot be resolved.
pub open spec fn fm_can_eval<A: Algebraic>(
    nodes: Seq<Node>,
    values: Seq<Option<(A, A)>>,
    i: int,
) -> bool
    decreases i,
{
    if 0 <= i < nodes.len() && 0 <= i < values.len() {
        values[i] is Some || match nodes[i] {
            Node::Variable(_) => false,
            Node::Add(a, b) => a < i && b < i && fm_can_eval(nodes, values, a as int)
                && fm_can_eval(nodes, values, b as int),
            Node::Sub(a, b) => a < i && b < i && fm_can_eval(nodes, values, a as int)
                && fm_can_eval(nodes, values, b as int),
            Node::Div(a, b) => a < i && b < i && fm_can_eval(nodes, values, a as int)
                && fm_can_eval(nodes, values, b as int),
            Node::Mul(a, b) => a < i && b < i && fm_can_eval(nodes, values, a as int)
                && fm_can_eval(nodes, values, b as int),
            Node::Sin(a) => a < i && fm_can_eval(nodes, values, a as int),
            Node::Exp(a) => a < i && fm_can_eval(nodes, values, a as int),
        }
    } else {
        false
    }
}

/// The `(value, dot)` pair the memoized pass computes for node `i`: the
/// cached pair when one is present, and otherwise the forward-mode rule of
/// the operation over the recursively evaluated dependencies — the dot of
/// a sum is the sum of the dots, products and quotients follow the product
/// and quotient rules, and `sin`/`exp` follow the chain rule. Only
/// meaningful when [`fm_can_eval`] holds.
pub open spec fn fm_eval<A: Algebraic>(
    nodes: Seq<Node>,
    values: Seq<Option<(A, A)>>,
    i: int,
) -> (A, A)
    decreases i,
{
    if 0 <= i < nodes.len() && 0 <= i < values.len() {
        match values[i] {
            Some(p) => p,
            None => match nodes[i] {
                Node::Variable(_) => arbitrary(),
                Node::Add(a, b) => if a < i && b < i {
                    let pa = fm_eval(nodes, values, a as int);
                    let pb = fm_eval(nodes, values, b as int);
                    (pa.0.add_spec(pb.0), pa.1.add_spec(pb.1))
                } else {
                    arbitrary()
                },
                Node::Sub(a, b) => if a < i && b < i {
                    let pa = fm_eval(nodes, values, a as int);
                    let pb = fm_eval(nodes, values, b as int);
                    (pa.0.sub_spec(pb.0), pa.1.sub_spec(pb.1))
                } else {
                    arbitrary()
                },
                Node::Div(a, b) => if a < i && b < i {
                    let pa = fm_eval(nodes, values, a as int);
                    let pb = fm_eval(nodes, values, b as int);
                    (
                        pa.0.div_spec(pb.0),
                        pa.1.mul_spec(pb.0).sub_spec(pa.0.mul_spec(pb.1)).div_spec(
                            pb.0.mul_spec(pb.0),
                        ),
                    )
                } else {
                    arbitrary()
                },
                Node::Mul(a, b) => if a < i && b < i {
                    let pa = fm_eval(nodes, values, a as int);
                    let pb = fm_eval(nodes, values, b as int);
                    (pa.0.mul_spec(pb.0), pa.0.mul_spec(pb.1).add_spec(pa.1.mul_spec(pb.0)))
                } else {
                    arbitrary()
                },
                Node::Sin(a) => if a < i {
                    let pa = fm_eval(nodes, values, a as int);
                    (pa.0.sin_spec(), pa.0.cos_spec().mul_spec(pa.1))
                } else {
                    arbitrary()
                },
                Node::Exp(a) => if a < i {
                    let pa = fm_eval(nodes, values, a as int);
                    (pa.0.exp_spec(), pa.0.exp_spec().mul_spec(pa.1))
                } else {
                    arbitrary()
                },
            },
        }
    } else {
        arbitrary()
    }
}

/// How the memoized pass may change the cache: every pair that was present
/// stays exactly as it was, and every newly appearing pair is the
/// evaluation of its node against the pre-state.
pub open spec fn fm_evolution<A: Algebraic>(
    nodes: Seq<Node>,
    v1: Seq<Option<(A, A)>>,
    v2: Seq<Option<(A, A)>>,
) -> bool {
    &&& v2.len() == v1.len()
    &&& forall|j: int| 0 <= j < v1.len() && (#[trigger] v1[j]) is Some ==> v2[j] == v1[j]
    &&& forall|j: int|
        0 <= j < v1.len() && (#[trigger] v2[j]) is Some ==> v1[j] is Some || (fm_can_eval(
            nodes,
            v1,
            j,
        ) && v2[j] == Some(fm_eval(nodes, v1, j)))
}

/// Dependency edges of the arena point strictly downward.
pub open spec fn fm_arena_wf(nodes: Seq<Node>) -> bool {
    forall|i: int|
        0 <= i < nodes.len() ==> match #[trigger] nodes[i] {
            Node::Variable(_) => true,
            Node::Add(a, b) => a < i && b < i,
            Node::Sub(a, b) => a < i && b < i,
            Node::Div(a, b) => a < i && b < i,
            Node::Mul(a, b) => a < i && b < i,
            Node::Sin(a) => a < i,
            Node::Exp(a) => a < i,
        }
}

/// Caches related by [`fm_evolution`] agree on resolvability and on
/// evaluation: filling memoized pairs never changes what any node
/// evaluates to.
pub proof fn lemma_fm_evolution_eval<A: Algebraic>(
    nodes: Seq<Node>,
    v1: Seq<Option<(A, A)>>,
    v2: Seq<Option<(A, A)>>,
    i: int,
)
    requires
        fm_arena_wf(nodes),
        v1.len() == nodes.len(),
        fm_evolution(nodes, v1, v2),
    ensures
        fm_can_eval(nodes, v1, i) <==> fm_can_eval(nodes, v2, i),
        fm_can_eval(nodes, v1, i) ==> fm_eval(nodes, v2, i) == fm_eval(nodes, v1, i),
    decreases i,
{
    if 0 <= i < nodes.len() {
        match nodes[i] {
            Node::Variable(_) => {},
            Node::Add(a, b) => {
                lemma_fm_evolution_eval(nodes, v1, v2, a as int);
                lemma_fm_evolution_eval(nodes, v1, v2, b as int);
            },
            Node::Sub(a, b) => {
                lemma_fm_evolution_eval(nodes, v1, v2, a as int);
                lemma_fm_evolution_eval(nodes, v1, v2, b as int);
            },
            Node::Div(a, b) => {
                lemma_fm_evolution_eval(nodes, v1, v2, a as int);
                lemma_fm_evolution_eval(nodes, v1, v2, b as int);
            },
            Node::Mul(a, b) => {
                lemma_fm_evolution_eval(nodes, v1, v2, a as int);
                lemma_fm_evolution_eval(nodes, v1, v2, b as int);
            },
            Node::Sin(a) => {
                lemma_fm_evolution_eval(nodes, v1, v2, a as int);
            },
            Node::Exp(a) => {
                lemma_fm_evolution_eval(nodes, v1, v2, a as int);
            },
        }
    }
}

/// [`fm_evolution`] composes.
pub proof fn lemma_fm_evolution_trans<A: Algebraic>(
    nodes: Seq<Node>,
    v0: Seq<Option<(A, A)>>,
    v1: Seq<Option<(A, A)>>,
    v2: Seq<Option<(A, A)>>,
)
    requires
        fm_arena_wf(nodes),
        v0.len() == nodes.len(),
        fm_evolution(nodes, v0, v1),
        fm_evolution(nodes, v1, v2),
    ensures
        fm_evolution(nodes, v0, v2),
{
    assert forall|j: int|
        0 <= j < v0.len() && (#[trigger] v2[j]) is Some implies v0[j] is Some || (fm_can_eval(
        nodes,
        v0,
        j,
    ) && v2[j] == Some(fm_eval(nodes, v0, j))) by {
        if v1[j] is Some {
            assert(v2[j] == v1[j]);
        } else {
            lemma_fm_evolution_eval(nodes, v0, v1, j);
        }
    }
}

/// The arena of a forward-mode computation and its memoized cache of
/// `(value, dot)` pairs. Values are supplied with
/// [`Self::set_expr_value`] and computed with [`Expr::forward`].
pub struct State<A> {
    /// Node arena; the node with identifier `i` lives at index `i`.
    pub nodes: Vec<Node>,
    /// The cached pair of forward value and dot value, parallel to
    /// `nodes`.
    pub values: Vec<Option<(A, A)>>,
}

impl<A: Algebraic> State<A> {
    /// State invariant: the arenas run in parallel and dependency edges
    /// point strictly downward.
    pub open spec fn wf(self) -> bool {
        &&& self.values@.len() == self.nodes@.len()
        &&& fm_arena_wf(self.nodes@)
    }

    /// Whether some variable node already carries `name`.
    pub open spec fn name_used(self, name: Seq<char>) -> bool {
        exists|i: int|
            0 <= i < self.nodes@.len() && match #[trigger] self.nodes@[i] {
                Node::Variable(n) => n@ == name,
                _ => false,
            }
    }

    /// An empty state.
    pub fn new() -> (r: State<A>)
        ensures
            r.nodes@ =~= Seq::<Node>::empty(),
            r.values@ =~= Seq::<Option<(A, A)>>::empty(),
            r.wf(),
    {
        State { nodes: Vec::new(), values: Vec::new() }
    }

    /// Register a variable node under a fresh identifier; two variables
    /// with the same name would denote the same input, so a name can only
    /// be registered once.
    pub fn variable(&mut self, v: &Variable) -> (r: Expr)
        requires
            old(self).wf(),
            !old(self).name_used(v.0@),
        ensures
            final(self).wf(),
            r.id == old(self).nodes@.len(),
            final(self).nodes@ =~= old(self).nodes@.push(Node::Variable(v.0)),
            final(self).values@ =~= old(self).values@.push(None),
    {
        let id = self.nodes.len();
        self.nodes.push(Node::Variable(v.0.clone()));
        self.values.push(None);
        proof {
            assert forall|i: int| 0 <= i < self.nodes@.len() implies match #[trigger] self.nodes@[i] {
                Node::Variable(_) => true,
                Node::Add(a, b) => a < i && b < i,
                Node::Sub(a, b) => a < i && b < i,
                Node::Div(a, b) => a < i && b < i,
                Node::Mul(a, b) => a < i && b < i,
                Node::Sin(a) => a < i,
                Node::Exp(a) => a < i,
            } by {
                if i < old(self).nodes@.len() {
                    assert(old(self).nodes@[i] == self.nodes@[i]);
                }
            }
        }
        Expr { id }
    }

    /// Set (or overwrite) the cached value and dot of an expression. Used
    /// to seed the input variables — the dot of the variable chosen as
    /// differentiation direction is set to one, the others to zero.
    pub fn set_expr_value(&mut self, expr: Expr, value: A, dot: A)
        requires
            old(self).wf(),
            expr.id < old(self).values@.len(),
        ensures
            final(self).wf(),
            final(self).nodes@ == old(self).nodes@,
            final(self).values@ =~= old(self).values@.update(
                expr.id as int,
                Some((value, dot)),
            ),
    {
        self.values.set(expr.id, Some((value, dot)));
    }

    /// Read the cached pair of an expression.
    pub fn get(&self, expr: Expr) -> (r: Option<(A, A)>)
        requires
            expr.id < self.values@.len(),
        ensures
            r == self.values@[expr.id as int],
    {
        match &self.values[expr.id] {
            Some(p) => Some((p.0.dup(), p.1.dup())),
            None => None,
        }
    }

    /// Register `lhs + rhs`.
    pub fn add(&mut self, lhs: Expr, rhs: Expr) -> (r: Expr)
        requires
            old(self).wf(),
            lhs.id < old(self).nodes@.len(),
            rhs.id < old(self).nodes@.len(),
        ensures
            final(self).wf(),
            r.id == old(self).nodes@.len(),
            final(self).nodes@ =~= old(self).nodes@.push(Node::Add(lhs.id, rhs.id)),
            final(self).values@ =~= old(self).values@.push(None),
    {
        self.push_node(Node::Add(lhs.id, rhs.id))
    }

    /// Register `lhs - rhs`.
    pub fn sub(&mut self, lhs: Expr, rhs: Expr) -> (r: Expr)
        requires
            old(self).wf(),
            lhs.id < old(self).nodes@.len(),
            rhs.id < old(self).nodes@.len(),
        ensures
            final(self).wf(),
            r.id == old(self).nodes@.len(),
            final(self).nodes@ =~= old(self).nodes@.push(Node::Sub(lhs.id, rhs.id)),
            final(self).values@ =~= old(self).values@.push(None),
    {
        self.push_node(Node::Sub(lhs.id, rhs.id))
    }

    /// Register `lhs / rhs`.
    pub fn div(&mut self, lhs: Expr, rhs: Expr) -> (r: Expr)
        requires
            old(self).wf(),
            lhs.id < old(self).nodes@.len(),
            rhs.id < old(self).nodes@.len(),
        ensures
            final(self).wf(),
            r.id == old(self).nodes@.len(),
            final(self).nodes@ =~= old(self).nodes@.push(Node::Div(lhs.id, rhs.id)),
            final(self).values@ =~= old(self).values@.push(None),
    {
        self.push_node(Node::Div(lhs.id, rhs.id))
    }

    /// Register `lhs * rhs`.
    pub fn mul(&mut self, lhs: Expr, rhs: Expr) -> (r: Expr)
        requires
            old(self).wf(),
            lhs.id < old(self).nodes@.len(),
            rhs.id < old(self).nodes@.len(),
        ensures
            final(self).wf(),
            r.id == old(self).nodes@.len(),
            final(self).nodes@ =~= old(self).nodes@.push(Node::Mul(lhs.id, rhs.id)),
            final(self).values@ =~= old(self).values@.push(None),
    {
        self.push_node(Node::Mul(lhs.id, rhs.id))
    }

    /// Register `sin(a)`.
    pub fn sin(&mut self, a: Expr) -> (r: Expr)
        requires
            old(self).wf(),
            a.id < old(self).nodes@.len(),
        ensures
            final(self).wf(),
            r.id == old(self).nodes@.len(),
            final(self).nodes@ =~= old(self).nodes@.push(Node::Sin(a.id)),
            final(self).values@ =~= old(self).values@.push(None),
    {
        self.push_node(Node::Sin(a.id))
    }

    /// Register `exp(a)`.
    pub fn exp(&mut self, a: Expr) -> (r: Expr)
        requires
            old(self).wf(),
            a.id < old(self).nodes@.len(),
        ensures
            final(self).wf(),
            r.id == old(self).nodes@.len(),
            final(self).nodes@ =~= old(self).nodes@.push(Node::Exp(a.id)),
            final(self).values@ =~= old(self).values@.push(None),
    {
        self.push_node(Node::Exp(a.id))
    }

    /// Append one operation node whose dependencies already exist.
    fn push_node(&mut self, node: Node) -> (r: Expr)
        requires
            old(self).wf(),
            match node {
                Node::Variable(_) => false,
                Node::Add(a, b) => a < old(self).nodes@.len() && b < old(self).nodes@.len(),
                Node::Sub(a, b) => a < old(self).nodes@.len() && b < old(self).nodes@.len(),
                Node::Div(a, b) => a < old(self).nodes@.len() && b < old(self).nodes@.len(),
                Node::Mul(a, b) => a < old(self).nodes@.len() && b < old(self).nodes@.len(),
                Node::Sin(a) => a < old(self).nodes@.len(),
                Node::Exp(a) => a < old(self).nodes@.len(),
            },
        ensures
            final(self).wf(),
            r.id == old(self).nodes@.len(),
            final(self).nodes@ =~= old(self).nodes@.push(node),
            final(self).values@ =~= old(self).values@.push(None),
    {
        let id = self.nodes.len();
        self.nodes.push(node);
        self.values.push(None);
        proof {
            assert forall|i: int| 0 <= i < self.nodes@.len() implies match #[trigger] self.nodes@[i] {
                Node::Variable(_) => true,
                Node::Add(a, b) => a < i && b < i,
                Node::Sub(a, b) => a < i && b < i,
                Node::Div(a, b) => a < i && b < i,
                Node::Mul(a, b) => a < i && b < i,
                Node::Sin(a) => a < i,
                Node::Exp(a) => a < i,
            } by {
                if i < old(self).nodes@.len() {
                    assert(old(self).nodes@[i] == self.nodes@[i]);
                }
            }
        }
        Expr { id }
    }
}

} // verus!
