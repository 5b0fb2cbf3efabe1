//! The computation graph: the frozen form of an expression builder, with
//! per-node numeric state, memoized forward evaluation, reverse-mode
//! gradient accumulation, and the lifecycle operations of a training loop.

use crate::core_syntax::{ComputValue, ExprBuilder, Ident, Node, Operator};
use vstd::prelude::*;

verus! {

/// The mutable numeric state attached to a node at freeze time.
pub struct Tensors<F> {
    /// Forward result, present once computed; cleared by the reset
    /// operations.
    pub primal: Option<F>,
    /// Accumulated adjoint together with the number of contributions added
    /// since the last reset. The count is what allows
    /// [`ComputGraph::update_params_lr`] to apply a mean gradient rather
    /// than a raw sum.
    pub adjoin: Option<(F, u32)>,
}

impl<F> Default for Tensors<F> {
    /// Fresh state: no primal, no adjoint.
    fn default() -> (r: Self)
        ensures
            r.primal is None,
            r.adjoin is None,
    {
        Tensors { primal: None, adjoin: None }
    }
}

/// An evaluation record: a node of the frozen graph together with its
/// numeric state. Constants carry no mutable state at all — their value is
/// immutable and always present, and they never receive backward
/// contributions.
#[allow(inconsistent_fields)]
pub enum Node2<F, OP1, OP2> {
    Const(F),
    Variable { name: String, tensors: Tensors<F> },
    Parameter { name: Option<String>, tensors: Tensors<F> },
    Ary1 { oper: OP1, arg1: Ident, tensors: Tensors<F> },
    Ary2 { oper: OP2, arg1: Ident, arg2: Ident, tensors: Tensors<F> },
}

impl<F, OP1, OP2> Node2<F, OP1, OP2> {
    /// The cached primal, where a constant's value counts as always cached.
    pub open spec fn spec_primal(self) -> Option<F> {
        match self {
            Node2::Const(v) => Some(v),
            Node2::Variable { tensors, .. } => tensors.primal,
            Node2::Parameter { tensors, .. } => tensors.primal,
            Node2::Ary1 { tensors, .. } => tensors.primal,
            Node2::Ary2 { tensors, .. } => tensors.primal,
        }
    }

    /// The accumulated adjoint and contribution count; constants have none.
    pub open spec fn spec_adjoin(self) -> Option<(F, u32)> {
        match self {
            Node2::Const(_) => None,
            Node2::Variable { tensors, .. } => tensors.adjoin,
            Node2::Parameter { tensors, .. } => tensors.adjoin,
            Node2::Ary1 { tensors, .. } => tensors.adjoin,
            Node2::Ary2 { tensors, .. } => tensors.adjoin,
        }
    }

    /// The contribution count alone (zero when no adjoint is present).
    pub open spec fn spec_count(self) -> nat {
        match self.spec_adjoin() {
            Some((_, c)) => c as nat,
            None => 0,
        }
    }

    /// Two records describe the same node: same variant, operator identity,
    /// dependency edges and name; only the numeric state may differ.
    pub open spec fn same_node(self, other: Self) -> bool {
        match (self, other) {
            (Node2::Const(v), Node2::Const(w)) => v == w,
            (
                Node2::Variable { name: n1, .. },
                Node2::Variable { name: n2, .. },
            ) => n1 == n2,
            (
                Node2::Parameter { name: n1, .. },
                Node2::Parameter { name: n2, .. },
            ) => n1 == n2,
            (
                Node2::Ary1 { oper: o1, arg1: a1, .. },
                Node2::Ary1 { oper: o2, arg1: a2, .. },
            ) => o1 == o2 && a1 == a2,
            (
                Node2::Ary2 { oper: o1, arg1: a1, arg2: b1, .. },
                Node2::Ary2 { oper: o2, arg1: a2, arg2: b2, .. },
            ) => o1 == o2 && a1 == a2 && b1 == b2,
            _ => false,
        }
    }

    /// The cached primal, where a constant's value counts as always cached.
    pub fn primal_or_const(&self) -> (r: Option<&F>)
        ensures
            match r {
                Some(p) => self.spec_primal() == Some(*p),
                None => self.spec_primal() is None,
            },
    {
        match self {
            Node2::Const(v) => Some(v),
            Node2::Variable { tensors, .. } => tensors.primal.as_ref(),
            Node2::Parameter { tensors, .. } => tensors.primal.as_ref(),
            Node2::Ary1 { tensors, .. } => tensors.primal.as_ref(),
            Node2::Ary2 { tensors, .. } => tensors.primal.as_ref(),
        }
    }
}

/// Arena well-formedness: every operation's dependency edges point strictly
/// downward, so the graph is acyclic and recursion over identifiers
/// terminates.
pub open spec fn arena_wf<F, OP1, OP2>(s: Seq<Node2<F, OP1, OP2>>) -> bool {
    forall|i: int|
        0 <= i < s.len() ==> match #[trigger] s[i] {
            Node2::Const(_) => true,
            Node2::Variable { .. } => true,
            Node2::Parameter { .. } => true,
            Node2::Ary1 { arg1, .. } => arg1.0 < i,
            Node2::Ary2 { arg1, arg2, .. } => arg1.0 < i && arg2.0 < i,
        }
}

/// Whether the forward pass can resolve node `i`: its primal is already
/// present (or it is a constant), or it is an operation whose dependencies
/// can in turn be resolved. A variable or parameter whose value was never
/// set cannot be resolved.
pub open spec fn can_eval_at<F, OP1, OP2>(s: Seq<Node2<F, OP1, OP2>>, i: int) -> bool
    decreases i,
{
    if 0 <= i < s.len() {
        s[i].spec_primal() is Some || match s[i] {
            Node2::Ary1 { arg1, .. } => arg1.0 < i && can_eval_at(s, arg1.0 as int),
            Node2::Ary2 { arg1, arg2, .. } => arg1.0 < i && arg2.0 < i && can_eval_at(
                s,
                arg1.0 as int,
            ) && can_eval_at(s, arg2.0 as int),
            _ => false,
        }
    } else {
        false
    }
}

/// The value the forward pass returns for node `i`: the cached primal when
/// one is present, and otherwise the backend's forward rule applied to the
/// recursively evaluated dependencies. Only meaningful when
/// [`can_eval_at`] holds.
pub open spec fn eval_at<F, OP1, OP2, C>(c: C, s: Seq<Node2<F, OP1, OP2>>, i: int) -> F where
    F: ComputValue,
    OP1: Operator,
    OP2: Operator,
    C: Calculator<OP1, OP2, F>,

    decreases i,
{
    if 0 <= i < s.len() {
        match s[i].spec_primal() {
            Some(v) => v,
            None => match s[i] {
                Node2::Ary1 { oper, arg1, .. } => if arg1.0 < i {
                    c.forward1_spec(oper, eval_at(c, s, arg1.0 as int))
                } else {
                    arbitrary()
                },
                Node2::Ary2 { oper, arg1, arg2, .. } => if arg1.0 < i && arg2.0 < i {
                    c.forward2_spec(
                        oper,
                        eval_at(c, s, arg1.0 as int),
                        eval_at(c, s, arg2.0 as int),
                    )
                } else {
                    arbitrary()
                },
                _ => arbitrary(),
            },
        }
    } else {
        arbitrary()
    }
}

/// How a forward pass may change the graph's state: the topology and all
/// adjoints are untouched, every primal that was present stays exactly as
/// it was (memoization: a primal is computed at most once per reset cycle),
/// and every newly appearing primal is the evaluation of its node against
/// the pre-state.
pub open spec fn forward_evolution<F, OP1, OP2, C>(
    c: C,
    s1: Seq<Node2<F, OP1, OP2>>,
    s2: Seq<Node2<F, OP1, OP2>>,
) -> bool where F: ComputValue, OP1: Operator, OP2: Operator, C: Calculator<OP1, OP2, F> {
    &&& s2.len() == s1.len()
    &&& forall|j: int| 0 <= j < s1.len() ==> (#[trigger] s2[j]).same_node(s1[j])
    &&& forall|j: int| 0 <= j < s1.len() ==> (#[trigger] s2[j]).spec_adjoin() == s1[j].spec_adjoin()
    &&& forall|j: int|
        0 <= j < s1.len() && (#[trigger] s1[j]).spec_primal() is Some ==> s2[j].spec_primal()
            == s1[j].spec_primal()
    &&& forall|j: int|
        0 <= j < s1.len() && (#[trigger] s2[j]).spec_primal() is Some ==> s1[j].spec_primal()
            is Some || (can_eval_at(s1, j) && s2[j].spec_primal() == Some(eval_at(c, s1, j)))
}

/// Records related by [`forward_evolution`] agree on resolvability and on
/// evaluation: filling memoized primals never changes what any node
/// evaluates to.
pub proof fn lemma_forward_evolution_eval<F, OP1, OP2, C>(
    c: C,
    s1: Seq<Node2<F, OP1, OP2>>,
    s2: Seq<Node2<F, OP1, OP2>>,
    i: int,
) where F: ComputValue, OP1: Operator, OP2: Operator, C: Calculator<OP1, OP2, F>
    requires
        arena_wf(s1),
        forward_evolution(c, s1, s2),
    ensures
        can_eval_at(s1, i) <==> can_eval_at(s2, i),
        can_eval_at(s1, i) ==> eval_at(c, s2, i) == eval_at(c, s1, i),
    decreases i,
{
    if 0 <= i < s1.len() {
        assert(s2[i].same_node(s1[i]));
        match s1[i] {
            Node2::Ary1 { arg1, .. } => {
                lemma_forward_evolution_eval(c, s1, s2, arg1.0 as int);
            },
            Node2::Ary2 { arg1, arg2, .. } => {
                lemma_forward_evolution_eval(c, s1, s2, arg1.0 as int);
                lemma_forward_evolution_eval(c, s1, s2, arg2.0 as int);
            },
            _ => {},
        }
    }
}

/// [`forward_evolution`] composes: two forward passes in a row are one
/// forward evolution of the first state.
pub proof fn lemma_forward_evolution_trans<F, OP1, OP2, C>(
    c: C,
    s0: Seq<Node2<F, OP1, OP2>>,
    s1: Seq<Node2<F, OP1, OP2>>,
    s2: Seq<Node2<F, OP1, OP2>>,
) where F: ComputValue, OP1: Operator, OP2: Operator, C: Calculator<OP1, OP2, F>
    requires
        arena_wf(s0),
        forward_evolution(c, s0, s1),
        forward_evolution(c, s1, s2),
    ensures
        forward_evolution(c, s0, s2),
{
    assert forall|j: int|
        0 <= j < s0.len() && (#[trigger] s2[j]).spec_primal() is Some implies s0[j].spec_primal()
        is Some || (can_eval_at(s0, j) && s2[j].spec_primal() == Some(eval_at(c, s0, j))) by {
        if s1[j].spec_primal() is Some {
            assert(s2[j].spec_primal() == s1[j].spec_primal());
        } else {
            lemma_forward_evolution_eval(c, s0, s1, j);
        }
    }
}

/// The cached primals are closed under dependencies: an operation's primal
/// is only ever present when the primals of its operands are present too.
/// Every state the graph can reach satisfies this — the forward pass
/// caches a node only after its operands, the resets clear all operation
/// primals together, and the other operations only touch leaves — and it
/// is what makes a computed output ready for the backward pass.
pub open spec fn primal_closed<F, OP1, OP2>(s: Seq<Node2<F, OP1, OP2>>) -> bool {
    forall|j: int|
        0 <= j < s.len() ==> match #[trigger] s[j] {
            Node2::Ary1 { arg1, .. } => (s[j].spec_primal() is Some && arg1.0 < j) ==> s[
                arg1.0 as int
            ].spec_primal() is Some,
            Node2::Ary2 { arg1, arg2, .. } => (s[j].spec_primal() is Some && arg1.0 < j
                && arg2.0 < j) ==> (s[arg1.0 as int].spec_primal() is Some && s[
                arg2.0 as int
            ].spec_primal() is Some),
            _ => true,
        }
}

/// In a well-formed, dependency-closed state, any node whose primal is
/// present is ready for a backward pass seeded at it.
pub proof fn lemma_ready_from_closed<F: ComputValue, OP1, OP2>(
    s: Seq<Node2<F, OP1, OP2>>,
    i: int,
)
    requires
        arena_wf(s),
        primal_closed(s),
        0 <= i < s.len(),
        s[i].spec_primal() is Some,
    ensures
        backward_ready(s, i),
    decreases i,
{
    match s[i] {
        Node2::Ary1 { arg1, .. } => {
            lemma_ready_from_closed(s, arg1.0 as int);
        },
        Node2::Ary2 { arg1, arg2, .. } => {
            lemma_ready_from_closed(s, arg1.0 as int);
            lemma_ready_from_closed(s, arg2.0 as int);
        },
        _ => {},
    }
}

/// Dependency-closedness of the primals survives any change that leaves
/// every operation node alone and only ever adds (never removes) a leaf's
/// primal.
pub proof fn lemma_closed_leaf_changes<F, OP1, OP2>(
    s1: Seq<Node2<F, OP1, OP2>>,
    s2: Seq<Node2<F, OP1, OP2>>,
)
    requires
        primal_closed(s1),
        s2.len() == s1.len(),
        forall|j: int|
            0 <= j < s1.len() ==> (#[trigger] s2[j]) == s1[j] || (!(s1[j] is Ary1) && !(s1[j]
                is Ary2) && !(s2[j] is Ary1) && !(s2[j] is Ary2) && (s1[j].spec_primal() is Some
                ==> s2[j].spec_primal() is Some)),
    ensures
        primal_closed(s2),
{
    assert forall|j: int| 0 <= j < s2.len() implies match #[trigger] s2[j] {
        Node2::Ary1 { arg1, .. } => (s2[j].spec_primal() is Some && arg1.0 < j) ==> s2[
            arg1.0 as int
        ].spec_primal() is Some,
        Node2::Ary2 { arg1, arg2, .. } => (s2[j].spec_primal() is Some && arg1.0 < j && arg2.0
            < j) ==> (s2[arg1.0 as int].spec_primal() is Some && s2[arg2.0 as int].spec_primal()
            is Some),
        _ => true,
    } by {
        if s2[j] is Ary1 || s2[j] is Ary2 {
            assert(s2[j] == s1[j]);
        }
    }
}

/// Dependency-closedness of the primals survives caching one operation
/// node's primal, provided the primals of its operands are already
/// present.
pub proof fn lemma_closed_cache<F, OP1, OP2>(
    s1: Seq<Node2<F, OP1, OP2>>,
    s2: Seq<Node2<F, OP1, OP2>>,
    i: int,
)
    requires
        primal_closed(s1),
        s2.len() == s1.len(),
        0 <= i < s1.len(),
        forall|j: int| 0 <= j < s1.len() && j != i ==> (#[trigger] s2[j]) == s1[j],
        s2[i].same_node(s1[i]),
        s2[i].spec_primal() is Some,
        match s1[i] {
            Node2::Ary1 { arg1, .. } => arg1.0 < i && s1[arg1.0 as int].spec_primal() is Some,
            Node2::Ary2 { arg1, arg2, .. } => arg1.0 < i && arg2.0 < i && s1[
                arg1.0 as int
            ].spec_primal() is Some && s1[arg2.0 as int].spec_primal() is Some,
            _ => true,
        },
    ensures
        primal_closed(s2),
{
    assert forall|j: int| 0 <= j < s2.len() implies match #[trigger] s2[j] {
        Node2::Ary1 { arg1, .. } => (s2[j].spec_primal() is Some && arg1.0 < j) ==> s2[
            arg1.0 as int
        ].spec_primal() is Some,
        Node2::Ary2 { arg1, arg2, .. } => (s2[j].spec_primal() is Some && arg1.0 < j && arg2.0
            < j) ==> (s2[arg1.0 as int].spec_primal() is Some && s2[arg2.0 as int].spec_primal()
            is Some),
        _ => true,
    } by {
        if j != i {
            assert(s2[j] == s1[j]);
        }
    }
}

/// Dependency-closedness only depends on the structure and the primals, so
/// a backward pass (which touches neither) preserves it.
pub proof fn lemma_closed_same_primals<F, OP1, OP2>(
    s1: Seq<Node2<F, OP1, OP2>>,
    s2: Seq<Node2<F, OP1, OP2>>,
)
    requires
        primal_closed(s1),
        same_shape_primals(s1, s2),
    ensures
        primal_closed(s2),
{
    assert forall|j: int| 0 <= j < s2.len() implies match #[trigger] s2[j] {
        Node2::Ary1 { arg1, .. } => (s2[j].spec_primal() is Some && arg1.0 < j) ==> s2[
            arg1.0 as int
        ].spec_primal() is Some,
        Node2::Ary2 { arg1, arg2, .. } => (s2[j].spec_primal() is Some && arg1.0 < j && arg2.0
            < j) ==> (s2[arg1.0 as int].spec_primal() is Some && s2[arg2.0 as int].spec_primal()
            is Some),
        _ => true,
    } by {
        assert(s2[j].same_node(s1[j]));
        assert(s2[j].spec_primal() == s1[j].spec_primal());
    }
}

/// Two arenas describe the same graph: equal length and the same node at
/// every position (numeric state aside).
pub open spec fn same_structure<F, OP1, OP2>(
    s: Seq<Node2<F, OP1, OP2>>,
    t: Seq<Node2<F, OP1, OP2>>,
) -> bool {
    &&& t.len() == s.len()
    &&& forall|j: int| 0 <= j < s.len() ==> (#[trigger] t[j]).same_node(s[j])
}

/// Two arenas describe the same graph and agree on every primal; only the
/// adjoints may differ. This is how a backward pass changes the state.
pub open spec fn same_shape_primals<F, OP1, OP2>(
    s: Seq<Node2<F, OP1, OP2>>,
    t: Seq<Node2<F, OP1, OP2>>,
) -> bool {
    &&& same_structure(s, t)
    &&& forall|j: int| 0 <= j < s.len() ==> (#[trigger] t[j]).spec_primal() == s[j].spec_primal()
}

/// Acyclicity only depends on the structure of the arena.
pub proof fn lemma_arena_wf_same_structure<F, OP1, OP2>(
    s: Seq<Node2<F, OP1, OP2>>,
    t: Seq<Node2<F, OP1, OP2>>,
)
    requires
        arena_wf(s),
        same_structure(s, t),
    ensures
        arena_wf(t),
{
    assert forall|i: int| 0 <= i < t.len() implies match #[trigger] t[i] {
        Node2::Const(_) => true,
        Node2::Variable { .. } => true,
        Node2::Parameter { .. } => true,
        Node2::Ary1 { arg1, .. } => arg1.0 < i,
        Node2::Ary2 { arg1, arg2, .. } => arg1.0 < i && arg2.0 < i,
    } by {
        assert(t[i].same_node(s[i]));
    }
}

/// One gradient contribution arriving at a node's adjoint slot: the first
/// contribution starts the accumulator with count 1; later ones are added
/// in and bump the count.
pub open spec fn bump_adjoin<F: ComputValue>(a: Option<(F, u32)>, v: F) -> Option<(F, u32)> {
    match a {
        None => Some((v, 1u32)),
        Some((w, c)) => Some((w.add_spec(v), ((c + 1) as u32))),
    }
}

/// The same record with its adjoint slot replaced.
pub open spec fn with_adjoin<F, OP1, OP2>(n: Node2<F, OP1, OP2>, a: Option<(F, u32)>) -> Node2<
    F,
    OP1,
    OP2,
> {
    match n {
        Node2::Const(v) => Node2::Const(v),
        Node2::Variable { name, tensors } => Node2::Variable {
            name,
            tensors: Tensors { primal: tensors.primal, adjoin: a },
        },
        Node2::Parameter { name, tensors } => Node2::Parameter {
            name,
            tensors: Tensors { primal: tensors.primal, adjoin: a },
        },
        Node2::Ary1 { oper, arg1, tensors } => Node2::Ary1 {
            oper,
            arg1,
            tensors: Tensors { primal: tensors.primal, adjoin: a },
        },
        Node2::Ary2 { oper, arg1, arg2, tensors } => Node2::Ary2 {
            oper,
            arg1,
            arg2,
            tensors: Tensors { primal: tensors.primal, adjoin: a },
        },
    }
}

/// The arena after one adjoint contribution lands on node `i`. A constant
/// has no adjoint slot; the contribution is discarded, not an error.
pub open spec fn add_adjoin_spec<F: ComputValue, OP1, OP2>(
    s: Seq<Node2<F, OP1, OP2>>,
    i: int,
    v: F,
) -> Seq<Node2<F, OP1, OP2>> {
    if 0 <= i < s.len() {
        match s[i] {
            Node2::Const(_) => s,
            _ => s.update(i, with_adjoin(s[i], bump_adjoin(s[i].spec_adjoin(), v))),
        }
    } else {
        s
    }
}

/// The cached primal of node `j`, assumed present.
pub open spec fn primal_value<F: ComputValue, OP1, OP2>(s: Seq<Node2<F, OP1, OP2>>, j: int) -> F {
    if 0 <= j < s.len() {
        match s[j].spec_primal() {
            Some(v) => v,
            None => arbitrary(),
        }
    } else {
        arbitrary()
    }
}

/// Whether a backward pass seeded at node `i` finds every cached primal it
/// needs: each operation node it will visit has the primals of its
/// operands present (the chain rule evaluates local derivatives at those
/// primals).
pub open spec fn backward_ready<F: ComputValue, OP1, OP2>(
    s: Seq<Node2<F, OP1, OP2>>,
    i: int,
) -> bool
    decreases i,
{
    if 0 <= i < s.len() {
        match s[i] {
            Node2::Ary1 { arg1, .. } => arg1.0 < i && s[arg1.0 as int].spec_primal() is Some
                && backward_ready(s, arg1.0 as int),
            Node2::Ary2 { arg1, arg2, .. } => arg1.0 < i && arg2.0 < i && s[
                arg1.0 as int
            ].spec_primal() is Some && s[arg2.0 as int].spec_primal() is Some && backward_ready(
                s,
                arg1.0 as int,
            ) && backward_ready(s, arg2.0 as int),
            _ => true,
        }
    } else {
        false
    }
}

/// The number of distinct paths from node `from` down to node `to` in the
/// graph — equivalently, the number of times a backward pass seeded at
/// `from` visits `to`, since the pass recurses once per incoming edge
/// rather than once per node.
pub open spec fn paths<F, OP1, OP2>(s: Seq<Node2<F, OP1, OP2>>, from: int, to: int) -> nat
    decreases from,
{
    if 0 <= from < s.len() && 0 <= to < s.len() {
        (if from == to {
            1nat
        } else {
            0nat
        }) + match s[from] {
            Node2::Ary1 { arg1, .. } => if arg1.0 < from {
                paths(s, arg1.0 as int, to)
            } else {
                0nat
            },
            Node2::Ary2 { arg1, arg2, .. } => if arg1.0 < from && arg2.0 < from {
                paths(s, arg1.0 as int, to) + paths(s, arg2.0 as int, to)
            } else {
                0nat
            },
            _ => 0nat,
        }
    } else {
        0nat
    }
}

/// There is no path to a node with a larger identifier: edges point
/// strictly downward.
pub proof fn lemma_paths_high<F, OP1, OP2>(s: Seq<Node2<F, OP1, OP2>>, from: int, to: int)
    requires
        from < to,
    ensures
        paths(s, from, to) == 0,
    decreases from,
{
    if 0 <= from < s.len() && 0 <= to < s.len() {
        match s[from] {
            Node2::Ary1 { arg1, .. } => {
                if arg1.0 < from {
                    lemma_paths_high(s, arg1.0 as int, to);
                }
            },
            Node2::Ary2 { arg1, arg2, .. } => {
                if arg1.0 < from {
                    lemma_paths_high(s, arg1.0 as int, to);
                }
                if arg2.0 < from {
                    lemma_paths_high(s, arg2.0 as int, to);
                }
            },
            _ => {},
        }
    }
}

/// A node reaches itself exactly once.
pub proof fn lemma_paths_self<F, OP1, OP2>(s: Seq<Node2<F, OP1, OP2>>, i: int)
    requires
        0 <= i < s.len(),
    ensures
        paths(s, i, i) == 1,
{
    match s[i] {
        Node2::Ary1 { arg1, .. } => {
            if arg1.0 < i {
                lemma_paths_high(s, arg1.0 as int, i);
            }
        },
        Node2::Ary2 { arg1, arg2, .. } => {
            if arg1.0 < i {
                lemma_paths_high(s, arg1.0 as int, i);
            }
            if arg2.0 < i {
                lemma_paths_high(s, arg2.0 as int, i);
            }
        },
        _ => {},
    }
}

/// Path counts only depend on the structure of the arena.
pub proof fn lemma_paths_same_structure<F, OP1, OP2>(
    s: Seq<Node2<F, OP1, OP2>>,
    t: Seq<Node2<F, OP1, OP2>>,
    from: int,
    to: int,
)
    requires
        same_structure(s, t),
    ensures
        paths(t, from, to) == paths(s, from, to),
    decreases from,
{
    if 0 <= from < s.len() && 0 <= to < s.len() {
        assert(t[from].same_node(s[from]));
        match s[from] {
            Node2::Ary1 { arg1, .. } => {
                if arg1.0 < from {
                    lemma_paths_same_structure(s, t, arg1.0 as int, to);
                }
            },
            Node2::Ary2 { arg1, arg2, .. } => {
                if arg1.0 < from {
                    lemma_paths_same_structure(s, t, arg1.0 as int, to);
                }
                if arg2.0 < from {
                    lemma_paths_same_structure(s, t, arg2.0 as int, to);
                }
            },
            _ => {},
        }
    }
}

/// Readiness for the backward pass only depends on structure and primals.
pub proof fn lemma_backward_ready_same<F: ComputValue, OP1, OP2>(
    s: Seq<Node2<F, OP1, OP2>>,
    t: Seq<Node2<F, OP1, OP2>>,
    i: int,
)
    requires
        same_shape_primals(s, t),
    ensures
        backward_ready(t, i) == backward_ready(s, i),
    decreases i,
{
    if 0 <= i < s.len() {
        assert(t[i].same_node(s[i]));
        match s[i] {
            Node2::Ary1 { arg1, .. } => {
                if arg1.0 < i {
                    assert(t[arg1.0 as int].spec_primal() == s[arg1.0 as int].spec_primal());
                    lemma_backward_ready_same(s, t, arg1.0 as int);
                }
            },
            Node2::Ary2 { arg1, arg2, .. } => {
                if arg1.0 < i && arg2.0 < i {
                    assert(t[arg1.0 as int].spec_primal() == s[arg1.0 as int].spec_primal());
                    assert(t[arg2.0 as int].spec_primal() == s[arg2.0 as int].spec_primal());
                    lemma_backward_ready_same(s, t, arg1.0 as int);
                    lemma_backward_ready_same(s, t, arg2.0 as int);
                }
            },
            _ => {},
        }
    }
}

/// The arena after a full backward recursion seeded at node `i` with
/// incoming adjoint `adj`: the node's own adjoint accumulates the
/// contribution, and for operations the backend's local rule routes a
/// contribution into each operand, which is then propagated recursively.
/// The local derivatives are evaluated at the primals cached in `s`;
/// primals never change during the pass.
pub open spec fn backprop<F, OP1, OP2, C>(
    c: C,
    s: Seq<Node2<F, OP1, OP2>>,
    i: int,
    adj: F,
) -> Seq<Node2<F, OP1, OP2>> where
    F: ComputValue,
    OP1: Operator,
    OP2: Operator,
    C: Calculator<OP1, OP2, F>,

    decreases i,
{
    if 0 <= i < s.len() {
        let s1 = add_adjoin_spec(s, i, adj);
        match s[i] {
            Node2::Ary1 { oper, arg1, .. } => if arg1.0 < i {
                backprop(
                    c,
                    s1,
                    arg1.0 as int,
                    c.backward1_spec(oper, primal_value(s, arg1.0 as int), adj),
                )
            } else {
                s1
            },
            Node2::Ary2 { oper, arg1, arg2, .. } => if arg1.0 < i && arg2.0 < i {
                let routed_pair = c.backward2_spec(
                    oper,
                    primal_value(s, arg1.0 as int),
                    primal_value(s, arg2.0 as int),
                    adj,
                );
                backprop(
                    c,
                    backprop(c, s1, arg1.0 as int, routed_pair.0),
                    arg2.0 as int,
                    routed_pair.1,
                )
            } else {
                s1
            },
            _ => s1,
        }
    } else {
        s
    }
}

/// A backward pass never changes the topology or any primal; it only
/// accumulates adjoints.
pub proof fn lemma_backprop_shape<F, OP1, OP2, C>(
    c: C,
    s: Seq<Node2<F, OP1, OP2>>,
    i: int,
    adj: F,
) where F: ComputValue, OP1: Operator, OP2: Operator, C: Calculator<OP1, OP2, F>
    ensures
        same_shape_primals(s, backprop(c, s, i, adj)),
    decreases i,
{
    if 0 <= i < s.len() {
        let s1 = add_adjoin_spec(s, i, adj);
        assert(same_shape_primals(s, s1));
        match s[i] {
            Node2::Ary1 { oper, arg1, .. } => {
                if arg1.0 < i {
                    lemma_backprop_shape(
                        c,
                        s1,
                        arg1.0 as int,
                        c.backward1_spec(oper, primal_value(s, arg1.0 as int), adj),
                    );
                }
            },
            Node2::Ary2 { oper, arg1, arg2, .. } => {
                if arg1.0 < i && arg2.0 < i {
                    let routed_pair = c.backward2_spec(
                        oper,
                        primal_value(s, arg1.0 as int),
                        primal_value(s, arg2.0 as int),
                        adj,
                    );
                    let s2 = backprop(c, s1, arg1.0 as int, routed_pair.0);
                    lemma_backprop_shape(c, s1, arg1.0 as int, routed_pair.0);
                    lemma_backprop_shape(c, s2, arg2.0 as int, routed_pair.1);
                }
            },
            _ => {},
        }
    }
}

/// Exact bookkeeping of the contribution counts: a backward pass seeded at
/// `i` adds one contribution to node `j` per path from `i` to `j` — the
/// same node may be reached along multiple paths (shared subexpressions),
/// and each arrival accumulates. Constants take no contributions at all.
/// The precondition rules out overflowing the 32-bit counts.
pub proof fn lemma_backprop_counts<F, OP1, OP2, C>(
    c: C,
    s: Seq<Node2<F, OP1, OP2>>,
    i: int,
    adj: F,
) where F: ComputValue, OP1: Operator, OP2: Operator, C: Calculator<OP1, OP2, F>
    requires
        0 <= i < s.len(),
        forall|j: int|
            0 <= j < s.len() && !((#[trigger] s[j]) is Const) ==> s[j].spec_count() + paths(s, i, j)
                <= u32::MAX,
    ensures
        forall|j: int|
            0 <= j < s.len() ==> (#[trigger] backprop(c, s, i, adj)[j]).spec_count() == if s[j]
                is Const {
                0nat
            } else {
                s[j].spec_count() + paths(s, i, j)
            },
        forall|j: int|
            0 <= j < s.len() && (#[trigger] s[j]) is Const ==> s[j].spec_count() == 0,
    decreases i,
{
    lemma_paths_self(s, i);
    let s1 = add_adjoin_spec(s, i, adj);
    assert(same_shape_primals(s, s1));
    assert forall|j: int| 0 <= j < s.len() implies (#[trigger] s1[j]).spec_count() == if s[j]
        is Const {
        0nat
    } else {
        s[j].spec_count() + (if j == i {
            1nat
        } else {
            0nat
        })
    } by {
        if j == i && !(s[i] is Const) {
            assert(s[i].spec_count() + paths(s, i, i) <= u32::MAX);
        }
    }
    match s[i] {
        Node2::Ary1 { oper, arg1, .. } => {
            if arg1.0 < i {
                let a = arg1.0 as int;
                let ca = c.backward1_spec(oper, primal_value(s, a), adj);
                lemma_paths_same_structure(s, s1, a, 0);
                assert forall|j: int| 0 <= j < s.len() implies paths(s1, a, j) == paths(
                    s,
                    a,
                    j,
                ) by {
                    lemma_paths_same_structure(s, s1, a, j);
                }
                assert forall|j: int|
                    0 <= j < s1.len() && !((#[trigger] s1[j]) is Const) implies s1[j].spec_count()
                    + paths(s1, a, j) <= u32::MAX by {
                    assert(s1[j].same_node(s[j]));
                    lemma_paths_high(s, a, i);
                }
                lemma_backprop_counts(c, s1, a, ca);
                assert(backprop(c, s, i, adj) == backprop(c, s1, a, ca));
                assert forall|j: int| 0 <= j < s.len() implies (#[trigger] backprop(
                    c,
                    s,
                    i,
                    adj,
                )[j]).spec_count() == if s[j] is Const {
                    0nat
                } else {
                    s[j].spec_count() + paths(s, i, j)
                } by {
                    assert(s1[j].same_node(s[j]));
                    assert(backprop(c, s1, a, ca)[j].spec_count() == if s1[j] is Const {
                        0nat
                    } else {
                        s1[j].spec_count() + paths(s1, a, j)
                    });
                    assert(paths(s, i, j) == (if i == j {
                        1nat
                    } else {
                        0nat
                    }) + paths(s, a, j));
                }
            } else {
                assert forall|j: int| 0 <= j < s.len() implies (#[trigger] backprop(
                    c,
                    s,
                    i,
                    adj,
                )[j]).spec_count() == if s[j] is Const {
                    0nat
                } else {
                    s[j].spec_count() + paths(s, i, j)
                } by {
                    assert(backprop(c, s, i, adj) == s1);
                    assert(paths(s, i, j) == if i == j {
                        1nat
                    } else {
                        0nat
                    });
                }
            }
        },
        Node2::Ary2 { oper, arg1, arg2, .. } => {
            if arg1.0 < i && arg2.0 < i {
                let a = arg1.0 as int;
                let b = arg2.0 as int;
                let routed_pair = c.backward2_spec(
                    oper,
                    primal_value(s, a),
                    primal_value(s, b),
                    adj,
                );
                let s2 = backprop(c, s1, a, routed_pair.0);
                lemma_backprop_shape(c, s1, a, routed_pair.0);
                assert forall|j: int| 0 <= j < s.len() implies paths(s1, a, j) == paths(s, a, j)
                    && paths(s2, b, j) == paths(s, b, j) by {
                    lemma_paths_same_structure(s, s1, a, j);
                    assert(same_structure(s, s2));
                    lemma_paths_same_structure(s, s2, b, j);
                }
                assert forall|j: int|
                    0 <= j < s1.len() && !((#[trigger] s1[j]) is Const) implies s1[j].spec_count()
                    + paths(s1, a, j) <= u32::MAX by {
                    assert(s1[j].same_node(s[j]));
                    lemma_paths_high(s, a, i);
                    lemma_paths_high(s, b, i);
                }
                lemma_backprop_counts(c, s1, a, routed_pair.0);
                assert forall|j: int|
                    0 <= j < s2.len() && !((#[trigger] s2[j]) is Const) implies s2[j].spec_count()
                    + paths(s2, b, j) <= u32::MAX by {
                    assert(s2[j].same_node(s[j]));
                    assert(s1[j].same_node(s[j]));
                    lemma_paths_high(s, a, i);
                    lemma_paths_high(s, b, i);
                }
                lemma_backprop_counts(c, s2, b, routed_pair.1);
                assert(backprop(c, s, i, adj) == backprop(c, s2, b, routed_pair.1));
                assert forall|j: int| 0 <= j < s.len() implies (#[trigger] backprop(
                    c,
                    s,
                    i,
                    adj,
                )[j]).spec_count() == if s[j] is Const {
                    0nat
                } else {
                    s[j].spec_count() + paths(s, i, j)
                } by {
                    assert(s1[j].same_node(s[j]));
                    assert(s2[j].same_node(s[j]));
                    assert(backprop(c, s2, b, routed_pair.1)[j].spec_count() == if s2[j] is Const {
                        0nat
                    } else {
                        s2[j].spec_count() + paths(s2, b, j)
                    });
                    assert(s2[j].spec_count() == if s1[j] is Const {
                        0nat
                    } else {
                        s1[j].spec_count() + paths(s1, a, j)
                    });
                    assert(paths(s, i, j) == (if i == j {
                        1nat
                    } else {
                        0nat
                    }) + paths(s, a, j) + paths(s, b, j));
                }
            } else {
                assert forall|j: int| 0 <= j < s.len() implies (#[trigger] backprop(
                    c,
                    s,
                    i,
                    adj,
                )[j]).spec_count() == if s[j] is Const {
                    0nat
                } else {
                    s[j].spec_count() + paths(s, i, j)
                } by {
                    assert(backprop(c, s, i, adj) == s1);
                    assert(paths(s, i, j) == if i == j {
                        1nat
                    } else {
                        0nat
                    });
                }
            }
        },
        _ => {
            assert forall|j: int| 0 <= j < s.len() implies (#[trigger] backprop(
                c,
                s,
                i,
                adj,
            )[j]).spec_count() == if s[j] is Const {
                0nat
            } else {
                s[j].spec_count() + paths(s, i, j)
            } by {
                assert(backprop(c, s, i, adj) == s1);
                assert(paths(s, i, j) == if i == j {
                    1nat
                } else {
                    0nat
                });
            }
        },
    }
}

/// A node's state after [`ComputGraph::reset_state_for_next_input`]:
/// variables and operations lose their primal, while parameter primals and
/// every accumulated adjoint survive, so gradients keep accumulating
/// across the inputs of one epoch.
pub open spec fn reset_input_node<F, OP1, OP2>(n: Node2<F, OP1, OP2>) -> Node2<F, OP1, OP2> {
    match n {
        Node2::Const(v) => Node2::Const(v),
        Node2::Variable { name, tensors } => Node2::Variable {
            name,
            tensors: Tensors { primal: None, adjoin: tensors.adjoin },
        },
        Node2::Parameter { name, tensors } => Node2::Parameter { name, tensors },
        Node2::Ary1 { oper, arg1, tensors } => Node2::Ary1 {
            oper,
            arg1,
            tensors: Tensors { primal: None, adjoin: tensors.adjoin },
        },
        Node2::Ary2 { oper, arg1, arg2, tensors } => Node2::Ary2 {
            oper,
            arg1,
            arg2,
            tensors: Tensors { primal: None, adjoin: tensors.adjoin },
        },
    }
}

/// A node's state after [`ComputGraph::reset_state_for_next_epoch`]: all
/// state is cleared except parameter primals, which persist across epochs.
pub open spec fn reset_epoch_node<F, OP1, OP2>(n: Node2<F, OP1, OP2>) -> Node2<F, OP1, OP2> {
    match n {
        Node2::Const(v) => Node2::Const(v),
        Node2::Variable { name, .. } => Node2::Variable {
            name,
            tensors: Tensors { primal: None, adjoin: None },
        },
        Node2::Parameter { name, tensors } => Node2::Parameter {
            name,
            tensors: Tensors { primal: tensors.primal, adjoin: None },
        },
        Node2::Ary1 { oper, arg1, .. } => Node2::Ary1 {
            oper,
            arg1,
            tensors: Tensors { primal: None, adjoin: None },
        },
        Node2::Ary2 { oper, arg1, arg2, .. } => Node2::Ary2 {
            oper,
            arg1,
            arg2,
            tensors: Tensors { primal: None, adjoin: None },
        },
    }
}

/// A node's state after [`ComputGraph::update_params_lr`] with learning
/// rate `lr`: a parameter with primal `p`, accumulated adjoint `a` and
/// contribution count `cnt` steps to `p - lr * (a / cnt)` — the *mean*
/// gradient over the batch, not the raw sum — and its adjoint is cleared.
/// Every other node is untouched.
pub open spec fn update_param_node<F: ComputValue, OP1, OP2>(
    n: Node2<F, OP1, OP2>,
    lr: F,
) -> Node2<F, OP1, OP2> {
    match n {
        Node2::Parameter { name, tensors } => match (tensors.primal, tensors.adjoin) {
            (Some(p), Some((a, cnt))) => Node2::Parameter {
                name,
                tensors: Tensors {
                    primal: Some(p.sub_spec(lr.mul_spec(a.div_count_spec(cnt)))),
                    adjoin: None,
                },
            },
            _ => n,
        },
        _ => n,
    }
}

/// Evaluation returns a cached primal unchanged: once a node's primal is
/// present, what `forward` returns for it is fixed until a reset — repeated
/// forward passes are deterministic.
pub proof fn lemma_eval_cached<F, OP1, OP2, C>(
    c: C,
    s: Seq<Node2<F, OP1, OP2>>,
    i: int,
    v: F,
) where F: ComputValue, OP1: Operator, OP2: Operator, C: Calculator<OP1, OP2, F>
    requires
        0 <= i < s.len(),
        s[i].spec_primal() == Some(v),
    ensures
        eval_at(c, s, i) == v,
{
}

/// A backward pass seeded at `i` leaves every node above `i` untouched:
/// contributions only flow down the dependency edges.
pub proof fn lemma_backprop_above<F, OP1, OP2, C>(
    c: C,
    s: Seq<Node2<F, OP1, OP2>>,
    i: int,
    adj: F,
    j: int,
) where F: ComputValue, OP1: Operator, OP2: Operator, C: Calculator<OP1, OP2, F>
    requires
        j > i,
    ensures
        0 <= j < s.len() ==> backprop(c, s, i, adj)[j] == s[j],
    decreases i,
{
    if 0 <= i < s.len() && 0 <= j < s.len() {
        let s1 = add_adjoin_spec(s, i, adj);
        assert(s1[j] == s[j]);
        match s[i] {
            Node2::Ary1 { oper, arg1, .. } => {
                if arg1.0 < i {
                    lemma_backprop_above(
                        c,
                        s1,
                        arg1.0 as int,
                        c.backward1_spec(oper, primal_value(s, arg1.0 as int), adj),
                        j,
                    );
                }
            },
            Node2::Ary2 { oper, arg1, arg2, .. } => {
                if arg1.0 < i && arg2.0 < i {
                    let routed_pair = c.backward2_spec(
                        oper,
                        primal_value(s, arg1.0 as int),
                        primal_value(s, arg2.0 as int),
                        adj,
                    );
                    let s2 = backprop(c, s1, arg1.0 as int, routed_pair.0);
                    lemma_backprop_shape(c, s1, arg1.0 as int, routed_pair.0);
                    lemma_backprop_above(c, s1, arg1.0 as int, routed_pair.0, j);
                    lemma_backprop_above(c, s2, arg2.0 as int, routed_pair.1, j);
                    assert(backprop(c, s, i, adj) == backprop(c, s2, arg2.0 as int, routed_pair.1));
                }
            },
            _ => {},
        }
    }
}

/// Backward passes accumulate rather than overwrite: each pass adds exactly
/// one contribution at its seed node — the incoming adjoint is added to
/// whatever was accumulated before, and the contribution count grows by
/// one. Running the same pass twice therefore doubles a fresh adjoint; the
/// passes are deliberately not idempotent. A constant keeps no adjoint at
/// all.
pub proof fn lemma_backward_accumulates<F, OP1, OP2, C>(
    c: C,
    s: Seq<Node2<F, OP1, OP2>>,
    i: int,
    adj: F,
) where F: ComputValue, OP1: Operator, OP2: Operator, C: Calculator<OP1, OP2, F>
    requires
        0 <= i < s.len(),
    ensures
        backprop(c, s, i, adj)[i].spec_adjoin() == if s[i] is Const {
            None::<(F, u32)>
        } else {
            bump_adjoin(s[i].spec_adjoin(), adj)
        },
{
    let s1 = add_adjoin_spec(s, i, adj);
    assert(!(s[i] is Const) ==> s1[i].spec_adjoin() == bump_adjoin(s[i].spec_adjoin(), adj));
    match s[i] {
        Node2::Ary1 { oper, arg1, .. } => {
            if arg1.0 < i {
                let ca = c.backward1_spec(oper, primal_value(s, arg1.0 as int), adj);
                lemma_backprop_above(c, s1, arg1.0 as int, ca, i);
                assert(backprop(c, s, i, adj) == backprop(c, s1, arg1.0 as int, ca));
                assert(backprop(c, s1, arg1.0 as int, ca)[i] == s1[i]);
            }
        },
        Node2::Ary2 { oper, arg1, arg2, .. } => {
            if arg1.0 < i && arg2.0 < i {
                let routed_pair = c.backward2_spec(
                    oper,
                    primal_value(s, arg1.0 as int),
                    primal_value(s, arg2.0 as int),
                    adj,
                );
                let s2 = backprop(c, s1, arg1.0 as int, routed_pair.0);
                lemma_backprop_shape(c, s1, arg1.0 as int, routed_pair.0);
                lemma_backprop_above(c, s1, arg1.0 as int, routed_pair.0, i);
                lemma_backprop_above(c, s2, arg2.0 as int, routed_pair.1, i);
                assert(backprop(c, s, i, adj) == backprop(c, s2, arg2.0 as int, routed_pair.1));
                assert(backprop(c, s2, arg2.0 as int, routed_pair.1)[i] == s2[i]);
                assert(s2[i] == s1[i]);
            }
        },
        _ => {},
    }
}

/// Take node and return a calculated value: the per-operator rule set of a
/// numeric backend. The computation graph drives the traversal itself and
/// asks the backend only for local work — the forward value of one
/// operation over already-computed operands, and the local
/// partial-derivative contribution routed to each operand during the
/// backward pass.
///
/// Each executable method is tied to an abstract specification function, so
/// the graph's contracts can name the results. Backend implementations
/// outside this crate are not checked by the verifier; everything proved
/// about the graph holds relative to a backend meeting these contracts.
/// Implementations supply the executable methods only: each specification
/// function has a default body that leaves it unconstrained, standing for
/// whatever the implementation actually computes.
pub trait Calculator<OP1, OP2, F> where OP1: Operator, OP2: Operator, F: ComputValue {
    /// Abstract meaning of [`Self::forward1`].
    open spec fn forward1_spec(&self, op: OP1, a: F) -> F {
        arbitrary()
    }

    /// Abstract meaning of [`Self::forward2`].
    open spec fn forward2_spec(&self, op: OP2, a: F, b: F) -> F {
        arbitrary()
    }

    /// Abstract meaning of [`Self::backward1`].
    open spec fn backward1_spec(&self, op: OP1, a: F, adjoin: F) -> F {
        arbitrary()
    }

    /// Abstract meaning of [`Self::backward2`].
    open spec fn backward2_spec(&self, op: OP2, a: F, b: F, adjoin: F) -> (F, F) {
        arbitrary()
    }

    /// Forward value of the arity-1 operation `op` on operand value `a`.
    fn forward1(&self, op: OP1, a: &F) -> (r: F)
        ensures
            r == self.forward1_spec(op, *a),
    ;

    /// Forward value of the arity-2 operation `op` on operand values `a`,
    /// `b`.
    fn forward2(&self, op: OP2, a: &F, b: &F) -> (r: F)
        ensures
            r == self.forward2_spec(op, *a, *b),
    ;

    /// The adjoint contribution routed to the operand of the arity-1
    /// operation `op`, given the operand's cached primal `a` and the
    /// adjoint flowing into the operation.
    fn backward1(&self, op: OP1, a: &F, adjoin: &F) -> (r: F)
        ensures
            r == self.backward1_spec(op, *a, *adjoin),
    ;

    /// The adjoint contributions routed to the two operands of the arity-2
    /// operation `op` (left contribution first), given the operands' cached
    /// primals and the adjoint flowing into the operation.
    fn backward2(&self, op: OP2, a: &F, b: &F, adjoin: &F) -> (r: (F, F))
        ensures
            r == self.backward2_spec(op, *a, *b, *adjoin),
    ;
}

/// "Freezes" an expression tree by taking ownership of the expression
/// builder: the topology can never change again, while the per-node numeric
/// state mutates for the rest of the graph's life.
pub struct ComputGraph<F, OP1, OP2, C> {
    /// Evaluation records; the record for identifier `i` lives at index `i`.
    pub ast: Vec<Node2<F, OP1, OP2>>,
    /// The numeric backend used for all non-leaf forward and backward work.
    pub calculator: C,
}

impl<F, OP1, OP2, C> ComputGraph<F, OP1, OP2, C> where
    F: ComputValue,
    OP1: Operator,
    OP2: Operator,
    C: Calculator<OP1, OP2, F>,
 {
    /// Graph invariant: the arena of evaluation records is acyclic.
    pub open spec fn wf(self) -> bool {
        arena_wf(self.ast@)
    }

    /// How one builder node freezes into an evaluation record: parameters
    /// start with their initial value as primal, everything else starts
    /// with empty state, and a variable's name is copied in.
    pub open spec fn freezes_to(
        eb: ExprBuilder<F, OP1, OP2>,
        rec: Node2<F, OP1, OP2>,
        i: int,
    ) -> bool {
        match (eb.nodes@[i], rec) {
            (Node::Const(v), Node2::Const(w)) => w == v,
            (Node::Variable(_), Node2::Variable { name, tensors }) => {
                &&& eb.names_view()[i] == Some(name@)
                &&& tensors.primal is None
                &&& tensors.adjoin is None
            },
            (Node::Parameter(_, v), Node2::Parameter { name, tensors }) => {
                &&& name is None
                &&& tensors.primal == Some(v)
                &&& tensors.adjoin is None
            },
            (Node::Ary1(op, a), Node2::Ary1 { oper, arg1, tensors }) => {
                &&& oper == op
                &&& arg1 == a
                &&& tensors.primal is None
                &&& tensors.adjoin is None
            },
            (Node::Ary2(op, a, b), Node2::Ary2 { oper, arg1, arg2, tensors }) => {
                &&& oper == op
                &&& arg1 == a
                &&& arg2 == b
                &&& tensors.primal is None
                &&& tensors.adjoin is None
            },
            _ => false,
        }
    }

    /// Take ownership of the expression builder, because this "freezes" the
    /// expression: the topology represented by the builder cannot change
    /// from now on. Every registered node is walked exactly once and turned
    /// into an evaluation record; parameter primals are initialized from
    /// their recorded initial value, and all other state starts empty. The
    /// calculator is stored and used for all non-leaf numeric work.
    pub fn new(eb: ExprBuilder<F, OP1, OP2>, calculator: C) -> (r: ComputGraph<F, OP1, OP2, C>)
        requires
            eb.wf(),
        ensures
            r.wf(),
            r.ast@.len() == eb.nodes@.len(),
            forall|i: int|
                0 <= i < eb.nodes@.len() ==> Self::freezes_to(eb, #[trigger] r.ast@[i], i),
            r.calculator == calculator,
            primal_closed(r.ast@),
    {
        let mut ast: Vec<Node2<F, OP1, OP2>> = Vec::new();
        let n = eb.nodes.len();
        for idx in 0..n
            invariant
                eb.wf(),
                n == eb.nodes@.len(),
                ast@.len() == idx,
                forall|i: int| 0 <= i < idx ==> Self::freezes_to(eb, #[trigger] ast@[i], i),
        {
            let rec: Node2<F, OP1, OP2> = match &eb.nodes[idx] {
                Node::Const(v) => Node2::Const(v.dup()),
                Node::Variable(nid) => {
                    assert(eb.node_wf_at(idx as int));
                    let name = match eb.get_name(nid) {
                        Some(name) => name,
                        None => vstd::pervasive::unreached(),
                    };
                    Node2::Variable { name, tensors: Tensors::default() }
                },
                Node::Parameter(_, v) => Node2::Parameter {
                    name: None,
                    tensors: Tensors { primal: Some(v.dup()), adjoin: None },
                },
                Node::Ary1(op, a) => Node2::Ary1 {
                    oper: *op,
                    arg1: *a,
                    tensors: Tensors::default(),
                },
                Node::Ary2(op, a, b) => Node2::Ary2 {
                    oper: *op,
                    arg1: *a,
                    arg2: *b,
                    tensors: Tensors::default(),
                },
            };
            ast.push(rec);
        }
        let r = ComputGraph { ast, calculator };
        proof {
            assert forall|i: int| 0 <= i < r.ast@.len() implies match #[trigger] r.ast@[i] {
                Node2::Const(_) => true,
                Node2::Variable { .. } => true,
                Node2::Parameter { .. } => true,
                Node2::Ary1 { arg1, .. } => arg1.0 < i,
                Node2::Ary2 { arg1, arg2, .. } => arg1.0 < i && arg2.0 < i,
            } by {
                assert(Self::freezes_to(eb, r.ast@[i], i));
                assert(eb.node_wf_at(i));
            }
            assert forall|i: int|
                0 <= i < r.ast@.len() implies match #[trigger] r.ast@[i] {
                Node2::Ary1 { .. } => r.ast@[i].spec_primal() is None,
                Node2::Ary2 { .. } => r.ast@[i].spec_primal() is None,
                _ => true,
            } by {
                assert(Self::freezes_to(eb, r.ast@[i], i));
            }
        }
        r
    }

    /// Set a variable's primal for the first time; the caller must not set a
    /// variable that is already set without an intervening reset — this
    /// at-most-once discipline is what makes the memoized forward pass
    /// sound.
    pub fn set_variable(&mut self, ident: &Ident, value: F)
        requires
            ident.0 < old(self).ast@.len(),
            old(self).ast@[ident.0 as int] is Variable,
            old(self).ast@[ident.0 as int].spec_primal() is None,
        ensures
            final(self).ast@.len() == old(self).ast@.len(),
            final(self).calculator == old(self).calculator,
            forall|j: int|
                0 <= j < old(self).ast@.len() && j != ident.0 ==> final(self).ast@[j] == #[trigger] old(
                    self,
                ).ast@[j],
            final(self).ast@[ident.0 as int].same_node(old(self).ast@[ident.0 as int]),
            final(self).ast@[ident.0 as int].spec_primal() == Some(value),
            final(self).ast@[ident.0 as int].spec_adjoin() == old(self).ast@[
                ident.0 as int
            ].spec_adjoin(),
            old(self).wf() ==> final(self).wf(),
            primal_closed(old(self).ast@) ==> primal_closed(final(self).ast@),
    {
        match &mut self.ast[ident.0] {
            Node2::Variable { tensors, .. } => {
                tensors.primal = Some(value);
            },
            _ => {
                proof {
                    assert(false);
                }
            },
        }
        proof {
            if old(self).wf() {
                assert(same_structure(old(self).ast@, self.ast@));
                lemma_arena_wf_same_structure(old(self).ast@, self.ast@);
            }
            if primal_closed(old(self).ast@) {
                lemma_closed_leaf_changes(old(self).ast@, self.ast@);
            }
        }
    }

    /// Set a parameter's primal; the same at-most-once discipline as
    /// [`Self::set_variable`]. Any stale adjoint is discarded.
    pub fn set_parameter(&mut self, ident: &Ident, value: F)
        requires
            ident.0 < old(self).ast@.len(),
            old(self).ast@[ident.0 as int] is Parameter,
            old(self).ast@[ident.0 as int].spec_primal() is None,
        ensures
            final(self).ast@.len() == old(self).ast@.len(),
            final(self).calculator == old(self).calculator,
            forall|j: int|
                0 <= j < old(self).ast@.len() && j != ident.0 ==> final(self).ast@[j] == #[trigger] old(
                    self,
                ).ast@[j],
            final(self).ast@[ident.0 as int].same_node(old(self).ast@[ident.0 as int]),
            final(self).ast@[ident.0 as int].spec_primal() == Some(value),
            final(self).ast@[ident.0 as int].spec_adjoin() is None,
            old(self).wf() ==> final(self).wf(),
            primal_closed(old(self).ast@) ==> primal_closed(final(self).ast@),
    {
        match &mut self.ast[ident.0] {
            Node2::Parameter { tensors, .. } => {
                tensors.primal = Some(value);
                tensors.adjoin = None;
            },
            _ => {
                proof {
                    assert(false);
                }
            },
        }
        proof {
            if old(self).wf() {
                assert(same_structure(old(self).ast@, self.ast@));
                lemma_arena_wf_same_structure(old(self).ast@, self.ast@);
            }
            if primal_closed(old(self).ast@) {
                lemma_closed_leaf_changes(old(self).ast@, self.ast@);
            }
        }
    }

    /// Overwrite a variable's primal without failing when it is already set,
    /// returning the previous value. Useful when running the passes in a
    /// loop over different inputs. Any cached results downstream are *not*
    /// invalidated by this call; the caller is expected to reset between
    /// inputs.
    pub fn reset_primal_of_variable(&mut self, ident: &Ident, value: F) -> (r: Option<F>)
        requires
            ident.0 < old(self).ast@.len(),
            old(self).ast@[ident.0 as int] is Variable,
        ensures
            final(self).ast@.len() == old(self).ast@.len(),
            final(self).calculator == old(self).calculator,
            forall|j: int|
                0 <= j < old(self).ast@.len() && j != ident.0 ==> final(self).ast@[j] == #[trigger] old(
                    self,
                ).ast@[j],
            final(self).ast@[ident.0 as int].same_node(old(self).ast@[ident.0 as int]),
            final(self).ast@[ident.0 as int].spec_primal() == Some(value),
            final(self).ast@[ident.0 as int].spec_adjoin() == old(self).ast@[
                ident.0 as int
            ].spec_adjoin(),
            r == old(self).ast@[ident.0 as int].spec_primal(),
            old(self).wf() ==> final(self).wf(),
            primal_closed(old(self).ast@) ==> primal_closed(final(self).ast@),
    {
        let r = match &mut self.ast[ident.0] {
            Node2::Variable { tensors, .. } => {
                let old_primal = tensors.primal.take();
                tensors.primal = Some(value);
                old_primal
            },
            _ => {
                proof {
                    assert(false);
                }
                vstd::pervasive::unreached()
            },
        };
        proof {
            if old(self).wf() {
                assert(same_structure(old(self).ast@, self.ast@));
                lemma_arena_wf_same_structure(old(self).ast@, self.ast@);
            }
            if primal_closed(old(self).ast@) {
                lemma_closed_leaf_changes(old(self).ast@, self.ast@);
            }
        }
        r
    }

    /// The evaluation record of a node.
    pub fn get_node(&self, ident: &Ident) -> (r: &Node2<F, OP1, OP2>)
        requires
            ident.0 < self.ast@.len(),
        ensures
            *r == self.ast@[ident.0 as int],
    {
        &self.ast[ident.0]
    }

    /// The name of a variable node; `None` for every other kind of node.
    pub fn get_name(&self, ident: &Ident) -> (r: Option<String>)
        requires
            ident.0 < self.ast@.len(),
        ensures
            match r {
                Some(s) => match self.ast@[ident.0 as int] {
                    Node2::Variable { name, .. } => s@ == name@,
                    _ => false,
                },
                None => !(self.ast@[ident.0 as int] is Variable),
            },
    {
        match &self.ast[ident.0] {
            Node2::Variable { name, .. } => Some(name.clone()),
            _ => None,
        }
    }

    /// The primal of a node, which must be present (computed, set, or a
    /// constant).
    pub fn primal(&self, ident: &Ident) -> (r: F)
        requires
            ident.0 < self.ast@.len(),
            self.ast@[ident.0 as int].spec_primal() is Some,
        ensures
            Some(r) == self.ast@[ident.0 as int].spec_primal(),
    {
        match self.ast[ident.0].primal_or_const() {
            Some(p) => p.dup(),
            None => vstd::pervasive::unreached(),
        }
    }

    /// The accumulated adjoint of a node. `None` means either that the node
    /// kind has no adjoint (a constant), or that no backward pass has
    /// written to it since the last reset.
    pub fn adjoin(&self, ident: &Ident) -> (r: Option<F>)
        requires
            ident.0 < self.ast@.len(),
        ensures
            match self.ast@[ident.0 as int].spec_adjoin() {
                Some((v, _)) => r == Some(v),
                None => r is None,
            },
    {
        match &self.ast[ident.0] {
            Node2::Const(_) => None,
            Node2::Variable { tensors, .. } => match &tensors.adjoin {
                Some((v, _)) => Some(v.dup()),
                None => None,
            },
            Node2::Parameter { tensors, .. } => match &tensors.adjoin {
                Some((v, _)) => Some(v.dup()),
                None => None,
            },
            Node2::Ary1 { tensors, .. } => match &tensors.adjoin {
                Some((v, _)) => Some(v.dup()),
                None => None,
            },
            Node2::Ary2 { tensors, .. } => match &tensors.adjoin {
                Some((v, _)) => Some(v.dup()),
                None => None,
            },
        }
    }

    /// Reset for the next input of the same epoch: clear the primals of
    /// variables and operations, forcing recomputation with new variable
    /// values, but keep every accumulated adjoint and every parameter
    /// primal, so gradients accumulate across the whole batch.
    pub fn reset_state_for_next_input(&mut self)
        ensures
            final(self).calculator == old(self).calculator,
            final(self).ast@.len() == old(self).ast@.len(),
            forall|i: int|
                0 <= i < old(self).ast@.len() ==> final(self).ast@[i] == reset_input_node(
                    #[trigger] old(self).ast@[i],
                ),
            old(self).wf() ==> final(self).wf(),
            primal_closed(final(self).ast@),
    {
        let ghost s = self.ast@;
        let n = self.ast.len();
        for idx in 0..n
            invariant
                n == s.len(),
                self.ast@.len() == s.len(),
                self.calculator == old(self).calculator,
                forall|i: int| 0 <= i < idx ==> self.ast@[i] == reset_input_node(#[trigger] s[i]),
                forall|i: int| idx <= i < s.len() ==> self.ast@[i] == #[trigger] s[i],
        {
            match &mut self.ast[idx] {
                Node2::Const(_) => {},
                Node2::Variable { tensors, .. } => {
                    tensors.primal = None;
                },
                Node2::Parameter { .. } => {},
                Node2::Ary1 { tensors, .. } => {
                    tensors.primal = None;
                },
                Node2::Ary2 { tensors, .. } => {
                    tensors.primal = None;
                },
            }
        }
        proof {
            if old(self).wf() {
                assert forall|j: int| 0 <= j < s.len() implies (#[trigger] self.ast@[j]).same_node(
                    s[j],
                ) by {
                    assert(self.ast@[j] == reset_input_node(s[j]));
                }
                lemma_arena_wf_same_structure(s, self.ast@);
            }
            assert forall|j: int|
                0 <= j < self.ast@.len() implies match #[trigger] self.ast@[j] {
                Node2::Ary1 { .. } => self.ast@[j].spec_primal() is None,
                Node2::Ary2 { .. } => self.ast@[j].spec_primal() is None,
                _ => true,
            } by {
                assert(self.ast@[j] == reset_input_node(s[j]));
            }
        }
    }

    /// Reset for the next epoch: clear all primals and adjoints of every
    /// node except parameter primals, which persist — they are the model
    /// being trained.
    pub fn reset_state_for_next_epoch(&mut self)
        ensures
            final(self).calculator == old(self).calculator,
            final(self).ast@.len() == old(self).ast@.len(),
            forall|i: int|
                0 <= i < old(self).ast@.len() ==> final(self).ast@[i] == reset_epoch_node(
                    #[trigger] old(self).ast@[i],
                ),
            old(self).wf() ==> final(self).wf(),
            primal_closed(final(self).ast@),
    {
        let ghost s = self.ast@;
        let n = self.ast.len();
        for idx in 0..n
            invariant
                n == s.len(),
                self.ast@.len() == s.len(),
                self.calculator == old(self).calculator,
                forall|i: int| 0 <= i < idx ==> self.ast@[i] == reset_epoch_node(#[trigger] s[i]),
                forall|i: int| idx <= i < s.len() ==> self.ast@[i] == #[trigger] s[i],
        {
            match &mut self.ast[idx] {
                Node2::Const(_) => {},
                Node2::Variable { tensors, .. } => {
                    tensors.primal = None;
                    tensors.adjoin = None;
                },
                Node2::Parameter { tensors, .. } => {
                    tensors.adjoin = None;
                },
                Node2::Ary1 { tensors, .. } => {
                    tensors.primal = None;
                    tensors.adjoin = None;
                },
                Node2::Ary2 { tensors, .. } => {
                    tensors.primal = None;
                    tensors.adjoin = None;
                },
            }
        }
        proof {
            if old(self).wf() {
                assert forall|j: int| 0 <= j < s.len() implies (#[trigger] self.ast@[j]).same_node(
                    s[j],
                ) by {
                    assert(self.ast@[j] == reset_epoch_node(s[j]));
                }
                lemma_arena_wf_same_structure(s, self.ast@);
            }
            assert forall|j: int|
                0 <= j < self.ast@.len() implies match #[trigger] self.ast@[j] {
                Node2::Ary1 { .. } => self.ast@[j].spec_primal() is None,
                Node2::Ary2 { .. } => self.ast@[j].spec_primal() is None,
                _ => true,
            } by {
                assert(self.ast@[j] == reset_epoch_node(s[j]));
            }
        }
    }

    /// Apply one gradient-descent step to every parameter: the primal moves
    /// against the *mean* accumulated gradient, `adjoint / count`, scaled
    /// by the learning rate, and the adjoint is cleared (the primal is
    /// kept) so the next epoch starts from a clean gradient. Every
    /// parameter must have both a primal and an accumulated adjoint — a
    /// parameter without an adjoint means no backward pass has run.
    pub fn update_params_lr(&mut self, learning_rate: &F)
        requires
            forall|i: int|
                0 <= i < old(self).ast@.len() && (#[trigger] old(self).ast@[i]) is Parameter ==> old(
                    self,
                ).ast@[i].spec_primal() is Some && old(self).ast@[i].spec_adjoin() is Some,
        ensures
            final(self).calculator == old(self).calculator,
            final(self).ast@.len() == old(self).ast@.len(),
            forall|i: int|
                0 <= i < old(self).ast@.len() ==> final(self).ast@[i] == update_param_node(
                    #[trigger] old(self).ast@[i],
                    *learning_rate,
                ),
            old(self).wf() ==> final(self).wf(),
            primal_closed(old(self).ast@) ==> primal_closed(final(self).ast@),
    {
        let ghost s = self.ast@;
        let n = self.ast.len();
        for idx in 0..n
            invariant
                n == s.len(),
                self.ast@.len() == s.len(),
                self.calculator == old(self).calculator,
                forall|i: int|
                    0 <= i < s.len() && (#[trigger] s[i]) is Parameter ==> s[i].spec_primal()
                        is Some && s[i].spec_adjoin() is Some,
                forall|i: int|
                    0 <= i < idx ==> self.ast@[i] == update_param_node(
                        #[trigger] s[i],
                        *learning_rate,
                    ),
                forall|i: int| idx <= i < s.len() ==> self.ast@[i] == #[trigger] s[i],
        {
            proof {
                assert(self.ast@[idx as int] == s[idx as int]);
            }
            match &mut self.ast[idx] {
                Node2::Parameter { tensors, .. } => {
                    let new_primal: Option<F> = match (&tensors.primal, &tensors.adjoin) {
                        (Some(p), Some((a, cnt))) => {
                            let mean = a.div_count(*cnt);
                            let step = learning_rate.mul(&mean);
                            Some(p.sub(&step))
                        },
                        _ => vstd::pervasive::unreached(),
                    };
                    tensors.primal = new_primal;
                    tensors.adjoin = None;
                },
                _ => {},
            }
        }
        proof {
            if old(self).wf() {
                assert forall|j: int| 0 <= j < s.len() implies (#[trigger] self.ast@[j]).same_node(
                    s[j],
                ) by {
                    assert(self.ast@[j] == update_param_node(s[j], *learning_rate));
                }
                lemma_arena_wf_same_structure(s, self.ast@);
            }
            if primal_closed(s) {
                assert forall|j: int|
                    0 <= j < s.len() implies (#[trigger] self.ast@[j]) == s[j] || (!(s[j]
                    is Ary1) && !(s[j] is Ary2) && !(self.ast@[j] is Ary1) && !(self.ast@[j]
                    is Ary2) && (s[j].spec_primal() is Some ==> self.ast@[j].spec_primal()
                    is Some)) by {
                    assert(self.ast@[j] == update_param_node(s[j], *learning_rate));
                }
                lemma_closed_leaf_changes(s, self.ast@);
            }
        }
    }

    /// Add one partial-adjoint contribution to a node's accumulator and
    /// bump its contribution count. A node reached by several paths (a
    /// shared subexpression, or one node feeding several consumers) takes
    /// one contribution per path; the accumulated adjoint is their sum. A
    /// constant has no adjoint slot: the contribution is discarded.
    pub fn add_adjoin(&mut self, ident: &Ident, adjoin: &F)
        requires
            ident.0 < old(self).ast@.len(),
            old(self).ast@[ident.0 as int].spec_count() < u32::MAX,
        ensures
            final(self).calculator == old(self).calculator,
            final(self).ast@ == add_adjoin_spec(old(self).ast@, ident.0 as int, *adjoin),
            old(self).wf() ==> final(self).wf(),
    {
        let ghost s = self.ast@;
        let i = ident.0;
        match &mut self.ast[i] {
            Node2::Const(_) => {},
            Node2::Variable { tensors, .. } => {
                let new_adj = match &tensors.adjoin {
                    Some((w, c)) => Some((w.add(adjoin), *c + 1)),
                    None => Some((adjoin.dup(), 1u32)),
                };
                tensors.adjoin = new_adj;
            },
            Node2::Parameter { tensors, .. } => {
                let new_adj = match &tensors.adjoin {
                    Some((w, c)) => Some((w.add(adjoin), *c + 1)),
                    None => Some((adjoin.dup(), 1u32)),
                };
                tensors.adjoin = new_adj;
            },
            Node2::Ary1 { tensors, .. } => {
                let new_adj = match &tensors.adjoin {
                    Some((w, c)) => Some((w.add(adjoin), *c + 1)),
                    None => Some((adjoin.dup(), 1u32)),
                };
                tensors.adjoin = new_adj;
            },
            Node2::Ary2 { tensors, .. } => {
                let new_adj = match &tensors.adjoin {
                    Some((w, c)) => Some((w.add(adjoin), *c + 1)),
                    None => Some((adjoin.dup(), 1u32)),
                };
                tensors.adjoin = new_adj;
            },
        }
        proof {
            assert(self.ast@ =~= add_adjoin_spec(s, i as int, *adjoin));
            if old(self).wf() {
                assert(same_structure(old(self).ast@, self.ast@));
                lemma_arena_wf_same_structure(old(self).ast@, self.ast@);
            }
        }
    }

    /// Reverse-mode recursion: accumulate `adjoin` at node `i`, then, for an
    /// operation, ask the backend for the contribution routed to each
    /// operand and recurse into it.
    fn propagate(&mut self, i: usize, adjoin: &F)
        requires
            old(self).wf(),
            i < old(self).ast@.len(),
            backward_ready(old(self).ast@, i as int),
            forall|j: int|
                0 <= j < old(self).ast@.len() && !((#[trigger] old(self).ast@[j]) is Const) ==> old(
                    self,
                ).ast@[j].spec_count() + paths(old(self).ast@, i as int, j) <= u32::MAX,
        ensures
            final(self).calculator == old(self).calculator,
            final(self).ast@ == backprop(
                old(self).calculator,
                old(self).ast@,
                i as int,
                *adjoin,
            ),
        decreases i,
    {
        let ghost c = self.calculator;
        let ghost s = self.ast@;
        proof {
            lemma_paths_self(s, i as int);
        }
        self.add_adjoin(&Ident(i), adjoin);
        let ghost s1 = self.ast@;
        proof {
            assert(same_shape_primals(s, s1));
            lemma_arena_wf_same_structure(s, s1);
        }
        let pend: Option<PendingOp<OP1, OP2>> = match &self.ast[i] {
            Node2::Ary1 { oper, arg1, .. } => Some(PendingOp::A1(*oper, *arg1)),
            Node2::Ary2 { oper, arg1, arg2, .. } => Some(PendingOp::A2(*oper, *arg1, *arg2)),
            _ => None,
        };
        match pend {
            None => {
                proof {
                    assert(backprop(c, s, i as int, *adjoin) == s1);
                }
            },
            Some(PendingOp::A1(op, a)) => {
                proof {
                    assert(s1[i as int].same_node(s[i as int]));
                    assert(s1[a.0 as int].spec_primal() == s[a.0 as int].spec_primal());
                }
                let ap = self.primal(&a);
                let routed = self.calculator.backward1(op, &ap, adjoin);
                proof {
                    lemma_backward_ready_same(s, s1, a.0 as int);
                    assert forall|j: int|
                        0 <= j < s1.len() && !((#[trigger] s1[j]) is Const) implies s1[
                        j
                    ].spec_count() + paths(s1, a.0 as int, j) <= u32::MAX by {
                        assert(s1[j].same_node(s[j]));
                        lemma_paths_same_structure(s, s1, a.0 as int, j);
                        assert(paths(s, i as int, j) == (if i == j {
                            1nat
                        } else {
                            0nat
                        }) + paths(s, a.0 as int, j));
                    }
                }
                self.propagate(a.0, &routed);
                proof {
                    assert(self.ast@ == backprop(c, s1, a.0 as int, routed));
                    assert(routed == c.backward1_spec(op, primal_value(s, a.0 as int), *adjoin));
                    assert(backprop(c, s, i as int, *adjoin) == backprop(
                        c,
                        s1,
                        a.0 as int,
                        c.backward1_spec(op, primal_value(s, a.0 as int), *adjoin),
                    ));
                }
            },
            Some(PendingOp::A2(op, a, b)) => {
                proof {
                    assert(s1[i as int].same_node(s[i as int]));
                    assert(s1[a.0 as int].spec_primal() == s[a.0 as int].spec_primal());
                    assert(s1[b.0 as int].spec_primal() == s[b.0 as int].spec_primal());
                }
                let ap = self.primal(&a);
                let bp = self.primal(&b);
                let routed_pair = self.calculator.backward2(op, &ap, &bp, adjoin);
                let ghost ca = routed_pair.0;
                let ghost cb = routed_pair.1;
                let (routed_a, routed_b) = routed_pair;
                proof {
                    lemma_backward_ready_same(s, s1, a.0 as int);
                    assert forall|j: int|
                        0 <= j < s1.len() && !((#[trigger] s1[j]) is Const) implies s1[
                        j
                    ].spec_count() + paths(s1, a.0 as int, j) <= u32::MAX by {
                        assert(s1[j].same_node(s[j]));
                        lemma_paths_same_structure(s, s1, a.0 as int, j);
                        assert(paths(s, i as int, j) == (if i == j {
                            1nat
                        } else {
                            0nat
                        }) + paths(s, a.0 as int, j) + paths(s, b.0 as int, j));
                    }
                }
                self.propagate(a.0, &routed_a);
                let ghost s2 = self.ast@;
                proof {
                    assert(s2 == backprop(c, s1, a.0 as int, ca));
                    lemma_backprop_shape(c, s1, a.0 as int, ca);
                    assert forall|j: int| 0 <= j < s.len() implies (#[trigger] s2[j]).same_node(
                        s[j],
                    ) && s2[j].spec_primal() == s[j].spec_primal() by {
                        assert(s1[j].same_node(s[j]));
                        assert(s2[j].same_node(s1[j]));
                        assert(s2[j].spec_primal() == s1[j].spec_primal());
                    }
                    assert(same_shape_primals(s, s2));
                    lemma_arena_wf_same_structure(s, s2);
                    lemma_backward_ready_same(s, s2, b.0 as int);
                    lemma_backprop_counts(c, s1, a.0 as int, ca);
                    assert forall|j: int|
                        0 <= j < s2.len() && !((#[trigger] s2[j]) is Const) implies s2[
                        j
                    ].spec_count() + paths(s2, b.0 as int, j) <= u32::MAX by {
                        assert(s2[j].same_node(s[j]));
                        assert(s1[j].same_node(s[j]));
                        lemma_paths_same_structure(s, s1, a.0 as int, j);
                        lemma_paths_same_structure(s, s2, b.0 as int, j);
                        assert(s2[j].spec_count() == if s1[j] is Const {
                            0nat
                        } else {
                            s1[j].spec_count() + paths(s1, a.0 as int, j)
                        });
                        assert(paths(s, i as int, j) == (if i == j {
                            1nat
                        } else {
                            0nat
                        }) + paths(s, a.0 as int, j) + paths(s, b.0 as int, j));
                    }
                }
                self.propagate(b.0, &routed_b);
                proof {
                    assert(self.ast@ == backprop(c, s2, b.0 as int, cb));
                    assert(ca == c.backward2_spec(
                        op,
                        primal_value(s, a.0 as int),
                        primal_value(s, b.0 as int),
                        *adjoin,
                    ).0);
                    assert(cb == c.backward2_spec(
                        op,
                        primal_value(s, a.0 as int),
                        primal_value(s, b.0 as int),
                        *adjoin,
                    ).1);
                    assert(backprop(c, s, i as int, *adjoin) == backprop(
                        c,
                        backprop(c, s1, a.0 as int, ca),
                        b.0 as int,
                        cb,
                    ));
                }
            },
        }
    }

    /// Backward pass: reverse-mode accumulation of adjoints, seeded at the
    /// chosen output node.
    ///
    /// The seed adjoint is the value type's "default adjoint" (a ones-like
    /// value shaped like the output's primal). At each visited node the
    /// incoming adjoint is added to the node's accumulator; for operations,
    /// the backend's local rule then routes a contribution into each
    /// operand, which is visited recursively. Repeated backward passes
    /// accumulate — they are deliberately not idempotent, which is what
    /// lets gradients sum over a batch of inputs between resets.
    ///
    /// The output's primal, and the primal of every operand in its cone,
    /// must already have been computed by [`Self::forward`]. The last
    /// precondition keeps the 32-bit contribution counts from overflowing:
    /// the pass visits a node once per path reaching it.
    pub fn backward(&mut self, ident: &Ident)
        requires
            old(self).wf(),
            ident.0 < old(self).ast@.len(),
            old(self).ast@[ident.0 as int].spec_primal() is Some,
            backward_ready(old(self).ast@, ident.0 as int),
            forall|j: int|
                0 <= j < old(self).ast@.len() && !((#[trigger] old(self).ast@[j]) is Const) ==> old(
                    self,
                ).ast@[j].spec_count() + paths(old(self).ast@, ident.0 as int, j) <= u32::MAX,
        ensures
            final(self).calculator == old(self).calculator,
            final(self).ast@ == backprop(
                old(self).calculator,
                old(self).ast@,
                ident.0 as int,
                F::default_adjoin_spec(primal_value(old(self).ast@, ident.0 as int)),
            ),
            primal_closed(old(self).ast@) ==> primal_closed(final(self).ast@),
    {
        let v = self.forward(ident);
        let seed = F::default_adjoin(v);
        self.propagate(ident.0, &seed);
        proof {
            if primal_closed(old(self).ast@) {
                lemma_backprop_shape(
                    old(self).calculator,
                    old(self).ast@,
                    ident.0 as int,
                    F::default_adjoin_spec(primal_value(old(self).ast@, ident.0 as int)),
                );
                lemma_closed_same_primals(old(self).ast@, self.ast@);
            }
        }
    }

    /// Store a freshly computed primal into an operation node's cache.
    fn cache_primal(&mut self, i: usize, value: F)
        requires
            i < old(self).ast@.len(),
            old(self).ast@[i as int] is Ary1 || old(self).ast@[i as int] is Ary2,
        ensures
            final(self).ast@.len() == old(self).ast@.len(),
            final(self).calculator == old(self).calculator,
            forall|j: int|
                0 <= j < old(self).ast@.len() && j != i ==> final(self).ast@[j] == #[trigger] old(
                    self,
                ).ast@[j],
            final(self).ast@[i as int].same_node(old(self).ast@[i as int]),
            final(self).ast@[i as int].spec_primal() == Some(value),
            final(self).ast@[i as int].spec_adjoin() == old(self).ast@[i as int].spec_adjoin(),
    {
        match &mut self.ast[i] {
            Node2::Ary1 { tensors, .. } => {
                tensors.primal = Some(value);
            },
            Node2::Ary2 { tensors, .. } => {
                tensors.primal = Some(value);
            },
            _ => {
                proof {
                    assert(false);
                }
            },
        }
    }

    /// Forward pass: calculate (and cache) the primal of a node.
    ///
    /// The pass is memoized: a node whose primal is already present is
    /// returned unchanged, with the whole graph state untouched, so
    /// repeated calls on the same identifier without an intervening reset
    /// return the identical value and perform no recomputation. A variable
    /// or parameter must already have been supplied a value; that is what
    /// the `can_eval_at` precondition demands.
    pub fn forward(&mut self, ident: &Ident) -> (r: F)
        requires
            old(self).wf(),
            ident.0 < old(self).ast@.len(),
            can_eval_at(old(self).ast@, ident.0 as int),
        ensures
            final(self).wf(),
            final(self).calculator == old(self).calculator,
            forward_evolution(old(self).calculator, old(self).ast@, final(self).ast@),
            r == eval_at(old(self).calculator, old(self).ast@, ident.0 as int),
            final(self).ast@[ident.0 as int].spec_primal() == Some(r),
            old(self).ast@[ident.0 as int].spec_primal() is Some ==> *final(self) == *old(self),
            primal_closed(old(self).ast@) ==> primal_closed(final(self).ast@) && backward_ready(
                final(self).ast@,
                ident.0 as int,
            ),
        decreases ident.0,
    {
        let i = ident.0;
        let ghost c = self.calculator;
        let ghost s0 = self.ast@;
        let cached: Option<F> = match (&self.ast[i]).primal_or_const() {
            Some(p) => Some(p.dup()),
            None => None,
        };
        if let Some(v) = cached {
            proof {
                if primal_closed(self.ast@) {
                    lemma_ready_from_closed(self.ast@, i as int);
                }
            }
            return v;
        }
        let pending: PendingOp<OP1, OP2> = match &self.ast[i] {
            Node2::Ary1 { oper, arg1, .. } => PendingOp::A1(*oper, *arg1),
            Node2::Ary2 { oper, arg1, arg2, .. } => PendingOp::A2(*oper, *arg1, *arg2),
            _ => vstd::pervasive::unreached(),
        };
        match pending {
            PendingOp::A1(op, a) => {
                let av = self.forward(&a);
                let ghost s1 = self.ast@;
                let computed = self.calculator.forward1(op, &av);
                let out = computed.dup();
                proof {
                    lemma_forward_evolution_eval(c, s0, s1, i as int);
                }
                self.cache_primal(i, computed);
                proof {
                    assert(forward_evolution(c, s1, self.ast@));
                    lemma_forward_evolution_trans(c, s0, s1, self.ast@);
                    if primal_closed(s0) {
                        lemma_closed_cache(s1, self.ast@, i as int);
                        lemma_ready_from_closed(self.ast@, i as int);
                    }
                }
                out
            },
            PendingOp::A2(op, a, b) => {
                let av = self.forward(&a);
                let ghost s1 = self.ast@;
                proof {
                    lemma_forward_evolution_eval(c, s0, s1, b.0 as int);
                }
                let bv = self.forward(&b);
                let ghost s2 = self.ast@;
                proof {
                    lemma_forward_evolution_trans(c, s0, s1, s2);
                }
                let computed = self.calculator.forward2(op, &av, &bv);
                let out = computed.dup();
                proof {
                    lemma_forward_evolution_eval(c, s0, s2, i as int);
                }
                self.cache_primal(i, computed);
                proof {
                    assert(forward_evolution(c, s2, self.ast@));
                    lemma_forward_evolution_trans(c, s0, s2, self.ast@);
                    if primal_closed(s0) {
                        assert(s2[a.0 as int].spec_primal() is Some);
                        lemma_closed_cache(s2, self.ast@, i as int);
                        lemma_ready_from_closed(self.ast@, i as int);
                    }
                }
                out
            },
        }
    }
}

/// The dependency description of an operation node, copied out of the arena
/// so the arena can be mutated while the operands are evaluated.
enum PendingOp<OP1, OP2> {
    A1(OP1, Ident),
    A2(OP2, Ident, Ident),
}

} // verus!
