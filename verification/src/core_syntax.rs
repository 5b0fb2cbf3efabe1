//! Core syntax of the expression graph. The builder lets a caller describe a
//! computation such as `x + y * z` as a directed acyclic graph of nodes
//! addressed by small integer identifiers. The builder is generic: it does not
//! fix the type of the computed values nor the set of operators; those are
//! supplied by a numeric backend when the graph is frozen into a
//! [`crate::compute::ComputGraph`].

use vstd::prelude::*;
use vstd::string::*;

verus! {

/// The digit character for one decimal digit.
pub open spec fn dec_digit(d: int) -> char {
    if d == 0 {
        '0'
    } else if d == 1 {
        '1'
    } else if d == 2 {
        '2'
    } else if d == 3 {
        '3'
    } else if d == 4 {
        '4'
    } else if d == 5 {
        '5'
    } else if d == 6 {
        '6'
    } else if d == 7 {
        '7'
    } else if d == 8 {
        '8'
    } else {
        '9'
    }
}

/// The decimal digits of a non-negative integer, most significant first.
pub open spec fn dec_text(n: int) -> Seq<char>
    decreases n,
{
    if n < 0 {
        Seq::empty()
    } else if n < 10 {
        seq![dec_digit(n)]
    } else {
        dec_text(n / 10).push(dec_digit(n % 10))
    }
}

/// The decimal form of an integer, with a leading minus sign if negative.
pub open spec fn int_text(v: int) -> Seq<char> {
    if v < 0 {
        seq!['-'] + dec_text(-v)
    } else {
        dec_text(v)
    }
}

/// A type of computed value (a scalar, or a tensor of some backend).
///
/// The engine never looks inside a value: it only clones values, adds
/// gradient contributions, and applies the parameter-update formula. Each
/// executable method is tied to an abstract specification function, so the
/// engine's own contracts can speak about the results. Implementations
/// outside this crate are not checked by the verifier; everything proved
/// about the engine holds relative to an implementation meeting these
/// contracts.
/// Implementations supply the executable methods only: each specification
/// function has a default body that leaves it unconstrained, standing for
/// whatever the implementation actually computes.
pub trait ComputValue: DefaultAdjoin + Sized {
    /// Abstract meaning of [`Self::add`].
    open spec fn add_spec(self, other: Self) -> Self {
        arbitrary()
    }

    /// Abstract meaning of [`Self::mul`].
    open spec fn mul_spec(self, other: Self) -> Self {
        arbitrary()
    }

    /// Abstract meaning of [`Self::sub`].
    open spec fn sub_spec(self, other: Self) -> Self {
        arbitrary()
    }

    /// Abstract meaning of [`Self::div_count`].
    open spec fn div_count_spec(self, count: u32) -> Self {
        arbitrary()
    }

    /// Abstract meaning of [`Self::render`].
    open spec fn render_spec(self) -> Seq<char> {
        arbitrary()
    }

    /// Structural clone of the value.
    fn dup(&self) -> (r: Self)
        ensures
            r == *self,
    ;

    /// Addition, used to accumulate gradient contributions.
    fn add(&self, other: &Self) -> (r: Self)
        ensures
            r == self.add_spec(*other),
    ;

    /// Multiplication, used to scale a mean gradient by a learning rate.
    fn mul(&self, other: &Self) -> (r: Self)
        ensures
            r == self.mul_spec(*other),
    ;

    /// Subtraction, used to step a parameter against its gradient.
    fn sub(&self, other: &Self) -> (r: Self)
        ensures
            r == self.sub_spec(*other),
    ;

    /// Division by a contribution count, used to average an accumulated
    /// gradient over a batch of inputs.
    fn div_count(&self, count: u32) -> (r: Self)
        ensures
            r == self.div_count_spec(count),
    ;

    /// Textual form of the value, used when pretty-printing an expression.
    fn render(&self) -> (r: String)
        ensures
            r@ == self.render_spec(),
    ;
}

/// Produces the seed adjoint for a value: a ones-like value matching the
/// shape of a given primal. For a scalar this is simply `1`; for a tensor of
/// runtime-determined shape the input value fixes the shape.
/// Implementations supply the executable methods only: each specification
/// function has a default body that leaves it unconstrained, standing for
/// whatever the implementation actually computes.
pub trait DefaultAdjoin: Sized {
    /// Abstract meaning of [`Self::default_adjoin`].
    open spec fn default_adjoin_spec(value: Self) -> Self {
        arbitrary()
    }

    /// Return the seed adjoint ("a one") shaped like `value`.
    fn default_adjoin(value: Self) -> (r: Self)
        ensures
            r == Self::default_adjoin_spec(value),
    ;
}

/// An operator tag stored in a node. Operators are small copyable tokens;
/// what they compute is decided by the backend. The only thing the core asks
/// of them directly is a printable symbol.
/// Implementations supply the executable methods only: each specification
/// function has a default body that leaves it unconstrained, standing for
/// whatever the implementation actually computes.
pub trait Operator: Copy + Sized {
    /// Abstract meaning of [`Self::symbol`].
    open spec fn symbol_spec(self) -> Seq<char> {
        arbitrary()
    }

    /// The symbol used when pretty-printing an expression.
    fn symbol(&self) -> (r: String)
        ensures
            r@ == self.symbol_spec(),
    ;
}

/// Identifier of a node in the expression graph. Identifiers are assigned in
/// strictly increasing construction order and are never reused, so every
/// node's dependencies have strictly smaller identifiers than the node
/// itself. `Ident` is `Copy` so expressions can be combined freely.
#[derive(PartialEq, Eq, Clone, Copy, Debug, Hash, Structural)]
pub struct Ident(pub usize);

/// Identifier of the name attached to a variable or a named parameter.
/// It wraps the [`Ident`] of the named node; the distinct type keeps node
/// identifiers and name identifiers from being confused.
#[derive(PartialEq, Eq, Clone, Copy, Debug, Hash, Structural)]
pub struct NameId(pub Ident);

impl From<Ident> for NameId {
    fn from(value: Ident) -> (r: Self) {
        NameId(value)
    }
}

impl vstd::std_specs::convert::FromSpecImpl<Ident> for NameId {
    open spec fn obeys_from_spec() -> bool {
        true
    }

    open spec fn from_spec(value: Ident) -> Self {
        NameId(value)
    }
}

impl From<NameId> for Ident {
    fn from(value: NameId) -> (r: Self) {
        value.0
    }
}

impl vstd::std_specs::convert::FromSpecImpl<NameId> for Ident {
    open spec fn obeys_from_spec() -> bool {
        true
    }

    open spec fn from_spec(value: NameId) -> Self {
        value.0
    }
}

/// A node in the expression graph.
pub enum Node<V, OP1, OP2> {
    /// A constant value.
    Const(V),
    /// A named variable: an external input with no value until one is set.
    Variable(NameId),
    /// A trainable parameter, optionally named, with its initial value.
    Parameter(Option<NameId>, V),
    /// An arity-1 operation, like `ln` or `sin`; one dependency.
    Ary1(OP1, Ident),
    /// An arity-2 operation, like addition; two dependencies.
    Ary2(OP2, Ident, Ident),
}

/// A lightweight, copyable handle to a registered node. Handles returned by
/// one builder are only meaningful for that builder (and for the computation
/// graph later frozen from it).
#[derive(Clone, Copy, Debug)]
pub struct Expr {
    pub ident: Ident,
}

impl Expr {
    /// The identifier of the node this handle denotes.
    pub fn ident(&self) -> (r: Ident)
        ensures
            r == self.ident,
    {
        self.ident
    }

    /// The fully parenthesized text of this expression, rendered against
    /// the builder that issued the handle.
    pub fn to_string<V, OP1, OP2>(&self, eb: &ExprBuilder<V, OP1, OP2>) -> (r: String) where
        V: ComputValue,
        OP1: Operator,
        OP2: Operator,

        requires
            eb.wf(),
            self.ident.0 < eb.nodes@.len(),
        ensures
            r@ == eb.expr_text(self.ident.0 as int),
    {
        eb.render_node(self.ident.0)
    }
}

/// The fully parenthesized text of the expression rooted at node `i`: a
/// constant renders as its value, a variable or named parameter as its
/// name (an anonymous parameter as a question mark), an arity-1 operation
/// as `sym(arg)` and an arity-2 operation as `(left sym right)`.
pub open spec fn node_text<V, OP1, OP2>(
    nodes: Seq<Node<V, OP1, OP2>>,
    names: Seq<Option<Seq<char>>>,
    i: int,
) -> Seq<char> where V: ComputValue, OP1: Operator, OP2: Operator
    decreases i,
{
    if 0 <= i < nodes.len() {
        match nodes[i] {
            Node::Const(v) => v.render_spec(),
            Node::Variable(nid) => name_text(names, nid),
            Node::Parameter(onid, _) => match onid {
                Some(nid) => name_text(names, nid),
                None => "?"@,
            },
            Node::Ary1(op, a) => if a.0 < i {
                op.symbol_spec() + "("@ + node_text(nodes, names, a.0 as int) + ")"@
            } else {
                Seq::empty()
            },
            Node::Ary2(op, a, b) => if a.0 < i && b.0 < i {
                "("@ + node_text(nodes, names, a.0 as int) + op.symbol_spec() + node_text(
                    nodes,
                    names,
                    b.0 as int,
                ) + ")"@
            } else {
                Seq::empty()
            },
        }
    } else {
        Seq::empty()
    }
}

/// The name under `nid` in the name arena, or a question mark if absent.
pub open spec fn name_text(names: Seq<Option<Seq<char>>>, nid: NameId) -> Seq<char> {
    if 0 <= nid.0.0 < names.len() {
        match names[nid.0.0 as int] {
            Some(s) => s,
            None => "?"@,
        }
    } else {
        "?"@
    }
}

/// One decimal digit as a string slice.
fn digit_str(d: u32) -> (r: &'static str)
    requires
        d < 10,
    ensures
        r@ == seq![dec_digit(d as int)],
{
    proof {
        reveal_strlit("0");
        reveal_strlit("1");
        reveal_strlit("2");
        reveal_strlit("3");
        reveal_strlit("4");
        reveal_strlit("5");
        reveal_strlit("6");
        reveal_strlit("7");
        reveal_strlit("8");
        reveal_strlit("9");
    }
    match d {
        0 => "0",
        1 => "1",
        2 => "2",
        3 => "3",
        4 => "4",
        5 => "5",
        6 => "6",
        7 => "7",
        8 => "8",
        _ => "9",
    }
}

/// The decimal form of a non-negative integer.
fn dec_string(n: u32) -> (s: String)
    ensures
        s@ == dec_text(n as int),
    decreases n,
{
    if n < 10 {
        digit_str(n).to_owned()
    } else {
        let mut s = dec_string(n / 10);
        s.append(digit_str(n % 10));
        s
    }
}

/// The decimal form of an integer, used when an operator symbol carries an
/// integer (a constant exponent).
pub fn int_string(v: i32) -> (s: String)
    ensures
        s@ == int_text(v as int),
{
    if v < 0 {
        let m: u32 = (-(v as i64)) as u32;
        let mut s = "-".to_owned();
        proof {
            reveal_strlit("-");
            assert("-"@ =~= seq!['-']);
        }
        let rest = dec_string(m);
        s.append(rest.as_str());
        s
    } else {
        dec_string(v as u32)
    }
}

/// The expression builder owns the append-only arena of nodes and the names
/// of variables and parameters. It only manages the syntax tree; it does not
/// know how to compute anything. Consuming it with
/// [`crate::compute::ComputGraph::new`] freezes the topology for good.
pub struct ExprBuilder<V, OP1, OP2> {
    /// Node arena; the node with identifier `i` lives at index `i`.
    pub nodes: Vec<Node<V, OP1, OP2>>,
    /// Name arena, parallel to `nodes`: entry `i` holds the name of node `i`
    /// if that node is a variable or a named parameter.
    pub names: Vec<Option<String>>,
}

impl<V, OP1, OP2> ExprBuilder<V, OP1, OP2> where V: ComputValue, OP1: Operator, OP2: Operator {
    /// The names, seen as character sequences.
    pub open spec fn names_view(self) -> Seq<Option<Seq<char>>> {
        Seq::new(
            self.names@.len(),
            |i: int|
                match self.names@[i] {
                    Some(s) => Some(s@),
                    None => None,
                },
        )
    }

    /// The name registered under `nid`, if any.
    pub open spec fn name_seq_of(self, nid: NameId) -> Option<Seq<char>> {
        if 0 <= nid.0.0 < self.names@.len() {
            self.names_view()[nid.0.0 as int]
        } else {
            None
        }
    }

    /// Whether some variable or named parameter already carries `name`.
    pub open spec fn name_in_use(self, name: Seq<char>) -> bool {
        exists|i: int|
            0 <= i < self.names@.len() && #[trigger] self.names_view()[i] == Some(name)
    }

    /// Well-formedness of one node with respect to its position `i` in the
    /// arena: dependencies point strictly downward, and named nodes carry
    /// their own identifier as name identifier, with the name present.
    pub open spec fn node_wf_at(self, i: int) -> bool {
        match self.nodes@[i] {
            Node::Const(_) => true,
            Node::Variable(nid) => nid.0.0 == i && self.names_view()[i] is Some,
            Node::Parameter(onid, _) => match onid {
                Some(nid) => nid.0.0 == i && self.names_view()[i] is Some,
                None => true,
            },
            Node::Ary1(_, a) => a.0 < i,
            Node::Ary2(_, a, b) => a.0 < i && b.0 < i,
        }
    }

    /// Builder invariant: the two arenas run in parallel, every node is
    /// well-formed at its position, and names are globally unique.
    pub open spec fn wf(self) -> bool {
        &&& self.names@.len() == self.nodes@.len()
        &&& forall|i: int| 0 <= i < self.nodes@.len() ==> #[trigger] self.node_wf_at(i)
        &&& forall|i: int, j: int|
            0 <= i < self.names@.len() && 0 <= j < self.names@.len() && i != j
                && #[trigger] self.names_view()[i] is Some ==> self.names_view()[i]
                != #[trigger] self.names_view()[j]
    }

    /// A node that [`Self::register_node_get_expr`] accepts: its dependencies
    /// must already exist, and it must not be a named node (names are only
    /// registered through [`Self::new_variable`] and
    /// [`Self::new_named_parameter`]).
    pub open spec fn node_registrable(self, node: Node<V, OP1, OP2>) -> bool {
        match node {
            Node::Const(_) => true,
            Node::Variable(_) => false,
            Node::Parameter(onid, _) => onid is None,
            Node::Ary1(_, a) => a.0 < self.nodes@.len(),
            Node::Ary2(_, a, b) => a.0 < self.nodes@.len() && b.0 < self.nodes@.len(),
        }
    }

    /// An empty builder.
    pub fn new() -> (r: ExprBuilder<V, OP1, OP2>)
        ensures
            r.nodes@ =~= Seq::<Node<V, OP1, OP2>>::empty(),
            r.names@ =~= Seq::<Option<String>>::empty(),
            r.wf(),
    {
        ExprBuilder { nodes: Vec::new(), names: Vec::new() }
    }

    /// Register a variable node under a fresh identifier. The name must not
    /// be in use by any prior variable or named parameter of this builder.
    pub fn new_variable(&mut self, name: &str) -> (r: Expr)
        requires
            old(self).wf(),
            !old(self).name_in_use(name@),
        ensures
            final(self).wf(),
            r.ident.0 == old(self).nodes@.len(),
            final(self).nodes@ =~= old(self).nodes@.push(
                Node::Variable(NameId(Ident((old(self).nodes@.len()) as usize))),
            ),
            final(self).names_view() =~= old(self).names_view().push(Some(name@)),
    {
        let ident = self.new_ident();
        self.names.push(Some(name.to_owned()));
        self.nodes.push(Node::Variable(NameId(ident)));
        proof {
            assert forall|i: int| 0 <= i < self.nodes@.len() implies #[trigger] self.node_wf_at(
                i,
            ) by {
                if i < old(self).nodes@.len() {
                    assert(old(self).node_wf_at(i));
                    assert(self.nodes@[i] == old(self).nodes@[i]);
                    assert(self.names_view()[i] == old(self).names_view()[i]);
                }
            }
            assert(forall|i: int|
                0 <= i < old(self).names@.len() ==> #[trigger] self.names_view()[i] == old(
                    self,
                ).names_view()[i]);
        }
        Expr { ident }
    }

    /// Register an anonymous parameter node with an initial value. The value
    /// is only used later, when the builder is frozen into a computation
    /// graph.
    pub fn new_parameter(&mut self, value: V) -> (r: Expr)
        requires
            old(self).wf(),
        ensures
            final(self).wf(),
            r.ident.0 == old(self).nodes@.len(),
            final(self).nodes@ =~= old(self).nodes@.push(Node::Parameter(None, value)),
            final(self).names_view() =~= old(self).names_view().push(None),
    {
        let ident = self.new_ident();
        self.names.push(None);
        self.nodes.push(Node::Parameter(None, value));
        proof {
            self.lemma_push_unnamed_preserves_wf(*old(self));
        }
        Expr { ident }
    }

    /// Register a named parameter node; the name obeys the same uniqueness
    /// rule as variable names.
    pub fn new_named_parameter(&mut self, name: &str, value: V) -> (r: Expr)
        requires
            old(self).wf(),
            !old(self).name_in_use(name@),
        ensures
            final(self).wf(),
            r.ident.0 == old(self).nodes@.len(),
            final(self).nodes@ =~= old(self).nodes@.push(
                Node::Parameter(Some(NameId(Ident((old(self).nodes@.len()) as usize))), value),
            ),
            final(self).names_view() =~= old(self).names_view().push(Some(name@)),
    {
        let ident = self.new_ident();
        self.names.push(Some(name.to_owned()));
        self.nodes.push(Node::Parameter(Some(NameId(ident)), value));
        proof {
            assert forall|i: int| 0 <= i < self.nodes@.len() implies #[trigger] self.node_wf_at(
                i,
            ) by {
                if i < old(self).nodes@.len() {
                    assert(old(self).node_wf_at(i));
                    assert(self.nodes@[i] == old(self).nodes@[i]);
                    assert(self.names_view()[i] == old(self).names_view()[i]);
                }
            }
            assert(forall|i: int|
                0 <= i < old(self).names@.len() ==> #[trigger] self.names_view()[i] == old(
                    self,
                ).names_view()[i]);
        }
        Expr { ident }
    }

    /// Append an unnamed node (a constant, an anonymous parameter, or an
    /// operation over existing handles) and hand back a handle to it. No
    /// deduplication is performed: registering the same combination twice
    /// creates two distinct nodes.
    pub fn register_node_get_expr(&mut self, node: Node<V, OP1, OP2>) -> (r: Expr)
        requires
            old(self).wf(),
            old(self).node_registrable(node),
        ensures
            final(self).wf(),
            r.ident.0 == old(self).nodes@.len(),
            final(self).nodes@ =~= old(self).nodes@.push(node),
            final(self).names_view() =~= old(self).names_view().push(None),
    {
        let ident = self.new_ident();
        self.names.push(None);
        self.nodes.push(node);
        proof {
            self.lemma_push_unnamed_preserves_wf(*old(self));
        }
        Expr { ident }
    }

    /// The name registered under `name_id`, if any.
    pub fn get_name(&self, name_id: &NameId) -> (r: Option<String>)
        ensures
            match r {
                Some(s) => self.name_seq_of(*name_id) == Some(s@),
                None => self.name_seq_of(*name_id) is None,
            },
    {
        let idx = name_id.0.0;
        if idx < self.names.len() {
            match &self.names[idx] {
                Some(s) => Some(s.clone()),
                None => None,
            }
        } else {
            None
        }
    }

    /// A fresh identifier: the next free arena index.
    fn new_ident(&self) -> (r: Ident)
        ensures
            r.0 == self.nodes@.len(),
    {
        Ident(self.nodes.len())
    }

    /// The fully parenthesized text of the expression rooted at node `i`.
    pub open spec fn expr_text(self, i: int) -> Seq<char> {
        node_text(self.nodes@, self.names_view(), i)
    }

    /// Render the expression rooted at node `i`, recursively looking up
    /// dependency nodes and variable or parameter names.
    fn render_node(&self, i: usize) -> (r: String)
        requires
            self.wf(),
            i < self.nodes@.len(),
        ensures
            r@ == self.expr_text(i as int),
        decreases i,
    {
        proof {
            assert(self.node_wf_at(i as int));
        }
        match &self.nodes[i] {
            Node::Const(v) => v.render(),
            Node::Variable(nid) => match self.get_name(nid) {
                Some(name) => name,
                None => "?".to_owned(),
            },
            Node::Parameter(onid, _) => match onid {
                Some(nid) => match self.get_name(nid) {
                    Some(name) => name,
                    None => "?".to_owned(),
                },
                None => "?".to_owned(),
            },
            Node::Ary1(op, a) => {
                let mut s = op.symbol();
                s.append("(");
                let inner = self.render_node(a.0);
                s.append(inner.as_str());
                s.append(")");
                s
            },
            Node::Ary2(op, a, b) => {
                let mut s = "(".to_owned();
                let left = self.render_node(a.0);
                s.append(left.as_str());
                let sym = op.symbol();
                s.append(sym.as_str());
                let right = self.render_node(b.0);
                s.append(right.as_str());
                s.append(")");
                s
            },
        }
    }

    /// Pushing an unnamed, well-formed-in-place node keeps the builder
    /// invariant.
    proof fn lemma_push_unnamed_preserves_wf(self, prev: Self)
        requires
            prev.wf(),
            self.nodes@.len() == prev.nodes@.len() + 1,
            self.names@.len() == prev.names@.len() + 1,
            forall|i: int| 0 <= i < prev.nodes@.len() ==> self.nodes@[i] == prev.nodes@[i],
            forall|i: int| 0 <= i < prev.names@.len() ==> self.names@[i] == prev.names@[i],
            self.names@[prev.names@.len() as int] is None,
            self.node_wf_at(prev.nodes@.len() as int),
        ensures
            self.wf(),
    {
        assert forall|i: int| 0 <= i < self.nodes@.len() implies #[trigger] self.node_wf_at(i) by {
            if i < prev.nodes@.len() {
                assert(prev.node_wf_at(i));
                assert(self.nodes@[i] == prev.nodes@[i]);
                assert(self.names_view()[i] == prev.names_view()[i]);
            }
        }
        assert(forall|i: int|
            0 <= i < prev.names@.len() ==> #[trigger] self.names_view()[i] == prev.names_view()[i]);
    }
}

} // verus!
