//! The in-process node factory.
//!
//! The parser is memory-agnostic: every node it "creates" is requested from a
//! construction table and comes back as an opaque handle.  [`CtorTable`] is
//! the default in-process factory: an arena whose handles are indices into a
//! growing vector of node records.  Its view is the sequence of [`Node`]
//! records minted so far, and [`decode`] says which [`Expr`] a given handle
//! denotes in that sequence.  A host with its own allocator replaces this
//! table outside of the verified core and keeps the same protocol.

use vstd::prelude::*;

use crate::ast::{BinOp, Expr, FuncKind};

verus! {

/// An opaque node handle: an index minted by the construction table.  The
/// parser never inspects a handle; it only hands it back to the table.
#[derive(Clone, Copy, Debug, PartialEq, Eq, Structural)]
pub struct GCHandle(pub usize);

/// A handle that the table minted for an abstract-syntax-tree node.
#[derive(Clone, Copy, Debug, PartialEq, Eq, Structural)]
pub struct IFunctionAST(pub GCHandle);

/// A handle that the table minted for a string: either a variable name or a
/// diagnostic message.
#[derive(Clone, Copy, Debug, PartialEq, Eq, Structural)]
pub struct GCString(pub GCHandle);

impl GCString {
    /// A stand-in string handle, for callers that need a `GCString`
    /// before any string has been minted.
    pub fn fake() -> (r: Self)
        ensures
            r.0.0 == 0,
    {
        GCString(GCHandle(0))
    }
}

/// One node record of the arena, as the executable code stores it.  The
/// variants mirror the node vocabulary of the construction table; `Str` is a
/// minted string, referenced by `Variable` and used for diagnostics.
#[derive(Clone, Debug)]
pub enum NodeData {
    Number(String),
    Variable(GCString),
    Add(IFunctionAST, IFunctionAST),
    Subtract(IFunctionAST, IFunctionAST),
    Multiply(IFunctionAST, IFunctionAST),
    Divide(IFunctionAST, IFunctionAST),
    Modulo(IFunctionAST, IFunctionAST),
    Exponent(IFunctionAST, IFunctionAST),
    Absolute(IFunctionAST),
    Floor(IFunctionAST),
    Ceil(IFunctionAST),
    Sine(IFunctionAST),
    Cosine(IFunctionAST),
    Tangent(IFunctionAST),
    Pi,
    E,
    Str(String),
}

/// The ghost view of one node record: handles become plain indices and
/// the node kinds collapse onto [`BinOp`] and [`FuncKind`].
pub enum Node {
    Number(Seq<char>),
    VarRef(int),
    Binary(BinOp, int, int),
    Apply(FuncKind, int),
    Pi,
    E,
    Str(Seq<char>),
}

impl View for NodeData {
    type V = Node;

    open spec fn view(&self) -> Node {
        match self {
            NodeData::Number(s) => Node::Number(s@),
            NodeData::Variable(g) => Node::VarRef(g.0.0 as int),
            NodeData::Add(l, r) => Node::Binary(BinOp::Add, l.0.0 as int, r.0.0 as int),
            NodeData::Subtract(l, r) => Node::Binary(BinOp::Subtract, l.0.0 as int, r.0.0 as int),
            NodeData::Multiply(l, r) => Node::Binary(BinOp::Multiply, l.0.0 as int, r.0.0 as int),
            NodeData::Divide(l, r) => Node::Binary(BinOp::Divide, l.0.0 as int, r.0.0 as int),
            NodeData::Modulo(l, r) => Node::Binary(BinOp::Modulo, l.0.0 as int, r.0.0 as int),
            NodeData::Exponent(l, r) => Node::Binary(BinOp::Exponent, l.0.0 as int, r.0.0 as int),
            NodeData::Absolute(a) => Node::Apply(FuncKind::Abs, a.0.0 as int),
            NodeData::Floor(a) => Node::Apply(FuncKind::Floor, a.0.0 as int),
            NodeData::Ceil(a) => Node::Apply(FuncKind::Ceil, a.0.0 as int),
            NodeData::Sine(a) => Node::Apply(FuncKind::Sin, a.0.0 as int),
            NodeData::Cosine(a) => Node::Apply(FuncKind::Cos, a.0.0 as int),
            NodeData::Tangent(a) => Node::Apply(FuncKind::Tan, a.0.0 as int),
            NodeData::Pi => Node::Pi,
            NodeData::E => Node::E,
            NodeData::Str(s) => Node::Str(s@),
        }
    }
}

/// Which tree the handle `i` denotes in the arena `ns`.  A handle denotes a
/// tree only if every child handle was minted strictly earlier (construction
/// is bottom-up) and a `Variable` refers to a minted string.  A string handle
/// denotes no tree.
pub open spec fn decode(ns: Seq<Node>, i: int) -> Option<Expr>
    decreases i,
{
    if i < 0 || i >= ns.len() {
        None
    } else {
        match ns[i] {
            Node::Number(s) => Some(Expr::Number(s)),
            Node::VarRef(j) => if 0 <= j < i {
                match ns[j] {
                    Node::Str(s) => Some(Expr::Variable(s)),
                    _ => None,
                }
            } else {
                None
            },
            Node::Binary(op, l, r) => if 0 <= l < i && 0 <= r < i {
                match (decode(ns, l), decode(ns, r)) {
                    (Some(a), Some(b)) => Some(Expr::Binary(op, Box::new(a), Box::new(b))),
                    _ => None,
                }
            } else {
                None
            },
            Node::Apply(k, j) => if 0 <= j < i {
                match decode(ns, j) {
                    Some(a) => Some(Expr::Apply(k, Box::new(a))),
                    None => None,
                }
            } else {
                None
            },
            Node::Pi => Some(Expr::Pi),
            Node::E => Some(Expr::E),
            Node::Str(_) => None,
        }
    }
}

/// What a handle denotes depends only on the records up to the handle, so a
/// table that has grown keeps every earlier denotation.
pub proof fn lemma_decode_prefix(a: Seq<Node>, b: Seq<Node>, i: int)
    requires
        a.is_prefix_of(b),
        i < a.len(),
    ensures
        decode(b, i) == decode(a, i),
    decreases i,
{
    if 0 <= i {
        assert(b[i] == a[i]);
        match a[i] {
            Node::VarRef(j) => {
                if 0 <= j < i {
                    assert(b[j] == a[j]);
                }
            },
            Node::Binary(op, l, r) => {
                if 0 <= l < i && 0 <= r < i {
                    lemma_decode_prefix(a, b, l);
                    lemma_decode_prefix(a, b, r);
                }
            },
            Node::Apply(k, j) => {
                if 0 <= j < i {
                    lemma_decode_prefix(a, b, j);
                }
            },
            _ => {},
        }
    }
}

/// A sequence is a prefix of itself extended by one element.
pub proof fn lemma_push_prefix<A>(s: Seq<A>, x: A)
    ensures
        s.is_prefix_of(s.push(x)),
{
    assert(s =~= s.push(x).subrange(0, s.len() as int));
}

/// Being a prefix is transitive.
pub proof fn lemma_prefix_trans<A>(a: Seq<A>, b: Seq<A>, c: Seq<A>)
    requires
        a.is_prefix_of(b),
        b.is_prefix_of(c),
    ensures
        a.is_prefix_of(c),
{
    assert forall|i: int| 0 <= i < a.len() implies a[i] == c.subrange(0, a.len() as int)[i] by {
        assert(a[i] == b.subrange(0, b.len() as int)[i]);
        assert(b[i] == c.subrange(0, b.len() as int)[i]);
    }
    assert(a =~= c.subrange(0, a.len() as int));
}

/// The construction table: the external protocol of the parser.  Every
/// operation mints exactly one new node record and returns its handle; the
/// view of the table is the sequence of records minted so far.
pub struct CtorTable {
    nodes: Vec<NodeData>,
}

impl View for CtorTable {
    type V = Seq<Node>;

    closed spec fn view(&self) -> Seq<Node> {
        Seq::new(self.nodes@.len(), |i: int| self.nodes@[i]@)
    }
}

impl CtorTable {
    /// An empty in-process table, backed by an index arena.
    pub fn mock_table() -> (r: CtorTable)
        ensures
            r@ == Seq::<Node>::empty(),
    {
        let r = CtorTable { nodes: Vec::new() };
        proof {
            assert(r@ =~= Seq::<Node>::empty());
        }
        r
    }

    /// How many nodes have been minted.
    pub fn node_count(&self) -> (n: usize)
        ensures
            n == self@.len(),
    {
        self.nodes.len()
    }

    /// The record behind a handle, for a host that walks a finished tree.
    pub fn get_node(&self, h: GCHandle) -> (r: Option<&NodeData>)
        ensures
            match r {
                Some(n) => h.0 < self@.len() && n@ == self@[h.0 as int],
                None => h.0 >= self@.len(),
            },
    {
        if h.0 < self.nodes.len() {
            Some(&self.nodes[h.0])
        } else {
            None
        }
    }

    /// Mints one record and returns its index.
    fn mint(&mut self, n: NodeData) -> (h: GCHandle)
        ensures
            final(self)@ == old(self)@.push(n@),
            h.0 == old(self)@.len(),
    {
        let i = self.nodes.len();
        self.nodes.push(n);
        proof {
            assert(self@ =~= old(self)@.push(n@));
        }
        GCHandle(i)
    }

    /// Mints a string node, used for variable names and diagnostics.
    pub fn new_string(&mut self, s: &str) -> (r: GCString)
        ensures
            final(self)@ == old(self)@.push(Node::Str(s@)),
            r.0.0 == old(self)@.len(),
    {
        GCString(self.mint(NodeData::Str(s.to_owned())))
    }

    /// Mints a numeric-constant node carrying the literal text.
    pub fn new_number(&mut self, text: &str) -> (r: IFunctionAST)
        ensures
            final(self)@ == old(self)@.push(Node::Number(text@)),
            r.0.0 == old(self)@.len(),
    {
        IFunctionAST(self.mint(NodeData::Number(text.to_owned())))
    }

    /// Mints a variable node referring to an already minted name string.
    pub fn new_variable(&mut self, name: GCString) -> (r: IFunctionAST)
        ensures
            final(self)@ == old(self)@.push(Node::VarRef(name.0.0 as int)),
            r.0.0 == old(self)@.len(),
    {
        IFunctionAST(self.mint(NodeData::Variable(name)))
    }

    /// Mints a binary node of the given operator over two child handles.
    pub fn new_binary(&mut self, op: BinOp, lhs: IFunctionAST, rhs: IFunctionAST) -> (r:
        IFunctionAST)
        ensures
            final(self)@ == old(self)@.push(Node::Binary(op, lhs.0.0 as int, rhs.0.0 as int)),
            r.0.0 == old(self)@.len(),
    {
        let n = match op {
            BinOp::Add => NodeData::Add(lhs, rhs),
            BinOp::Subtract => NodeData::Subtract(lhs, rhs),
            BinOp::Multiply => NodeData::Multiply(lhs, rhs),
            BinOp::Divide => NodeData::Divide(lhs, rhs),
            BinOp::Modulo => NodeData::Modulo(lhs, rhs),
            BinOp::Exponent => NodeData::Exponent(lhs, rhs),
        };
        IFunctionAST(self.mint(n))
    }

    /// Mints a function-application node over one child handle.
    pub fn new_function(&mut self, k: FuncKind, inner: IFunctionAST) -> (r: IFunctionAST)
        ensures
            final(self)@ == old(self)@.push(Node::Apply(k, inner.0.0 as int)),
            r.0.0 == old(self)@.len(),
    {
        let n = match k {
            FuncKind::Abs => NodeData::Absolute(inner),
            FuncKind::Floor => NodeData::Floor(inner),
            FuncKind::Ceil => NodeData::Ceil(inner),
            FuncKind::Sin => NodeData::Sine(inner),
            FuncKind::Cos => NodeData::Cosine(inner),
            FuncKind::Tan => NodeData::Tangent(inner),
        };
        IFunctionAST(self.mint(n))
    }

    /// Mints an addition node.
    pub fn new_add(&mut self, lhs: IFunctionAST, rhs: IFunctionAST) -> (r: IFunctionAST)
        ensures
            final(self)@ == old(self)@.push(Node::Binary(BinOp::Add, lhs.0.0 as int, rhs.0.0 as int)),
            r.0.0 == old(self)@.len(),
    {
        self.new_binary(BinOp::Add, lhs, rhs)
    }

    /// Mints a subtraction node.
    pub fn new_subtract(&mut self, lhs: IFunctionAST, rhs: IFunctionAST) -> (r: IFunctionAST)
        ensures
            final(self)@ == old(self)@.push(
                Node::Binary(BinOp::Subtract, lhs.0.0 as int, rhs.0.0 as int),
            ),
            r.0.0 == old(self)@.len(),
    {
        self.new_binary(BinOp::Subtract, lhs, rhs)
    }

    /// Mints a multiplication node.
    pub fn new_multiply(&mut self, lhs: IFunctionAST, rhs: IFunctionAST) -> (r: IFunctionAST)
        ensures
            final(self)@ == old(self)@.push(
                Node::Binary(BinOp::Multiply, lhs.0.0 as int, rhs.0.0 as int),
            ),
            r.0.0 == old(self)@.len(),
    {
        self.new_binary(BinOp::Multiply, lhs, rhs)
    }

    /// Mints a division node.
    pub fn new_divide(&mut self, lhs: IFunctionAST, rhs: IFunctionAST) -> (r: IFunctionAST)
        ensures
            final(self)@ == old(self)@.push(Node::Binary(BinOp::Divide, lhs.0.0 as int, rhs.0.0 as int)),
            r.0.0 == old(self)@.len(),
    {
        self.new_binary(BinOp::Divide, lhs, rhs)
    }

    /// Mints a modulo node.
    pub fn new_modulo(&mut self, lhs: IFunctionAST, rhs: IFunctionAST) -> (r: IFunctionAST)
        ensures
            final(self)@ == old(self)@.push(Node::Binary(BinOp::Modulo, lhs.0.0 as int, rhs.0.0 as int)),
            r.0.0 == old(self)@.len(),
    {
        self.new_binary(BinOp::Modulo, lhs, rhs)
    }

    /// Mints an exponentiation node.
    pub fn new_exponent(&mut self, base: IFunctionAST, power: IFunctionAST) -> (r: IFunctionAST)
        ensures
            final(self)@ == old(self)@.push(
                Node::Binary(BinOp::Exponent, base.0.0 as int, power.0.0 as int),
            ),
            r.0.0 == old(self)@.len(),
    {
        self.new_binary(BinOp::Exponent, base, power)
    }

    /// Mints an absolute-value node.
    pub fn new_absolute(&mut self, inner: IFunctionAST) -> (r: IFunctionAST)
        ensures
            final(self)@ == old(self)@.push(Node::Apply(FuncKind::Abs, inner.0.0 as int)),
            r.0.0 == old(self)@.len(),
    {
        self.new_function(FuncKind::Abs, inner)
    }

    /// Mints a floor node.
    pub fn new_floor(&mut self, inner: IFunctionAST) -> (r: IFunctionAST)
        ensures
            final(self)@ == old(self)@.push(Node::Apply(FuncKind::Floor, inner.0.0 as int)),
            r.0.0 == old(self)@.len(),
    {
        self.new_function(FuncKind::Floor, inner)
    }

    /// Mints a ceiling node.
    pub fn new_ceil(&mut self, inner: IFunctionAST) -> (r: IFunctionAST)
        ensures
            final(self)@ == old(self)@.push(Node::Apply(FuncKind::Ceil, inner.0.0 as int)),
            r.0.0 == old(self)@.len(),
    {
        self.new_function(FuncKind::Ceil, inner)
    }

    /// Mints a sine node.
    pub fn new_sine(&mut self, inner: IFunctionAST) -> (r: IFunctionAST)
        ensures
            final(self)@ == old(self)@.push(Node::Apply(FuncKind::Sin, inner.0.0 as int)),
            r.0.0 == old(self)@.len(),
    {
        self.new_function(FuncKind::Sin, inner)
    }

    /// Mints a cosine node.
    pub fn new_cosine(&mut self, inner: IFunctionAST) -> (r: IFunctionAST)
        ensures
            final(self)@ == old(self)@.push(Node::Apply(FuncKind::Cos, inner.0.0 as int)),
            r.0.0 == old(self)@.len(),
    {
        self.new_function(FuncKind::Cos, inner)
    }

    /// Mints a tangent node.
    pub fn new_tangent(&mut self, inner: IFunctionAST) -> (r: IFunctionAST)
        ensures
            final(self)@ == old(self)@.push(Node::Apply(FuncKind::Tan, inner.0.0 as int)),
            r.0.0 == old(self)@.len(),
    {
        self.new_function(FuncKind::Tan, inner)
    }

    /// Mints the `pi` constant.
    pub fn new_pi(&mut self) -> (r: IFunctionAST)
        ensures
            final(self)@ == old(self)@.push(Node::Pi),
            r.0.0 == old(self)@.len(),
    {
        IFunctionAST(self.mint(NodeData::Pi))
    }

    /// Mints the `e` constant.
    pub fn new_e(&mut self) -> (r: IFunctionAST)
        ensures
            final(self)@ == old(self)@.push(Node::E),
            r.0.0 == old(self)@.len(),
    {
        IFunctionAST(self.mint(NodeData::E))
    }
}

} // verus!
