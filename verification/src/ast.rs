//! The syntax tree that the pass works on.
//!
//! A program is a tree of [`Node`]s. Every node has a [`Kind`], a source
//! [`Span`] and an ordered list of child nodes; what the children of a node
//! mean is fixed by its kind and documented on the variants of [`Kind`].
//! Identifiers are already resolved: an [`Id`] names one binding, however many
//! bindings share its spelling.
//!
//! Contracts speak of a tree through its view, [`NodeV`], which holds the
//! children as a mathematical sequence.

use vstd::prelude::*;

verus! {

/// Where a node comes from: a range of positions in the source text, or
/// whatever else the embedder finds a node by. The pass never looks inside;
/// it hands each span on with its node, and gives a reference that it makes
/// the span of what the reference stands for.
#[derive(Clone, Copy, Debug, PartialEq, Eq, Structural)]
pub struct Span {
    pub lo: u32,
    pub hi: u32,
}

/// A resolved identifier: an interned spelling and the tag of its binding.
///
/// Two identifiers are the same binding exactly when both parts agree.
#[derive(Clone, Copy, Debug, PartialEq, Eq, Structural)]
pub struct Id {
    pub sym: u64,
    pub tag: u32,
}

/// The interned spelling reserved for `undefined`.
pub const UNDEFINED_SYM: u64 = 0;

/// The binding tag of an identifier that no declaration binds.
pub const UNRESOLVED_TAG: u32 = 0;

/// A literal. Numbers are held as the bits of their IEEE-754 double, the
/// other payloads as handles into the embedder's tables.
#[derive(Clone, Copy, Debug, PartialEq, Eq, Structural)]
pub enum Lit {
    Null,
    Bool(bool),
    Num(u64),
    Str(u64),
    BigInt(u64),
    Regex(u64),
}

#[derive(Clone, Copy, Debug, PartialEq, Eq, Structural)]
pub enum VarDeclKind {
    Var,
    Let,
    Const,
}

#[derive(Clone, Copy, Debug, PartialEq, Eq, Structural)]
pub enum UnaryOp {
    Minus,
    Plus,
    Not,
    BitNot,
    TypeOf,
    Void,
    Delete,
}

#[derive(Clone, Copy, Debug, PartialEq, Eq, Structural)]
pub enum BinaryOp {
    EqEq,
    NotEq,
    EqEqEq,
    NotEqEq,
    Lt,
    LtEq,
    Gt,
    GtEq,
    LShift,
    RShift,
    ZeroFillRShift,
    Add,
    Sub,
    Mul,
    Div,
    Mod,
    BitOr,
    BitXor,
    BitAnd,
    LogicalOr,
    LogicalAnd,
    In,
    InstanceOf,
    Exp,
    NullishCoalescing,
}

#[derive(Clone, Copy, Debug, PartialEq, Eq, Structural)]
pub enum AssignOp {
    /// Plain `=`.
    Assign,
    /// `op=` for the given binary operator.
    Compound(BinaryOp),
}

/// What a node is. The comment on each variant gives its children in order;
/// `Empty` stands in for an absent optional child.
#[derive(Clone, Copy, Debug, PartialEq, Eq, Structural)]
pub enum Kind {
    /// The program: its items.
    Module,
    /// `e;`: the expression.
    ExprStmt,
    /// `var`/`let`/`const`: the declarators.
    VarDecl(VarDeclKind),
    /// One declarator: the name pattern, then the initializer if there is one.
    Declarator,
    /// `function f ..`: the [`Kind::Function`].
    FnDecl(Id),
    /// `{ .. }`: the statements.
    Block,
    /// `if`: the test, the consequent, then the alternative if there is one.
    If,
    /// `switch`: the discriminant, then the cases.
    Switch,
    /// One case: the test (`Empty` for `default`), then the statements.
    Case,
    /// `try`: the block, the handler, the finalizer.
    Try,
    /// `catch`: the parameter, the body block.
    Catch,
    /// `for (init; test; update) body`.
    For,
    /// `for (left in right) body`.
    ForIn,
    /// `for (left of right) body`.
    ForOf,
    /// `while (test) body`: the test, the body.
    While,
    /// `do body while (test)`: the test, the body.
    DoWhile,
    /// `return e`: the argument if there is one.
    Return,
    /// Parameters and body of a function that binds `this`: a
    /// [`Kind::Params`], then the body block.
    Function,
    /// A parameter list: the patterns.
    Params,
    /// `this`.
    This,
    /// A reference to a binding.
    Ident(Id),
    Lit(Lit),
    /// The operand.
    Unary(UnaryOp),
    /// `++`/`--`: the operand.
    Update { decrement: bool, prefix: bool },
    /// The left operand, the right operand.
    Bin(BinaryOp),
    /// The target (a pattern or an expression), the value.
    Assign(AssignOp),
    /// `obj.prop` or `obj[prop]`: the object, the property.
    Member { computed: bool },
    /// The callee, then the arguments.
    Call,
    /// The callee, then the arguments.
    New,
    /// `(e)`.
    Paren,
    /// A function expression, named or not: the [`Kind::Function`].
    FnExpr(Option<Id>),
    /// `(..) => ..`: a [`Kind::Params`], then a block or an expression.
    Arrow,
    /// An identifier in binding position.
    BindingIdent(Id),
    /// `[a, b]` as a pattern: the elements.
    ArrayPat,
    /// `{a, b: c}` as a pattern: the properties.
    ObjectPat,
    /// `...a`: the pattern.
    RestPat,
    /// `a = 1` inside a pattern: the pattern, the default value.
    AssignPat,
    /// `key: a` inside an object pattern: the key, the pattern.
    KeyValuePat,
    /// An absent optional child.
    Empty,
    /// Any construct that the pass only walks through; the number is the
    /// embedder's own.
    Other(u32),
}

/// A node of the syntax tree.
#[derive(Debug, PartialEq, Eq)]
pub struct Node {
    pub kind: Kind,
    pub span: Span,
    pub kids: Vec<Node>,
}

/// The mathematical value of a [`Node`].
#[verifier::ext_equal]
pub struct NodeV {
    pub kind: Kind,
    pub span: Span,
    pub kids: Seq<NodeV>,
}

/// The values of a sequence of nodes, one for one.
pub open spec fn views(s: Seq<Node>) -> Seq<NodeV>
    decreases s,
{
    Seq::new(
        s.len(),
        |i: int|
            if 0 <= i < s.len() {
                s[i].view()
            } else {
                arbitrary()
            },
    )
}

impl View for Node {
    type V = NodeV;

    open spec fn view(&self) -> NodeV
        decreases self,
    {
        NodeV { kind: self.kind, span: self.span, kids: views(self.kids@) }
    }
}

/// `views` keeps the length and maps each node to its view.
pub proof fn lemma_views(s: Seq<Node>)
    ensures
        views(s).len() == s.len(),
        forall|i: int| 0 <= i < s.len() ==> #[trigger] views(s)[i] == s[i]@,
{
}

/// What the view of a node is, spelled out for its children.
pub proof fn lemma_view(n: Node)
    ensures
        n@.kind == n.kind,
        n@.span == n.span,
        n@.kids == views(n.kids@),
        n@.kids.len() == n.kids.len(),
        forall|i: int| 0 <= i < n.kids.len() ==> #[trigger] n@.kids[i] == n.kids[i]@,
{
    lemma_views(n.kids@);
}

/// The views of a sequence with one node more.
pub proof fn lemma_views_push(s: Seq<Node>, x: Node)
    ensures
        views(s.push(x)) == views(s).push(x@),
{
}

/// The views of no nodes.
pub proof fn lemma_views_empty()
    ensures
        views(Seq::<Node>::empty()) == Seq::<NodeV>::empty(),
{
}

/// One node as a list of children.
pub(crate) fn kids1(a: Node) -> (v: Vec<Node>)
    ensures
        views(v@) == seq![a@],
{
    let mut v: Vec<Node> = Vec::new();
    v.push(a);
    v
}

/// Two nodes as a list of children.
pub(crate) fn kids2(a: Node, b: Node) -> (v: Vec<Node>)
    ensures
        views(v@) == seq![a@, b@],
{
    let mut v: Vec<Node> = Vec::new();
    v.push(a);
    v.push(b);
    v
}

/// Three nodes as a list of children.
pub(crate) fn kids3(a: Node, b: Node, c: Node) -> (v: Vec<Node>)
    ensures
        views(v@) == seq![a@, b@, c@],
{
    let mut v: Vec<Node> = Vec::new();
    v.push(a);
    v.push(b);
    v.push(c);
    v
}

/// The value of an `Option<Node>`.
pub open spec fn opt_view(o: Option<Node>) -> Option<NodeV> {
    match o {
        Some(n) => Some(n@),
        None => None,
    }
}

impl NodeV {
    /// A literal or an identifier reference: the only values that are
    /// substituted without a look at anything else.
    pub open spec fn is_cheap(self) -> bool {
        self.kind is Lit || self.kind is Ident
    }

    /// The identifier reference `id` at `span`.
    pub open spec fn ident(id: Id, span: Span) -> NodeV {
        NodeV { kind: Kind::Ident(id), span, kids: Seq::empty() }
    }

    /// The reference to `undefined` that replaces a read of a binding known
    /// to hold no value yet.
    pub open spec fn undefined(span: Span) -> NodeV {
        NodeV::ident(Id { sym: UNDEFINED_SYM, tag: UNRESOLVED_TAG }, span)
    }

    /// This node with other children.
    pub open spec fn with_kids(self, kids: Seq<NodeV>) -> NodeV {
        NodeV { kind: self.kind, span: self.span, kids }
    }

    /// The identifier that an assignment to this node writes, where the node
    /// is a single identifier.
    pub open spec fn target_id(self) -> Option<Id> {
        match self.kind {
            Kind::BindingIdent(id) => Some(id),
            Kind::Ident(id) => Some(id),
            _ => None,
        }
    }

    /// Whether this node stands where a pattern stands.
    pub open spec fn is_pattern(self) -> bool {
        match self.kind {
            Kind::BindingIdent(_) | Kind::ArrayPat | Kind::ObjectPat | Kind::RestPat
            | Kind::AssignPat | Kind::KeyValuePat => true,
            _ => false,
        }
    }
}

/// Whether `n` mentions `this` outside every function that binds its own:
/// arrow functions are looked into, other functions are not.
pub open spec fn contains_this(n: NodeV) -> bool
    decreases n, 0nat,
{
    match n.kind {
        Kind::This => true,
        Kind::Function | Kind::FnExpr(_) | Kind::FnDecl(_) => false,
        _ => any_contains_this(n.kids, n.kids.len()),
    }
}

/// Whether one of the first `n` nodes of `s` mentions `this`.
pub open spec fn any_contains_this(s: Seq<NodeV>, n: nat) -> bool
    decreases s, n,
{
    if n == 0 || n > s.len() {
        false
    } else {
        any_contains_this(s, (n - 1) as nat) || contains_this(s[n - 1])
    }
}

impl Node {
    /// A node without children.
    pub fn leaf(kind: Kind, span: Span) -> (r: Node)
        ensures
            r@ == (NodeV { kind, span, kids: Seq::empty() }),
    {
        proof {
            lemma_views_empty();
        }
        Node { kind, span, kids: Vec::new() }
    }

    /// A node with the given children.
    pub fn new(kind: Kind, span: Span, kids: Vec<Node>) -> (r: Node)
        ensures
            r@ == (NodeV { kind, span, kids: views(kids@) }),
    {
        Node { kind, span, kids }
    }

    /// The reference to `undefined` at `span`.
    pub fn undefined(span: Span) -> (r: Node)
        ensures
            r@ == NodeV::undefined(span),
    {
        Node::leaf(Kind::Ident(Id { sym: UNDEFINED_SYM, tag: UNRESOLVED_TAG }), span)
    }

    pub fn is_cheap(&self) -> (r: bool)
        ensures
            r == self@.is_cheap(),
    {
        match self.kind {
            Kind::Lit(_) => true,
            Kind::Ident(_) => true,
            _ => false,
        }
    }

    pub fn target_id(&self) -> (r: Option<Id>)
        ensures
            r == self@.target_id(),
    {
        match self.kind {
            Kind::BindingIdent(id) => Some(id),
            Kind::Ident(id) => Some(id),
            _ => None,
        }
    }

    pub fn is_pattern(&self) -> (r: bool)
        ensures
            r == self@.is_pattern(),
    {
        match self.kind {
            Kind::BindingIdent(_) => true,
            Kind::ArrayPat => true,
            Kind::ObjectPat => true,
            Kind::RestPat => true,
            Kind::AssignPat => true,
            Kind::KeyValuePat => true,
            _ => false,
        }
    }

    /// This node with other children.
    pub fn with_kids(&self, kids: Vec<Node>) -> (r: Node)
        ensures
            r@ == self@.with_kids(views(kids@)),
    {
        Node { kind: self.kind, span: self.span, kids }
    }

    /// A copy of the whole tree.
    pub fn deep_copy(&self) -> (r: Node)
        ensures
            r@ == self@,
        decreases self,
    {
        let mut kids: Vec<Node> = Vec::new();
        let mut i: usize = 0;
        while i < self.kids.len()
            invariant
                i <= self.kids.len(),
                views(kids@) == views(self.kids@).take(i as int),
            decreases self.kids.len() - i,
        {
            let kid = self.kids[i].deep_copy();
            proof {
                assert(views(self.kids@).take(i as int + 1) =~= views(self.kids@).take(
                    i as int,
                ).push(views(self.kids@)[i as int]));
            }
            kids.push(kid);
            i = i + 1;
        }
        assert(views(self.kids@).take(i as int) =~= views(self.kids@));
        Node { kind: self.kind, span: self.span, kids }
    }

    /// Whether two trees are equal node for node.
    pub fn same(&self, other: &Node) -> (r: bool)
        ensures
            r == (self@ == other@),
        decreases self,
    {
        if !(self.kind == other.kind) || !(self.span == other.span) || self.kids.len()
            != other.kids.len() {
            proof {
                lemma_view(*self);
                lemma_view(*other);
            }
            return false;
        }
        let mut i: usize = 0;
        while i < self.kids.len()
            invariant
                i <= self.kids.len(),
                self.kids.len() == other.kids.len(),
                forall|j: int| 0 <= j < i ==> self.kids[j]@ == other.kids[j]@,
            decreases self.kids.len() - i,
        {
            if !self.kids[i].same(&other.kids[i]) {
                proof {
                    lemma_view(*self);
                    lemma_view(*other);
                    assert(self@.kids[i as int] == self.kids[i as int]@);
                }
                return false;
            }
            i = i + 1;
        }
        proof {
            assert(self@.kids =~= other@.kids);
        }
        true
    }

    /// Whether the tree mentions `this` outside every function that binds
    /// its own.
    pub fn contains_this(&self) -> (r: bool)
        ensures
            r == contains_this(self@),
        decreases self,
    {
        match self.kind {
            Kind::This => true,
            Kind::Function => false,
            Kind::FnExpr(_) => false,
            Kind::FnDecl(_) => false,
            _ => {
                let mut found = false;
                let mut i: usize = 0;
                while i < self.kids.len()
                    invariant
                        i <= self.kids.len(),
                        self@.kids == views(self.kids@),
                        found == any_contains_this(self@.kids, i as nat),
                    decreases self.kids.len() - i,
                {
                    let here = self.kids[i].contains_this();
                    found = found || here;
                    i = i + 1;
                }
                found
            },
        }
    }
}

} // verus!
