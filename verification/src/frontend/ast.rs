//! The syntax tree.

use vstd::prelude::*;
use crate::paths::PathIdx;
use crate::source::Source;
use crate::strings::StringIdx;
use crate::types::{ScopeIdx, TypeIdx};

verus! {

/// The kind of a node.
#[derive(Debug, Copy, Clone, PartialEq, Eq, Hash, Structural)]
pub enum NodeType {
    // markers and parts of other nodes
    Invalid,
    IsPublic,
    IsExternal,
    IsExported,
    IsConstant,
    Block,
    ArgumentList,
    ArgumentDecl,
    UsedPath,
    // statements
    ModuleDecl,
    UsageDecl,
    StructDecl,
    EnumDecl,
    InterfaceDecl,
    FunctionDecl,
    VariableDecl,
    Return,
    Continue,
    Break,
    If,
    Loop,
    While,
    Assign,
    AssignAdd,
    AssignSubtract,
    AssignMultiply,
    AssignDivide,
    AssignRemainder,
    // expressions
    NamespaceAccess,
    VariableAccess,
    PathAccess,
    Call,
    IntegerLiteral,
    FloatLiteral,
    StringLiteral,
    CStringLiteral,
    UnitLiteral,
    BooleanLiteral,
    MemberAccess,
    TypeCast,
    SizeOf,
    AddressOf,
    Deref,
    Add,
    Subtract,
    Multiply,
    Divide,
    Remainder,
    Negate,
    LessThan,
    GreaterThan,
    LessThanEqual,
    GreaterThanEqual,
    Equal,
    NotEqual,
    LogicalNot,
    LogicalAnd,
    LogicalOr,
    // types
    PointerType,
    ReferenceType,
    U8Type,
    U16Type,
    U32Type,
    U64Type,
    UsizeType,
    S8Type,
    S16Type,
    S32Type,
    S64Type,
    F32Type,
    F64Type,
    UnitType,
    BoolType,
    FunctionType,
}

/// What a node carries besides its children.
#[derive(Debug, Clone, Copy, PartialEq, Eq, Hash, Structural)]
pub enum NodeValue {
    Empty,
    String(StringIdx),
    Path(PathIdx),
    Scope(ScopeIdx),
}

/// A node of the syntax tree. It owns its children.
#[derive(Debug, PartialEq, Eq, Hash)]
pub struct AstNode {
    pub t: NodeType,
    pub source: Source,
    pub value: NodeValue,
    pub children: Vec<AstNode>,
    pub result_type: TypeIdx,
}

/// A syntax tree as a plain value.
pub struct Tree {
    pub t: NodeType,
    pub source: Source,
    pub value: NodeValue,
    pub children: Seq<Tree>,
    pub result_type: TypeIdx,
}

/// The tree that `node` stands for.
pub open spec fn tree_of(node: AstNode) -> Tree
    decreases node,
{
    Tree {
        t: node.t,
        source: node.source,
        value: node.value,
        children: Seq::new(
            node.children.len() as nat,
            |i: int|
                if 0 <= i < node.children.len() {
                    tree_of(node.children[i])
                } else {
                    arbitrary()
                },
        ),
        result_type: node.result_type,
    }
}

impl View for AstNode {
    type V = Tree;

    open spec fn view(&self) -> Tree {
        tree_of(*self)
    }
}

/// The trees that a list of nodes stands for.
pub open spec fn trees_of(nodes: Seq<AstNode>) -> Seq<Tree> {
    Seq::new(nodes.len(), |i: int| nodes[i]@)
}

/// The children of a node's tree are the trees of its children.
pub proof fn lemma_tree_children(node: AstNode)
    ensures
        node@.children == trees_of(node.children@),
{
    assert(node@.children =~= trees_of(node.children@));
}

/// Appending a node appends its tree.
pub proof fn lemma_trees_push(nodes: Seq<AstNode>, node: AstNode)
    ensures
        trees_of(nodes.push(node)) == trees_of(nodes).push(node@),
{
    assert(trees_of(nodes.push(node)) =~= trees_of(nodes).push(node@));
}

/// A copy of a list of nodes.
pub fn clone_nodes(nodes: &Vec<AstNode>) -> (r: Vec<AstNode>)
    ensures
        trees_of(r@) == trees_of(nodes@),
    decreases nodes,
{
    let mut r: Vec<AstNode> = Vec::new();
    let mut i: usize = 0;
    while i < nodes.len()
        invariant
            i <= nodes.len(),
            r.len() == i,
            forall|k: int| 0 <= k < i ==> r[k]@ == nodes[k]@,
        decreases nodes.len() - i,
    {
        let c = nodes[i].clone();
        r.push(c);
        i = i + 1;
    }
    assert(trees_of(r@) =~= trees_of(nodes@));
    r
}

impl Clone for AstNode {
    fn clone(&self) -> (r: AstNode)
        ensures
            r@ == self@,
        decreases self,
    {
        let children = clone_nodes(&self.children);
        let r = AstNode {
            t: self.t,
            source: self.source,
            value: self.value,
            children,
            result_type: self.result_type,
        };
        proof {
            lemma_tree_children(r);
            lemma_tree_children(*self);
        }
        r
    }
}

impl AstNode {
    /// A node of the kind `t` with the given parts.
    pub fn new(
        t: NodeType,
        source: Source,
        value: NodeValue,
        children: Vec<AstNode>,
        result_type: TypeIdx,
    ) -> (r: AstNode)
        ensures
            r@ == (Tree { t, source, value, children: trees_of(children@), result_type }),
            r.t == t,
            r.source == source,
            r.value == value,
            r.children == children,
            r.result_type == result_type,
    {
        let r = AstNode { t, source, value, children, result_type };
        proof {
            lemma_tree_children(r);
        }
        r
    }

    /// A node without value and children.
    pub fn empty(t: NodeType, source: Source, result_type: TypeIdx) -> (r: AstNode)
        ensures
            r@ == leaf(t, source, result_type),
    {
        let r = AstNode { t, source, value: NodeValue::Empty, children: Vec::new(), result_type };
        proof {
            lemma_tree_children(r);
            assert(r@.children =~= Seq::<Tree>::empty());
        }
        r
    }
}

/// Whether `a` and `b` have the same shape: the same kinds and values in
/// the same places, wherever in the source they stand and whatever their
/// types are.
pub open spec fn shape_eq(a: Tree, b: Tree) -> bool
    decreases a,
{
    &&& a.t == b.t
    &&& a.value == b.value
    &&& a.children.len() == b.children.len()
    &&& forall|i: int|
        0 <= i < a.children.len() ==> shape_eq(#[trigger] a.children[i], b.children[i])
}

/// Whether `a` and `b` are as many trees, of the same shapes.
pub open spec fn shapes_eq(a: Seq<Tree>, b: Seq<Tree>) -> bool {
    &&& a.len() == b.len()
    &&& forall|i: int| 0 <= i < a.len() ==> shape_eq(#[trigger] a[i], b[i])
}

/// Whether the nodes `a` and `b` have the same shape.
pub fn same_shape(a: &AstNode, b: &AstNode) -> (r: bool)
    ensures
        r == shape_eq(a@, b@),
    decreases a,
{
    proof {
        lemma_tree_children(*a);
        lemma_tree_children(*b);
    }
    if a.t != b.t || a.value != b.value || a.children.len() != b.children.len() {
        return false;
    }
    let mut i: usize = 0;
    while i < a.children.len()
        invariant
            i <= a.children.len(),
            a.children.len() == b.children.len(),
            a@.children == trees_of(a.children@),
            b@.children == trees_of(b.children@),
            forall|k: int| 0 <= k < i ==> shape_eq(#[trigger] a@.children[k], b@.children[k]),
        decreases a.children.len() - i,
    {
        if !same_shape(&a.children[i], &b.children[i]) {
            assert(!shape_eq(a@.children[i as int], b@.children[i as int]));
            return false;
        }
        i = i + 1;
    }
    true
}

/// Whether `a` and `b` are as many nodes, of the same shapes.
pub fn same_shapes(a: &Vec<AstNode>, b: &Vec<AstNode>) -> (r: bool)
    ensures
        r == shapes_eq(trees_of(a@), trees_of(b@)),
{
    if a.len() != b.len() {
        return false;
    }
    let mut i: usize = 0;
    while i < a.len()
        invariant
            i <= a.len(),
            a.len() == b.len(),
            forall|k: int| 0 <= k < i ==> shape_eq(#[trigger] trees_of(a@)[k], trees_of(b@)[k]),
        decreases a.len() - i,
    {
        if !same_shape(&a[i], &b[i]) {
            assert(!shape_eq(trees_of(a@)[i as int], trees_of(b@)[i as int]));
            return false;
        }
        i = i + 1;
    }
    true
}

/// An empty list of nodes.
pub fn no_nodes() -> (v: Vec<AstNode>)
    ensures
        v@.len() == 0,
        trees_of(v@) == Seq::<Tree>::empty(),
{
    let v: Vec<AstNode> = Vec::new();
    assert(trees_of(v@) =~= Seq::<Tree>::empty());
    v
}

/// Appends `node` to `nodes`.
pub fn add_node(nodes: &mut Vec<AstNode>, node: AstNode)
    ensures
        final(nodes)@ == old(nodes)@.push(node),
        trees_of(final(nodes)@) == trees_of(old(nodes)@).push(node@),
{
    nodes.push(node);
    proof {
        lemma_trees_push(old(nodes)@, node);
    }
}

/// A parsed value or the invalid node in its place, the node as a tree.
pub open spec fn value_result<T>(r: Result<T, AstNode>) -> Result<T, Tree> {
    match r {
        Ok(v) => Ok(v),
        Err(e) => Err(e@),
    }
}

/// A parsed node or the invalid node in its place, as trees.
pub open spec fn tree_result(r: Result<AstNode, AstNode>) -> Result<Tree, Tree> {
    match r {
        Ok(n) => Ok(n@),
        Err(e) => Err(e@),
    }
}

/// The tree of a node without value and children.
pub open spec fn leaf(t: NodeType, source: Source, result_type: TypeIdx) -> Tree {
    Tree { t, source, value: NodeValue::Empty, children: Seq::empty(), result_type }
}

} // verus!
