//! The type checker: expressions get their types bottom-up, against an
//! expected type where one is known.

use vstd::prelude::*;
use vstd::string::*;
use crate::error::{Error, ErrorView};
use crate::frontend::ast::{
    AstNode, NodeType, NodeValue, Tree, add_node, clone_nodes, lemma_tree_children, no_nodes,
    trees_of,
};
use crate::frontend::path_exp::list_position;
use crate::frontend::symbols::{Symbol, SymbolView, TableView, cached, has_marker, marked};
use crate::frontend::symbols::{with_instance, with_instance_at};
use crate::interning::{index_after, pool_after, position};
use crate::paths::{PathIdx, copy_segments, path_at};
use crate::source::Source;
use crate::strings::StringIdx;
use crate::types::{ScopeIdx, Type, TypeIdx, type_at};
use crate::Compiler;

verus! {

/// The types, the diagnostics and the symbols while types are checked.
pub struct Checking {
    pub types: Seq<Type>,
    pub errors: Seq<ErrorView>,
    pub table: TableView,
}

/// How deeply instances of templates may be nested in one another.
pub const MAX_INSTANCE_DEPTH: usize = 16;

/// An integer type of a fixed size.
pub open spec fn is_sized_integer(t: Type) -> bool {
    t == Type::U8 || t == Type::U16 || t == Type::U32 || t == Type::U64 || t == Type::Usize || t
        == Type::S8 || t == Type::S16 || t == Type::S32 || t == Type::S64
}

/// A floating-point type of a fixed size.
pub open spec fn is_sized_float(t: Type) -> bool {
    t == Type::F32 || t == Type::F64
}

/// The type that `a` and `b` agree on, if they do: an unknown type agrees
/// with any type, equal types agree, and the type of a literal agrees with
/// every sized type of its family.
pub open spec fn unified(a: Type, b: Type) -> Option<Type> {
    if a == Type::Unknown {
        Some(b)
    } else if b == Type::Unknown {
        Some(a)
    } else if a == b {
        Some(a)
    } else if a == Type::Integer && is_sized_integer(b) {
        Some(b)
    } else if b == Type::Integer && is_sized_integer(a) {
        Some(a)
    } else if a == Type::Float && is_sized_float(b) {
        Some(b)
    } else if b == Type::Float && is_sized_float(a) {
        Some(a)
    } else {
        None
    }
}

/// The state after interning `t`, and the index of `t`.
pub open spec fn interned(st: Checking, t: Type) -> (Checking, TypeIdx) {
    (Checking { types: pool_after(st.types, t), ..st }, TypeIdx(index_after(st.types, t) as usize))
}

/// The state with one more diagnostic.
pub open spec fn complained(st: Checking, reason: Seq<char>, marked: Source) -> Checking {
    Checking { errors: st.errors.push(ErrorView { reason, marked: Some(marked) }), ..st }
}

/// Matches the types `left` and `right`: yields the type that they agree
/// on, or reports at `at` that they do not and yields the unknown type.
pub open spec fn matched(st: Checking, left: TypeIdx, right: TypeIdx, at: Source) -> (
    Checking,
    TypeIdx,
) {
    match unified(type_at(st.types, left), type_at(st.types, right)) {
        Some(t) => interned(st, t),
        None => interned(complained(st, "mismatched types"@, at), Type::Unknown),
    }
}

/// The type of the literal of kind `t`.
pub open spec fn literal_type(t: NodeType) -> Option<Type> {
    match t {
        NodeType::IntegerLiteral => Some(Type::Integer),
        NodeType::FloatLiteral => Some(Type::Float),
        NodeType::BooleanLiteral => Some(Type::Boolean),
        NodeType::UnitLiteral => Some(Type::Unit),
        _ => None,
    }
}

/// The primitive type that a type node of kind `t` names.
pub open spec fn primitive(t: NodeType) -> Option<Type> {
    match t {
        NodeType::U8Type => Some(Type::U8),
        NodeType::U16Type => Some(Type::U16),
        NodeType::U32Type => Some(Type::U32),
        NodeType::U64Type => Some(Type::U64),
        NodeType::UsizeType => Some(Type::Usize),
        NodeType::S8Type => Some(Type::S8),
        NodeType::S16Type => Some(Type::S16),
        NodeType::S32Type => Some(Type::S32),
        NodeType::S64Type => Some(Type::S64),
        NodeType::F32Type => Some(Type::F32),
        NodeType::F64Type => Some(Type::F64),
        NodeType::UnitType => Some(Type::Unit),
        NodeType::BoolType => Some(Type::Boolean),
        _ => None,
    }
}

/// Whether `t` is one of `+ - * / %`.
pub open spec fn is_arithmetic(t: NodeType) -> bool {
    t == NodeType::Add || t == NodeType::Subtract || t == NodeType::Multiply || t
        == NodeType::Divide || t == NodeType::Remainder
}

/// The type that the template parameter `name` is bound to: that of the
/// last binding of the name, if there is one.
pub open spec fn bound(bindings: Seq<(StringIdx, TypeIdx)>, name: StringIdx) -> Option<TypeIdx>
    decreases bindings.len(),
{
    if bindings.len() == 0 {
        None
    } else if bindings.last().0 == name {
        Some(bindings.last().1)
    } else {
        bound(bindings.drop_last(), name)
    }
}

/// The type that the type node `node` names, given the types that template
/// parameters are bound to: a primitive type, a pointer to a type, the type
/// that a template parameter is bound to, or the struct of a path.
pub open spec fn resolved_type(
    types: Seq<Type>,
    paths: Seq<Seq<StringIdx>>,
    bindings: Seq<(StringIdx, TypeIdx)>,
    node: Tree,
) -> (Seq<Type>, TypeIdx)
    decreases node,
{
    if primitive(node.t) is Some {
        (
            pool_after(types, primitive(node.t)->0),
            TypeIdx(index_after(types, primitive(node.t)->0) as usize),
        )
    } else if node.t == NodeType::PointerType && node.children.len() > 0 {
        let (types1, pointee) = resolved_type(types, paths, bindings, node.children.last());
        let pointer = Type::Pointer(has_marker(node.children, NodeType::IsConstant), pointee);
        (pool_after(types1, pointer), TypeIdx(index_after(types1, pointer) as usize))
    } else {
        let named = match node.value {
            NodeValue::String(name) => match bound(bindings, name) {
                Some(t) => Ok(t),
                None => Err(Type::Unknown),
            },
            NodeValue::Path(p) => {
                let segments = path_at(paths, p);
                if segments.len() == 1 && bound(bindings, segments[0]) is Some {
                    Ok(bound(bindings, segments[0])->0)
                } else {
                    Err(Type::Struct(p))
                }
            },
            _ => Err(Type::Unknown),
        };
        match named {
            Ok(t) => (types, t),
            Err(t) => (pool_after(types, t), TypeIdx(index_after(types, t) as usize)),
        }
    }
}

/// The node `node` with new children and a type.
pub open spec fn typed(node: Tree, children: Seq<Tree>, result_type: TypeIdx) -> Tree {
    Tree { children, result_type, ..node }
}

/// What the types of a node are checked against: the paths of the program,
/// the types that template parameters are bound to, and how deeply
/// instances of templates may still be nested.
pub struct Env {
    pub paths: Seq<Seq<StringIdx>>,
    pub bindings: Seq<(StringIdx, TypeIdx)>,
    pub depth: nat,
}

/// The state with other types.
pub open spec fn with_types(st: Checking, types: Seq<Type>) -> Checking {
    Checking { types, ..st }
}

/// The state with another table.
pub open spec fn with_table(st: Checking, table: TableView) -> Checking {
    Checking { table, ..st }
}

/// The types that the type nodes `nodes` name, in order.
pub open spec fn resolved_types(
    types: Seq<Type>,
    paths: Seq<Seq<StringIdx>>,
    bindings: Seq<(StringIdx, TypeIdx)>,
    nodes: Seq<Tree>,
) -> (Seq<Type>, Seq<TypeIdx>)
    decreases nodes.len(),
{
    if nodes.len() == 0 {
        (types, Seq::empty())
    } else {
        let (types1, done) = resolved_types(types, paths, bindings, nodes.drop_last());
        let (types2, last) = resolved_type(types1, paths, bindings, nodes.last());
        (types2, done.push(last))
    }
}

/// Each of `names` bound to the type at its place in `types`, as far as
/// both go.
pub open spec fn bind(names: Seq<StringIdx>, types: Seq<TypeIdx>) -> Seq<(StringIdx, TypeIdx)>
    decreases names.len(),
{
    if names.len() == 0 {
        Seq::empty()
    } else if names.len() > types.len() {
        bind(names.drop_last(), types)
    } else {
        bind(names.drop_last(), types).push((names.last(), types[names.len() - 1]))
    }
}

/// The type nodes of the parameters that `children` declare, in order.
pub open spec fn declared_types(children: Seq<Tree>) -> Seq<Tree>
    decreases children.len(),
{
    if children.len() == 0 {
        Seq::empty()
    } else if children.last().t == NodeType::ArgumentDecl && children.last().children.len() > 0 {
        declared_types(children.drop_last()).push(children.last().children.last())
    } else {
        declared_types(children.drop_last())
    }
}

/// The type nodes of the parameters of the function declaration `decl`.
pub open spec fn param_types(decl: Tree) -> Seq<Tree> {
    let at = list_position(decl.children, 1);
    if 0 <= at < decl.children.len() {
        declared_types(decl.children[at].children)
    } else {
        Seq::empty()
    }
}

/// The node of the return type of the function declaration `decl`: the one
/// after its parameters.
pub open spec fn return_node(decl: Tree) -> Option<Tree> {
    let at = list_position(decl.children, 1) + 1;
    if 0 <= at < decl.children.len() {
        Some(decl.children[at])
    } else {
        None
    }
}

/// The template arguments that the reference `callee` gives: the children
/// of its argument list.
pub open spec fn given_types(callee: Tree) -> Seq<Tree> {
    if callee.children.len() > 0 && callee.children[0].t == NodeType::ArgumentList {
        callee.children[0].children
    } else {
        Seq::empty()
    }
}

/// The path of the symbol that `callee` refers to, if it refers to one.
pub open spec fn callee_path(callee: Tree) -> Option<PathIdx> {
    match callee.value {
        NodeValue::Path(p) if callee.t == NodeType::PathAccess => Some(p),
        _ => None,
    }
}

/// The call `node` with its arguments checked and its type found.
pub open spec fn checked_call(node: Tree, args: Seq<Tree>, t: TypeIdx) -> Tree {
    typed(
        node,
        Seq::empty().push(node.children[0]).push(
            typed(node.children[1], args, node.children[1].result_type),
        ),
        t,
    )
}

/// Checks the node `node`, against the type `expected` if one is given, and
/// yields it with its type and with its children checked.
///
/// The operands of `+ - * / %` are checked against the expected type, and
/// the type of the operation is the type that they agree on. A call is
/// checked against the symbol that it calls. A literal has the type of its
/// kind; a C string is a pointer to constant `u8`. Of any other node the
/// children are checked against no type, and its type is unknown.
pub open spec fn check_tree(st: Checking, env: Env, node: Tree, expected: Option<TypeIdx>) -> (
    Checking,
    Tree,
)
    decreases env.depth, node, 2nat,
{
    if is_arithmetic(node.t) && node.children.len() == 2 {
        let (s1, left) = check_tree(st, env, node.children[0], expected);
        let (s2, right) = check_tree(s1, env, node.children[1], expected);
        let (s3, t) = matched(s2, left.result_type, right.result_type, node.source);
        (s3, typed(node, Seq::empty().push(left).push(right), t))
    } else if node.t == NodeType::Call && node.children.len() == 2 {
        check_call(st, env, node)
    } else {
        let (s1, children) = check_trees(st, env, node.children);
        if literal_type(node.t) is Some {
            let (s2, t) = interned(s1, literal_type(node.t)->0);
            (s2, typed(node, children, t))
        } else if node.t == NodeType::CStringLiteral {
            let (s2, byte) = interned(s1, Type::U8);
            let (s3, t) = interned(s2, Type::Pointer(true, byte));
            (s3, typed(node, children, t))
        } else {
            let (s2, t) = interned(s1, Type::Unknown);
            (s2, typed(node, children, t))
        }
    }
}

/// Checks the call `node` of a callee with a list of arguments.
///
/// Where the callee refers to a symbol, the template parameters of the
/// symbol are bound to the template arguments that the callee gives, each
/// argument is checked against the type of its parameter and must agree
/// with it, and the type of the call is the return type of the symbol; it
/// is a mistake to give more or fewer arguments than the symbol has
/// parameters. After that an instance of the symbol is made, if the symbol
/// has template parameters. It is a mistake to call a path that no symbol
/// is declared under. The type of any other call is unknown.
pub open spec fn check_call(st: Checking, env: Env, node: Tree) -> (Checking, Tree)
    decreases env.depth, node, 1nat,
{
    if node.children.len() != 2 {
        (st, node)
    } else {
        let callee = node.children[0];
        let list = node.children[1];
        match callee_path(callee) {
            None => {
                let (s1, args) = check_trees(st, env, list.children);
                let (s2, t) = interned(s1, Type::Unknown);
                (s2, checked_call(node, args, t))
            },
            Some(path) => match st.table.symbol(path) {
                None => {
                    let s0 = complained(st, "unknown identifier"@, callee.source);
                    let (s1, args) = check_trees(s0, env, list.children);
                    let (s2, t) = interned(s1, Type::Unknown);
                    (s2, checked_call(node, args, t))
                },
                Some(symbol) => {
                    let (types1, given) = resolved_types(
                        st.types,
                        env.paths,
                        env.bindings,
                        given_types(callee),
                    );
                    let bindings = bind(symbol.template_args, given);
                    let params = param_types(symbol.decl);
                    let s1 = with_types(st, types1);
                    let (s2, args) = if list.children.len() != params.len() {
                        check_trees(
                            complained(s1, "wrong number of arguments"@, node.source),
                            env,
                            list.children,
                        )
                    } else {
                        check_args(s1, env, list.children, params, bindings)
                    };
                    let (types3, t) = match return_node(symbol.decl) {
                        Some(returned) => resolved_type(s2.types, env.paths, bindings, returned),
                        None => (
                            pool_after(s2.types, Type::Unknown),
                            TypeIdx(index_after(s2.types, Type::Unknown) as usize),
                        ),
                    };
                    let s3 = with_types(s2, types3);
                    let s4 = if symbol.template_args.len() > 0 {
                        instantiate(
                            s3,
                            env,
                            node,
                            position(st.table.symbol_paths, path),
                            given_types(callee),
                            bindings,
                        )
                    } else {
                        s3
                    };
                    (s4, checked_call(node, args, t))
                },
            },
        }
    }
}

/// Makes an instance of the symbol at the place `slot` for the template
/// arguments `key`, unless the symbol has an instance for template
/// arguments of that shape, or instances are nested too deeply: the
/// declaration of the symbol is checked with its template parameters bound
/// as `bindings` says, and the outcome is kept with the symbol. While the
/// declaration is checked the declaration as it stands is kept in its
/// place, which ends the making of instances where a template refers to
/// itself. `node` is the call that asks for the instance.
pub open spec fn instantiate(
    st: Checking,
    env: Env,
    node: Tree,
    slot: int,
    key: Seq<Tree>,
    bindings: Seq<(StringIdx, TypeIdx)>,
) -> Checking
    decreases env.depth, node, 0nat,
{
    if !(0 <= slot < st.table.symbols.len()) || env.depth == 0 || cached(
        st.table.symbols[slot].monomorphized,
        key,
    ) {
        st
    } else {
        let decl = st.table.symbols[slot].decl;
        let at = st.table.symbols[slot].monomorphized.len() as int;
        let s1 = with_table(st, with_instance(st.table, slot, key, decl));
        let (s2, instance) = check_tree(
            s1,
            Env { paths: env.paths, bindings, depth: (env.depth - 1) as nat },
            decl,
            None,
        );
        if 0 <= slot < s2.table.symbols.len() && at < s2.table.symbols[slot].monomorphized.len() {
            with_table(s2, with_instance_at(s2.table, slot, at, instance))
        } else {
            s2
        }
    }
}

/// Checks the arguments `args` of a call, each against the type that the
/// type node at its place in `params` names; each must agree with it.
pub open spec fn check_args(
    st: Checking,
    env: Env,
    args: Seq<Tree>,
    params: Seq<Tree>,
    bindings: Seq<(StringIdx, TypeIdx)>,
) -> (Checking, Seq<Tree>)
    decreases env.depth, args, 0nat,
{
    if args.len() == 0 || args.len() > params.len() {
        (st, Seq::empty())
    } else {
        let (s1, done) = check_args(st, env, args.drop_last(), params, bindings);
        let (types2, expected) = resolved_type(
            s1.types,
            env.paths,
            bindings,
            params[args.len() - 1],
        );
        let (s3, arg) = check_tree(with_types(s1, types2), env, args.last(), Some(expected));
        let (s4, _) = matched(s3, arg.result_type, expected, args.last().source);
        (s4, done.push(arg))
    }
}

/// Checks the nodes `nodes` against no type, one after the other.
pub open spec fn check_trees(st: Checking, env: Env, nodes: Seq<Tree>) -> (Checking, Seq<Tree>)
    decreases env.depth, nodes, 0nat,
{
    if nodes.len() == 0 {
        (st, Seq::empty())
    } else {
        let (s1, done) = check_trees(st, env, nodes.drop_last());
        let (s2, last) = check_tree(s1, env, nodes.last(), None);
        (s2, done.push(last))
    }
}

/// The table with another declaration of the symbol at the place `slot`.
pub open spec fn with_decl(table: TableView, slot: int, decl: Tree) -> TableView {
    TableView {
        symbols: table.symbols.update(slot, SymbolView { decl, ..table.symbols[slot] }),
        ..table
    }
}

/// Checks the declarations of the symbols from the place `from` on, each
/// against the symbols as they are by then, and puts each checked
/// declaration in the place of the declaration.
pub open spec fn check_symbols(st: Checking, env: Env, from: int, count: int) -> Checking
    decreases count - from,
{
    if from < 0 || from >= count {
        st
    } else {
        let (s1, decl) = check_tree(st, env, st.table.symbols[from].decl, None);
        check_symbols(with_table(s1, with_decl(s1.table, from, decl)), env, from + 1, count)
    }
}

/// Whether `after` differs from `before` at most in its types and
/// diagnostics.
pub open spec fn only_types_differ(after: &Compiler, before: &Compiler) -> bool {
    &&& after.strings == before.strings
    &&& after.paths == before.paths
    &&& after.files == before.files
    &&& after.symbols == before.symbols
    &&& after.scopes == before.scopes
    &&& after.error_stage == before.error_stage
}

/// Whether `after` differs from `before` at most in its types, diagnostics
/// and symbols.
pub open spec fn only_checked_differs(after: &Compiler, before: &Compiler) -> bool {
    &&& after.symbols@.symbols.len() == before.symbols@.symbols.len()
    &&& after.strings == before.strings
    &&& after.paths == before.paths
    &&& after.files == before.files
    &&& after.scopes == before.scopes
    &&& after.error_stage == before.error_stage
}

/// The state of checking within the compiler `c`.
pub open spec fn checking(c: &Compiler) -> Checking {
    Checking { types: c.types@, errors: c.error_list(), table: c.symbols@ }
}

/// The type checker.
#[derive(Debug)]
pub struct TypeChecker {
    pub templs: Vec<Vec<(StringIdx, TypeIdx)>>,
    pub scopes: Vec<ScopeIdx>,
}

fn find_bound(bindings: &Vec<(StringIdx, TypeIdx)>, name: StringIdx) -> (r: Option<TypeIdx>)
    ensures
        r == bound(bindings@, name),
{
    let mut i: usize = bindings.len();
    proof {
        assert(bindings@.take(i as int) =~= bindings@);
    }
    while i > 0
        invariant
            i <= bindings.len(),
            bound(bindings@, name) == bound(bindings@.take(i as int), name),
        decreases i,
    {
        proof {
            assert(bindings@.take(i as int).drop_last() =~= bindings@.take(i as int - 1));
        }
        i = i - 1;
        if bindings[i].0 == name {
            return Some(bindings[i].1);
        }
    }
    None
}

fn primitive_of(t: NodeType) -> (r: Option<Type>)
    ensures
        r == primitive(t),
{
    match t {
        NodeType::U8Type => Some(Type::U8),
        NodeType::U16Type => Some(Type::U16),
        NodeType::U32Type => Some(Type::U32),
        NodeType::U64Type => Some(Type::U64),
        NodeType::UsizeType => Some(Type::Usize),
        NodeType::S8Type => Some(Type::S8),
        NodeType::S16Type => Some(Type::S16),
        NodeType::S32Type => Some(Type::S32),
        NodeType::S64Type => Some(Type::S64),
        NodeType::F32Type => Some(Type::F32),
        NodeType::F64Type => Some(Type::F64),
        NodeType::UnitType => Some(Type::Unit),
        NodeType::BoolType => Some(Type::Boolean),
        _ => None,
    }
}

fn literal_of(t: NodeType) -> (r: Option<Type>)
    ensures
        r == literal_type(t),
{
    match t {
        NodeType::IntegerLiteral => Some(Type::Integer),
        NodeType::FloatLiteral => Some(Type::Float),
        NodeType::BooleanLiteral => Some(Type::Boolean),
        NodeType::UnitLiteral => Some(Type::Unit),
        _ => None,
    }
}

fn sized_integer(t: Type) -> (r: bool)
    ensures
        r == is_sized_integer(t),
{
    match t {
        Type::U8
        | Type::U16
        | Type::U32
        | Type::U64
        | Type::Usize
        | Type::S8
        | Type::S16
        | Type::S32
        | Type::S64 => true,
        _ => false,
    }
}

fn sized_float(t: Type) -> (r: bool)
    ensures
        r == is_sized_float(t),
{
    match t {
        Type::F32 | Type::F64 => true,
        _ => false,
    }
}

/// The type that `a` and `b` agree on, if they do.
pub fn unify(a: Type, b: Type) -> (r: Option<Type>)
    ensures
        r == unified(a, b),
{
    if a == Type::Unknown {
        Some(b)
    } else if b == Type::Unknown {
        Some(a)
    } else if a == b {
        Some(a)
    } else if a == Type::Integer && sized_integer(b) {
        Some(b)
    } else if b == Type::Integer && sized_integer(a) {
        Some(a)
    } else if a == Type::Float && sized_float(b) {
        Some(b)
    } else if b == Type::Float && sized_float(a) {
        Some(a)
    } else {
        None
    }
}

/// The type that the type node `node` names, given the types that template
/// parameters are bound to.
pub fn resolve_type(c: &mut Compiler, bindings: &Vec<(StringIdx, TypeIdx)>, node: &AstNode) -> (r:
    TypeIdx)
    requires
        old(c).wf(),
    ensures
        final(c).wf(),
        only_types_differ(final(c), old(c)),
        final(c).errors == old(c).errors,
        (final(c).types@, r) == resolved_type(old(c).types@, old(c).paths@, bindings@, node@),
    decreases node,
{
    proof {
        lemma_tree_children(*node);
    }
    match primitive_of(node.t) {
        Some(t) => {
            return c.types.insert(t);
        },
        None => {},
    }
    if node.t == NodeType::PointerType && node.children.len() > 0 {
        let pointee: TypeIdx = resolve_type(
            c,
            bindings,
            &node.children[node.children.len() - 1],
        );
        let is_const: bool = marked(&node.children, NodeType::IsConstant);
        return c.types.insert(Type::Pointer(is_const, pointee));
    }
    if let NodeValue::String(name) = node.value {
        return match find_bound(bindings, name) {
            Some(t) => t,
            None => c.types.insert(Type::Unknown),
        };
    }
    if let NodeValue::Path(p) = node.value {
        let segments: Vec<StringIdx> = c.paths.segments(p);
        if segments.len() == 1 {
            match find_bound(bindings, segments[0]) {
                Some(t) => {
                    return t;
                },
                None => {},
            }
        }
        return c.types.insert(Type::Struct(p));
    }
    c.types.insert(Type::Unknown)
}

fn resolve_types(c: &mut Compiler, bindings: &Vec<(StringIdx, TypeIdx)>, nodes: &Vec<AstNode>) -> (r:
    Vec<TypeIdx>)
    requires
        old(c).wf(),
    ensures
        final(c).wf(),
        only_types_differ(final(c), old(c)),
        final(c).errors == old(c).errors,
        (final(c).types@, r@) == resolved_types(
            old(c).types@,
            old(c).paths@,
            bindings@,
            trees_of(nodes@),
        ),
{
    let ghost all = trees_of(nodes@);
    let mut r: Vec<TypeIdx> = Vec::new();
    let mut i: usize = 0;
    proof {
        assert(all.take(0) =~= Seq::<Tree>::empty());
    }
    while i < nodes.len()
        invariant
            i <= nodes.len(),
            all == trees_of(nodes@),
            c.wf(),
            only_types_differ(c, old(c)),
            c.errors == old(c).errors,
            (c.types@, r@) == resolved_types(
                old(c).types@,
                old(c).paths@,
                bindings@,
                all.take(i as int),
            ),
        decreases nodes.len() - i,
    {
        proof {
            assert(all.take(i as int + 1).drop_last() =~= all.take(i as int));
            assert(all.take(i as int + 1).last() == nodes[i as int]@);
        }
        let t = resolve_type(c, bindings, &nodes[i]);
        r.push(t);
        i = i + 1;
    }
    proof {
        assert(all.take(nodes.len() as int) =~= all);
    }
    r
}

fn bind_names(names: &Vec<StringIdx>, types: &Vec<TypeIdx>) -> (r: Vec<(StringIdx, TypeIdx)>)
    ensures
        r@ == bind(names@, types@),
{
    let mut r: Vec<(StringIdx, TypeIdx)> = Vec::new();
    let mut i: usize = 0;
    proof {
        assert(names@.take(0) =~= Seq::<StringIdx>::empty());
    }
    while i < names.len()
        invariant
            i <= names.len(),
            r@ == bind(names@.take(i as int), types@),
        decreases names.len() - i,
    {
        proof {
            assert(names@.take(i as int + 1).drop_last() =~= names@.take(i as int));
        }
        if i < types.len() {
            r.push((names[i], types[i]));
        }
        i = i + 1;
    }
    proof {
        assert(names@.take(names.len() as int) =~= names@);
    }
    r
}

fn types_declared(nodes: &Vec<AstNode>) -> (r: Vec<AstNode>)
    ensures
        trees_of(r@) == declared_types(trees_of(nodes@)),
{
    let ghost all = trees_of(nodes@);
    let mut r: Vec<AstNode> = no_nodes();
    let mut i: usize = 0;
    proof {
        assert(all.take(0) =~= Seq::<Tree>::empty());
    }
    while i < nodes.len()
        invariant
            i <= nodes.len(),
            all == trees_of(nodes@),
            trees_of(r@) == declared_types(all.take(i as int)),
        decreases nodes.len() - i,
    {
        proof {
            assert(all.take(i as int + 1).drop_last() =~= all.take(i as int));
            assert(all.take(i as int + 1).last() == nodes[i as int]@);
            lemma_tree_children(nodes[i as int]);
        }
        let node = &nodes[i];
        if node.t == NodeType::ArgumentDecl && node.children.len() > 0 {
            add_node(&mut r, node.children[node.children.len() - 1].clone());
        }
        i = i + 1;
    }
    proof {
        assert(all.take(nodes.len() as int) =~= all);
    }
    r
}

fn second_list(decl: &AstNode) -> (r: usize)
    ensures
        r == list_position(decl@.children, 1),
        r <= decl.children.len(),
{
    proof {
        lemma_tree_children(*decl);
    }
    let ghost all = trees_of(decl.children@);
    let mut seen: usize = 0;
    let mut i: usize = 0;
    proof {
        assert(all.skip(0) =~= all);
    }
    while i < decl.children.len()
        invariant
            i <= decl.children.len(),
            all == trees_of(decl.children@),
            decl@.children == all,
            seen <= 1,
            list_position(all, 1) == i + list_position(all.skip(i as int), (1 - seen) as nat),
        decreases decl.children.len() - i,
    {
        proof {
            assert(all.skip(i as int).drop_first() =~= all.skip(i as int + 1));
            assert(all.skip(i as int)[0] == decl.children[i as int]@);
        }
        if decl.children[i].t == NodeType::ArgumentList {
            if seen == 1 {
                return i;
            }
            seen = 1;
        }
        i = i + 1;
    }
    i
}

/// What a call needs to know of the symbol that it calls: the names of its
/// template parameters, the type nodes of its parameters, and the node of
/// its return type.
pub struct Signature {
    pub template_args: Vec<StringIdx>,
    pub params: Vec<AstNode>,
    pub returned: Option<AstNode>,
}

fn signature_of(symbol: &Symbol) -> (r: Signature)
    ensures
        r.template_args@ == symbol@.template_args,
        trees_of(r.params@) == param_types(symbol@.decl),
        match r.returned {
            Some(node) => return_node(symbol@.decl) == Some(node@),
            None => return_node(symbol@.decl) is None,
        },
{
    let decl = &symbol.decl_node;
    proof {
        lemma_tree_children(*decl);
    }
    let at: usize = second_list(decl);
    let params: Vec<AstNode> = if at < decl.children.len() {
        proof {
            lemma_tree_children(decl.children[at as int]);
        }
        types_declared(&decl.children[at].children)
    } else {
        no_nodes()
    };
    let returned: Option<AstNode> = if at < decl.children.len() && at + 1 < decl.children.len() {
        Some(decl.children[at + 1].clone())
    } else {
        None
    };
    Signature { template_args: copy_segments(symbol.template_args.as_slice()), params, returned }
}

impl TypeChecker {
    /// The types that template parameters are bound to at present.
    pub open spec fn bindings(&self) -> Seq<(StringIdx, TypeIdx)> {
        if self.templs.len() > 0 {
            self.templs[self.templs.len() - 1]@
        } else {
            Seq::empty()
        }
    }

    /// What the types of a node are checked against within `c`.
    pub open spec fn env(&self, c: &Compiler) -> Env {
        Env { paths: c.paths@, bindings: self.bindings(), depth: MAX_INSTANCE_DEPTH as nat }
    }

    fn current_bindings(&self) -> (r: Vec<(StringIdx, TypeIdx)>)
        ensures
            r@ == self.bindings(),
    {
        let mut r: Vec<(StringIdx, TypeIdx)> = Vec::new();
        if self.templs.len() > 0 {
            let top = &self.templs[self.templs.len() - 1];
            let mut i: usize = 0;
            while i < top.len()
                invariant
                    i <= top.len(),
                    r@ == top@.take(i as int),
                decreases top.len() - i,
            {
                r.push(top[i]);
                i = i + 1;
                assert(r@ =~= top@.take(i as int));
            }
            assert(top@.take(top.len() as int) =~= top@);
        }
        r
    }

    /// A type checker in which no template parameter is bound.
    pub fn new() -> (r: TypeChecker)
        ensures
            r.templs@.len() == 0,
            r.scopes@.len() == 0,
            r.bindings() == Seq::<(StringIdx, TypeIdx)>::empty(),
    {
        TypeChecker { templs: Vec::new(), scopes: Vec::new() }
    }

    /// Matches the types `left` and `right`: yields the type that they
    /// agree on, or reports at `at` that they do not and yields the unknown
    /// type.
    pub fn match_types(&self, c: &mut Compiler, left: TypeIdx, right: TypeIdx, at: Source) -> (r:
        TypeIdx)
        requires
            old(c).wf(),
        ensures
            final(c).wf(),
            only_types_differ(final(c), old(c)),
            (checking(final(c)), r) == matched(checking(old(c)), left, right, at),
    {
        match unify(c.types.lookup(left), c.types.lookup(right)) {
            Some(t) => c.types.insert(t),
            None => {
                c.report(Error::fixed("mismatched types", at));
                c.types.insert(Type::Unknown)
            },
        }
    }

    /// Checks the node `n`, against the type `e` if one is given, and yields
    /// it with its type and with its children checked.
    pub fn check_node(&mut self, c: &mut Compiler, n: &AstNode, e: Option<TypeIdx>) -> (r: AstNode)
        requires
            old(c).wf(),
        ensures
            final(c).wf(),
            only_checked_differs(final(c), old(c)),
            (checking(final(c)), r@) == check_tree(checking(old(c)), old(self).env(old(c)), n@, e),
            *final(self) == *old(self),
    {
        let bindings = self.current_bindings();
        self.check_with(c, n, e, &bindings, MAX_INSTANCE_DEPTH)
    }

    fn check_with(
        &self,
        c: &mut Compiler,
        n: &AstNode,
        e: Option<TypeIdx>,
        bindings: &Vec<(StringIdx, TypeIdx)>,
        depth: usize,
    ) -> (r: AstNode)
        requires
            old(c).wf(),
        ensures
            final(c).wf(),
            only_checked_differs(final(c), old(c)),
            (checking(final(c)), r@) == check_tree(
                checking(old(c)),
                Env { paths: old(c).paths@, bindings: bindings@, depth: depth as nat },
                n@,
                e,
            ),
        decreases depth, n, 2nat,
    {
        proof {
            lemma_tree_children(*n);
        }
        let arithmetic: bool = match n.t {
            NodeType::Add
            | NodeType::Subtract
            | NodeType::Multiply
            | NodeType::Divide
            | NodeType::Remainder => true,
            _ => false,
        };
        if arithmetic && n.children.len() == 2 {
            let left: AstNode = self.check_with(c, &n.children[0], e, bindings, depth);
            let right: AstNode = self.check_with(c, &n.children[1], e, bindings, depth);
            let rtype: TypeIdx = self.match_types(c, left.result_type, right.result_type, n.source);
            let mut children: Vec<AstNode> = no_nodes();
            add_node(&mut children, left);
            add_node(&mut children, right);
            return AstNode::new(n.t, n.source, n.value, children, rtype);
        }
        if n.t == NodeType::Call && n.children.len() == 2 {
            return self.check_call(c, n, bindings, depth);
        }
        let children: Vec<AstNode> = self.check_nodes(c, &n.children, n, bindings, depth);
        let rtype: TypeIdx = match literal_of(n.t) {
            Some(t) => c.types.insert(t),
            None => {
                if n.t == NodeType::CStringLiteral {
                    let byte: TypeIdx = c.types.insert(Type::U8);
                    c.types.insert(Type::Pointer(true, byte))
                } else {
                    c.types.insert(Type::Unknown)
                }
            },
        };
        AstNode::new(n.t, n.source, n.value, children, rtype)
    }

    fn check_call(
        &self,
        c: &mut Compiler,
        n: &AstNode,
        bindings: &Vec<(StringIdx, TypeIdx)>,
        depth: usize,
    ) -> (r: AstNode)
        requires
            old(c).wf(),
            n.children.len() == 2,
        ensures
            final(c).wf(),
            only_checked_differs(final(c), old(c)),
            (checking(final(c)), r@) == check_call(
                checking(old(c)),
                Env { paths: old(c).paths@, bindings: bindings@, depth: depth as nat },
                n@,
            ),
        decreases depth, n, 1nat,
    {
        proof {
            lemma_tree_children(*n);
            lemma_tree_children(n.children[0]);
            lemma_tree_children(n.children[1]);
        }
        let callee: &AstNode = &n.children[0];
        let list: &AstNode = &n.children[1];
        let path: Option<PathIdx> = if callee.t == NodeType::PathAccess {
            match callee.value {
                NodeValue::Path(p) => Some(p),
                _ => None,
            }
        } else {
            None
        };
        let slot: Option<usize> = match path {
            Some(p) => c.symbols.find_symbol(p),
            None => None,
        };
        let args: Vec<AstNode>;
        let rtype: TypeIdx;
        let ghost st = checking(c);
        let ghost env = Env { paths: c.paths@, bindings: bindings@, depth: depth as nat };
        match slot {
            None => {
                if path.is_some() {
                    c.report(Error::fixed("unknown identifier", callee.source));
                }
                args = self.check_nodes(c, &list.children, n, bindings, depth);
                rtype = c.types.insert(Type::Unknown);
                assert(checking(c) == check_call(st, env, n@).0);
            },
            Some(i) => {
                let signature: Signature = signature_of(&c.symbols.symbols()[i]);
                let given: Vec<TypeIdx> = if callee.children.len() > 0 && callee.children[0].t
                    == NodeType::ArgumentList {
                    proof {
                        lemma_tree_children(callee.children[0]);
                    }
                    resolve_types(c, bindings, &callee.children[0].children)
                } else {
                    Vec::new()
                };
                let bound = bind_names(&signature.template_args, &given);
                if list.children.len() != signature.params.len() {
                    c.report(Error::fixed("wrong number of arguments", n.source));
                    args = self.check_nodes(c, &list.children, n, bindings, depth);
                } else {
                    args = self.check_args(c, &list.children, &signature.params, &bound, n, bindings, depth);
                }
                rtype =
                match &signature.returned {
                    Some(returned) => resolve_type(c, &bound, returned),
                    None => c.types.insert(Type::Unknown),
                };
                if signature.template_args.len() == 0 {
                    assert(checking(c) == check_call(st, env, n@).0);
                }
                if signature.template_args.len() > 0 {
                    let key: Vec<AstNode> = if callee.children.len() > 0 && callee.children[0].t
                        == NodeType::ArgumentList {
                        clone_nodes(&callee.children[0].children)
                    } else {
                        no_nodes()
                    };
                    let ghost before = checking(c);
                    let ghost shapes = trees_of(key@);
                    self.instantiate(c, n, i, key, &bound, depth);
                    assert(checking(c) == instantiate(before, env, n@, i as int, shapes, bound@));
                    assert(checking(c) == check_call(st, env, n@).0);
                }
            },
        }
        let mut children: Vec<AstNode> = no_nodes();
        add_node(&mut children, callee.clone());
        add_node(
            &mut children,
            AstNode::new(list.t, list.source, list.value, args, list.result_type),
        );
        let r = AstNode::new(n.t, n.source, n.value, children, rtype);
        assert(r@ == check_call(st, env, n@).1);
        r
    }

    fn instantiate(
        &self,
        c: &mut Compiler,
        n: &AstNode,
        slot: usize,
        key: Vec<AstNode>,
        bound: &Vec<(StringIdx, TypeIdx)>,
        depth: usize,
    )
        requires
            old(c).wf(),
        ensures
            final(c).wf(),
            only_checked_differs(final(c), old(c)),
            forall|bindings: Seq<(StringIdx, TypeIdx)>|
                checking(final(c)) == #[trigger] instantiate(
                    checking(old(c)),
                    Env { paths: old(c).paths@, bindings, depth: depth as nat },
                    n@,
                    slot as int,
                    trees_of(key@),
                    bound@,
                ),
        decreases depth, n, 0nat,
    {
        if slot >= c.symbols.symbols().len() || depth == 0 || c.symbols.has_instance(slot, &key) {
            return ;
        }
        let decl: AstNode = c.symbols.symbols()[slot].decl_node.clone();
        let at: usize = c.symbols.add_instance(slot, key, decl.clone());
        let instance: AstNode = self.check_with(c, &decl, None, bound, depth - 1);
        if slot < c.symbols.symbols().len() && at < c.symbols.instances(slot) {
            c.symbols.set_instance(slot, at, instance);
        }
    }

    fn check_args(
        &self,
        c: &mut Compiler,
        args: &Vec<AstNode>,
        params: &Vec<AstNode>,
        bound: &Vec<(StringIdx, TypeIdx)>,
        n: &AstNode,
        bindings: &Vec<(StringIdx, TypeIdx)>,
        depth: usize,
    ) -> (r: Vec<AstNode>)
        requires
            old(c).wf(),
            args.len() == params.len(),
            n.children.len() == 2,
            *args == n.children[1].children,
        ensures
            final(c).wf(),
            only_checked_differs(final(c), old(c)),
            (checking(final(c)), trees_of(r@)) == check_args(
                checking(old(c)),
                Env { paths: old(c).paths@, bindings: bindings@, depth: depth as nat },
                trees_of(args@),
                trees_of(params@),
                bound@,
            ),
        decreases depth, n, 0nat,
    {
        let ghost all = trees_of(args@);
        let ghost env = Env { paths: c.paths@, bindings: bindings@, depth: depth as nat };
        let mut children: Vec<AstNode> = no_nodes();
        let mut i: usize = 0;
        proof {
            assert(all.take(0) =~= Seq::<Tree>::empty());
        }
        while i < args.len()
            invariant
                i <= args.len(),
                args.len() == params.len(),
                n.children.len() == 2,
                *args == n.children[1].children,
                all == trees_of(args@),
                c.wf(),
                only_checked_differs(c, old(c)),
                env == (Env { paths: c.paths@, bindings: bindings@, depth: depth as nat }),
                (checking(c), trees_of(children@)) == check_args(
                    checking(old(c)),
                    env,
                    all.take(i as int),
                    trees_of(params@),
                    bound@,
                ),
            decreases args.len() - i,
        {
            proof {
                assert(all.take(i as int + 1).drop_last() =~= all.take(i as int));
                assert(all.take(i as int + 1).last() == args[i as int]@);
            }
            let expected: TypeIdx = resolve_type(c, bound, &params[i]);
            let arg: AstNode = self.check_with(c, &args[i], Some(expected), bindings, depth);
            let _ = self.match_types(c, arg.result_type, expected, args[i].source);
            add_node(&mut children, arg);
            i = i + 1;
        }
        proof {
            assert(all.take(args.len() as int) =~= all);
        }
        children
    }

    fn check_nodes(
        &self,
        c: &mut Compiler,
        nodes: &Vec<AstNode>,
        n: &AstNode,
        bindings: &Vec<(StringIdx, TypeIdx)>,
        depth: usize,
    ) -> (r: Vec<AstNode>)
        requires
            old(c).wf(),
            *nodes == n.children || (n.children.len() == 2 && *nodes == n.children[1].children),
        ensures
            final(c).wf(),
            only_checked_differs(final(c), old(c)),
            (checking(final(c)), trees_of(r@)) == check_trees(
                checking(old(c)),
                Env { paths: old(c).paths@, bindings: bindings@, depth: depth as nat },
                trees_of(nodes@),
            ),
        decreases depth, n, 0nat,
    {
        let ghost all = trees_of(nodes@);
        let ghost env = Env { paths: c.paths@, bindings: bindings@, depth: depth as nat };
        let mut children: Vec<AstNode> = no_nodes();
        let mut i: usize = 0;
        proof {
            assert(all.take(0) =~= Seq::<Tree>::empty());
        }
        while i < nodes.len()
            invariant
                i <= nodes.len(),
                *nodes == n.children || (n.children.len() == 2 && *nodes
                    == n.children[1].children),
                all == trees_of(nodes@),
                c.wf(),
                only_checked_differs(c, old(c)),
                env == (Env { paths: c.paths@, bindings: bindings@, depth: depth as nat }),
                (checking(c), trees_of(children@)) == check_trees(
                    checking(old(c)),
                    env,
                    all.take(i as int),
                ),
            decreases nodes.len() - i,
        {
            proof {
                assert(all.take(i as int + 1).drop_last() =~= all.take(i as int));
                assert(all.take(i as int + 1).last() == nodes[i as int]@);
            }
            let child = self.check_with(c, &nodes[i], None, bindings, depth);
            add_node(&mut children, child);
            i = i + 1;
        }
        proof {
            assert(all.take(nodes.len() as int) =~= all);
        }
        children
    }

    /// Checks the declaration `decl` of a function.
    pub fn check_function(&mut self, c: &mut Compiler, decl: &AstNode) -> (r: AstNode)
        requires
            old(c).wf(),
        ensures
            final(c).wf(),
            only_checked_differs(final(c), old(c)),
            (checking(final(c)), r@) == check_tree(
                checking(old(c)),
                old(self).env(old(c)),
                decl@,
                None,
            ),
            *final(self) == *old(self),
    {
        self.check_node(c, decl, None)
    }

    /// Checks the declarations of all symbols, one after the other, and
    /// puts each checked declaration in the place of the declaration.
    pub fn check_types(&mut self, c: &mut Compiler)
        requires
            old(c).wf(),
        ensures
            final(c).wf(),
            only_checked_differs(final(c), old(c)),
            *final(self) == *old(self),
            checking(final(c)) == check_symbols(
                checking(old(c)),
                old(self).env(old(c)),
                0,
                old(c).symbols@.symbols.len() as int,
            ),
    {
        let mut i: usize = 0;
        let count: usize = c.symbols.symbols().len();
        while i < count
            invariant
                i <= count,
                count == old(c).symbols@.symbols.len(),
                c.wf(),
                only_checked_differs(c, old(c)),
                *self == *old(self),
                check_symbols(checking(c), self.env(c), i as int, count as int) == check_symbols(
                    checking(old(c)),
                    old(self).env(old(c)),
                    0,
                    count as int,
                ),
            decreases count - i,
        {
            let decl: AstNode = c.symbols.symbols()[i].decl_node.clone();
            let checked: AstNode = self.check_function(c, &decl);
            c.symbols.set_decl(i, checked);
            i = i + 1;
        }
    }
}

} // verus!
