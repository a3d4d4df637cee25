//! Path expansion: every reference to a symbol in a declaration is made a
//! full path, by the `use` clauses of its file; references to local
//! variables are left alone.
//!
//! The `use` clauses of a file add up: a `mod` further down in the file
//! does not reset them.

use vstd::prelude::*;
use crate::frontend::ast::{
    AstNode, NodeType, NodeValue, Tree, add_node, clone_nodes, lemma_tree_children, no_nodes,
    trees_of,
};
use crate::frontend::symbols::{SymbolView, TableView};
use crate::interning::{index_after, pool_after, position};
use crate::paths::{PathIdx, copy_segments, path_at};
use crate::strings::StringIdx;
use crate::Compiler;

verus! {

/// The path that the alias `alias` stands for: that of the last `use` that
/// introduced it, if any did.
pub open spec fn lookup(uses: Seq<(StringIdx, PathIdx)>, alias: StringIdx) -> Option<PathIdx>
    decreases uses.len(),
{
    if uses.len() == 0 {
        None
    } else if uses.last().0 == alias {
        Some(uses.last().1)
    } else {
        lookup(uses.drop_last(), alias)
    }
}

/// The full path for the relative path `segments`: its first segment is
/// replaced by the path that it is an alias of, if it is one.
pub open spec fn resolved(
    paths: Seq<Seq<StringIdx>>,
    uses: Seq<(StringIdx, PathIdx)>,
    segments: Seq<StringIdx>,
) -> Seq<StringIdx> {
    match lookup(uses, segments[0]) {
        Some(path) => path_at(paths, path) + segments.skip(1),
        None => segments,
    }
}

/// The place of the `n`-th of `children` that is an argument list, counted
/// from zero; the number of children if there is none.
pub open spec fn list_position(children: Seq<Tree>, n: nat) -> int
    decreases children.len(),
{
    if children.len() == 0 {
        0
    } else if children[0].t == NodeType::ArgumentList {
        if n == 0 {
            0
        } else {
            1 + list_position(children.drop_first(), (n - 1) as nat)
        }
    } else {
        1 + list_position(children.drop_first(), n)
    }
}

/// The names that the declarations among `children` declare, in order.
pub open spec fn declared_names(children: Seq<Tree>) -> Seq<StringIdx>
    decreases children.len(),
{
    if children.len() == 0 {
        Seq::empty()
    } else {
        match children.last().value {
            NodeValue::String(name) if children.last().t == NodeType::ArgumentDecl => declared_names(
                children.drop_last(),
            ).push(name),
            _ => declared_names(children.drop_last()),
        }
    }
}

/// The names of the parameters of a function declaration: those declared in
/// its second argument list, the first being its template parameters.
pub open spec fn parameters(decl: Tree) -> Seq<StringIdx> {
    let at = list_position(decl.children, 1);
    if 0 <= at < decl.children.len() {
        declared_names(decl.children[at].children)
    } else {
        Seq::empty()
    }
}

/// The node `node` with a new kind, value and children.
pub open spec fn rebuilt(node: Tree, t: NodeType, value: NodeValue, children: Seq<Tree>) -> Tree {
    Tree { t, value, children, ..node }
}

/// Expands the paths in `node`, given the names `visible` of the local
/// variables in scope. Yields the paths of the compiler, the names in scope
/// after the node, and the node with its paths expanded.
///
/// The children are expanded first, in a scope of their own that starts
/// with the names in scope, and for a function with its parameters too.
/// Then a reference to a name or a path is made a `PathAccess` to its full
/// path, unless it is a single name in scope; and a variable declaration
/// brings its name into scope for the nodes after it.
pub open spec fn expand_tree(
    paths: Seq<Seq<StringIdx>>,
    uses: Seq<(StringIdx, PathIdx)>,
    visible: Seq<StringIdx>,
    node: Tree,
) -> (Seq<Seq<StringIdx>>, Seq<StringIdx>, Tree)
    decreases node, 1nat,
{
    let inner = if node.t == NodeType::FunctionDecl {
        visible + parameters(node)
    } else {
        visible
    };
    let (paths1, _, children) = expand_trees(paths, uses, inner, node.children);
    match node.value {
        NodeValue::Path(rel) if node.t == NodeType::PathAccess => {
            let segments = path_at(paths1, rel);
            if segments.len() == 0 || (segments.len() == 1 && visible.contains(segments[0])) {
                (paths1, visible, rebuilt(node, node.t, node.value, children))
            } else {
                let full = resolved(paths1, uses, segments);
                (
                    pool_after(paths1, full),
                    visible,
                    rebuilt(
                        node,
                        NodeType::PathAccess,
                        NodeValue::Path(PathIdx(index_after(paths1, full) as usize)),
                        children,
                    ),
                )
            }
        },
        NodeValue::String(name) if node.t == NodeType::NamespaceAccess => {
            if visible.contains(name) {
                (paths1, visible, rebuilt(node, node.t, node.value, children))
            } else {
                let full = resolved(paths1, uses, seq![name]);
                (
                    pool_after(paths1, full),
                    visible,
                    rebuilt(
                        node,
                        NodeType::PathAccess,
                        NodeValue::Path(PathIdx(index_after(paths1, full) as usize)),
                        children,
                    ),
                )
            }
        },
        NodeValue::String(name) if node.t == NodeType::VariableDecl => (
            paths1,
            visible.push(name),
            rebuilt(node, node.t, node.value, children),
        ),
        _ => (paths1, visible, rebuilt(node, node.t, node.value, children)),
    }
}

/// Expands the paths in `nodes`, one node after the other.
pub open spec fn expand_trees(
    paths: Seq<Seq<StringIdx>>,
    uses: Seq<(StringIdx, PathIdx)>,
    visible: Seq<StringIdx>,
    nodes: Seq<Tree>,
) -> (Seq<Seq<StringIdx>>, Seq<StringIdx>, Seq<Tree>)
    decreases nodes, 0nat,
{
    if nodes.len() == 0 {
        (paths, visible, Seq::empty())
    } else {
        let (paths1, visible1, done) = expand_trees(paths, uses, visible, nodes.drop_last());
        let (paths2, visible2, last) = expand_tree(paths1, uses, visible1, nodes.last());
        (paths2, visible2, done.push(last))
    }
}

/// Whether the path `candidate` matches the pattern `pattern`: both have as
/// many segments, and each segment of the pattern is the wildcard or the
/// segment of the candidate.
pub open spec fn matches_pattern(
    pattern: Seq<StringIdx>,
    wildcard: StringIdx,
    candidate: Seq<StringIdx>,
) -> bool {
    &&& candidate.len() == pattern.len()
    &&& forall|i: int|
        0 <= i < pattern.len() ==> pattern[i] == wildcard || pattern[i] == #[trigger] candidate[i]
}

/// Those of `candidates` that match `pattern`, in order.
pub open spec fn matching(
    paths: Seq<Seq<StringIdx>>,
    pattern: Seq<StringIdx>,
    wildcard: StringIdx,
    candidates: Seq<PathIdx>,
) -> Seq<PathIdx>
    decreases candidates.len(),
{
    if candidates.len() == 0 {
        Seq::empty()
    } else if matches_pattern(pattern, wildcard, path_at(paths, candidates.last())) {
        matching(paths, pattern, wildcard, candidates.drop_last()).push(candidates.last())
    } else {
        matching(paths, pattern, wildcard, candidates.drop_last())
    }
}

/// The paths that the used path `path` stands for: itself if it has no
/// wildcard segment, else every declared symbol that it matches.
pub open spec fn wildcards(
    paths: Seq<Seq<StringIdx>>,
    table: TableView,
    wildcard: StringIdx,
    path: PathIdx,
) -> Seq<PathIdx> {
    if path_at(paths, path).contains(wildcard) {
        matching(paths, path_at(paths, path), wildcard, table.symbol_paths)
    } else {
        seq![path]
    }
}

/// The `use` clauses after the paths `used` were used: each is known by
/// its last segment.
pub open spec fn with_uses(
    paths: Seq<Seq<StringIdx>>,
    uses: Seq<(StringIdx, PathIdx)>,
    used: Seq<PathIdx>,
) -> Seq<(StringIdx, PathIdx)>
    decreases used.len(),
{
    if used.len() == 0 {
        uses
    } else {
        let before = with_uses(paths, uses, used.drop_last());
        let segments = path_at(paths, used.last());
        if segments.len() == 0 {
            before
        } else {
            before.push((segments.last(), used.last()))
        }
    }
}

/// The state of expanding the paths of a file: the module that declarations
/// belong to, the `use` clauses so far, and the paths and the symbol table
/// of the compiler.
pub struct Walk {
    pub module: PathIdx,
    pub uses: Seq<(StringIdx, PathIdx)>,
    pub paths: Seq<Seq<StringIdx>>,
    pub table: TableView,
}

/// The `use` clauses after the children `children` of a `use`.
pub open spec fn use_all(
    paths: Seq<Seq<StringIdx>>,
    table: TableView,
    wildcard: StringIdx,
    uses: Seq<(StringIdx, PathIdx)>,
    children: Seq<Tree>,
) -> Seq<(StringIdx, PathIdx)>
    decreases children.len(),
{
    if children.len() == 0 {
        uses
    } else {
        let before = use_all(paths, table, wildcard, uses, children.drop_last());
        match children.last().value {
            NodeValue::Path(raw) => with_uses(
                paths,
                before,
                wildcards(paths, table, wildcard, raw),
            ),
            _ => before,
        }
    }
}

/// The state after the top-level node `node`: a module declaration makes
/// its module the current one, a `use` adds to the `use` clauses, and any
/// other node that carries a name has the paths in the declaration of its
/// symbol expanded.
pub open spec fn walk_node(st: Walk, wildcard: StringIdx, node: Tree) -> Walk {
    match node.value {
        NodeValue::Path(p) if node.t == NodeType::ModuleDecl => Walk { module: p, ..st },
        NodeValue::String(name) if node.t != NodeType::UsageDecl => {
            let segments = path_at(st.paths, st.module).push(name);
            let full = PathIdx(index_after(st.paths, segments) as usize);
            let paths1 = pool_after(st.paths, segments);
            if st.table.symbol_paths.contains(full) && position(st.table.symbol_paths, full)
                < st.table.symbols.len() {
                let i = position(st.table.symbol_paths, full);
                let (paths2, _, decl) = expand_tree(
                    paths1,
                    st.uses,
                    Seq::empty(),
                    st.table.symbols[i].decl,
                );
                Walk {
                    paths: paths2,
                    table: TableView {
                        symbols: st.table.symbols.update(
                            i,
                            SymbolView { decl, ..st.table.symbols[i] },
                        ),
                        ..st.table
                    },
                    ..st
                }
            } else {
                Walk { paths: paths1, ..st }
            }
        },
        _ => {
            if node.t == NodeType::UsageDecl {
                Walk {
                    uses: use_all(st.paths, st.table, wildcard, st.uses, node.children),
                    ..st
                }
            } else {
                st
            }
        },
    }
}

/// The state after the top-level nodes `nodes`, one after the other.
pub open spec fn walk_all(st: Walk, wildcard: StringIdx, nodes: Seq<Tree>) -> Walk
    decreases nodes.len(),
{
    if nodes.len() == 0 {
        st
    } else {
        walk_node(walk_all(st, wildcard, nodes.drop_last()), wildcard, nodes.last())
    }
}

/// The state after the top-level nodes of a file, which starts in the root
/// module and with no `use` clause.
pub open spec fn walk_file(
    paths: Seq<Seq<StringIdx>>,
    table: TableView,
    wildcard: StringIdx,
    nodes: Seq<Tree>,
) -> Walk {
    walk_all(
        Walk {
            module: PathIdx(index_after(paths, Seq::<StringIdx>::empty()) as usize),
            uses: Seq::empty(),
            paths: pool_after(paths, Seq::<StringIdx>::empty()),
            table,
        },
        wildcard,
        nodes,
    )
}

/// The paths and the symbol table after the files whose top-level nodes are
/// `files`, one file after the other.
pub open spec fn walk_files(
    paths: Seq<Seq<StringIdx>>,
    table: TableView,
    wildcard: StringIdx,
    files: Seq<Seq<Tree>>,
) -> (Seq<Seq<StringIdx>>, TableView)
    decreases files.len(),
{
    if files.len() == 0 {
        (paths, table)
    } else {
        let (paths1, table1) = walk_files(paths, table, wildcard, files.drop_last());
        let end = walk_file(paths1, table1, wildcard, files.last());
        (end.paths, end.table)
    }
}

fn find_use(uses: &Vec<(StringIdx, PathIdx)>, alias: StringIdx) -> (r: Option<PathIdx>)
    ensures
        r == lookup(uses@, alias),
{
    let mut i: usize = uses.len();
    proof {
        assert(uses@.take(i as int) =~= uses@);
    }
    while i > 0
        invariant
            i <= uses.len(),
            lookup(uses@, alias) == lookup(uses@.take(i as int), alias),
        decreases i,
    {
        proof {
            assert(uses@.take(i as int).drop_last() =~= uses@.take(i as int - 1));
        }
        i = i - 1;
        if uses[i].0 == alias {
            return Some(uses[i].1);
        }
    }
    None
}

fn is_visible(visible: &Vec<StringIdx>, name: StringIdx) -> (r: bool)
    ensures
        r == visible@.contains(name),
{
    let mut i: usize = 0;
    while i < visible.len()
        invariant
            i <= visible.len(),
            forall|k: int| 0 <= k < i ==> visible@[k] != name,
        decreases visible.len() - i,
    {
        if visible[i] == name {
            return true;
        }
        i = i + 1;
    }
    false
}

fn resolve(c: &Compiler, uses: &Vec<(StringIdx, PathIdx)>, segments: &Vec<StringIdx>) -> (r: Vec<
    StringIdx,
>)
    requires
        segments.len() > 0,
    ensures
        r@ == resolved(c.paths@, uses@, segments@),
{
    match find_use(uses, segments[0]) {
        Some(path) => {
            let mut full: Vec<StringIdx> = c.paths.segments(path);
            let mut i: usize = 1;
            proof {
                assert(segments@.skip(1).take(0) =~= Seq::<StringIdx>::empty());
            }
            while i < segments.len()
                invariant
                    1 <= i <= segments.len(),
                    full@ == path_at(c.paths@, path) + segments@.skip(1).take(i - 1),
                decreases segments.len() - i,
            {
                full.push(segments[i]);
                i = i + 1;
                assert(full@ =~= path_at(c.paths@, path) + segments@.skip(1).take(i - 1));
            }
            proof {
                assert(segments@.skip(1).take(segments.len() - 1) =~= segments@.skip(1));
            }
            full
        },
        None => copy_segments(segments.as_slice()),
    }
}

fn declared(nodes: &Vec<AstNode>) -> (r: Vec<StringIdx>)
    ensures
        r@ == declared_names(trees_of(nodes@)),
{
    let mut r: Vec<StringIdx> = Vec::new();
    let ghost all = trees_of(nodes@);
    let mut i: usize = 0;
    proof {
        assert(all.take(0) =~= Seq::<Tree>::empty());
    }
    while i < nodes.len()
        invariant
            i <= nodes.len(),
            all == trees_of(nodes@),
            r@ == declared_names(all.take(i as int)),
        decreases nodes.len() - i,
    {
        proof {
            assert(all.take(i as int + 1).drop_last() =~= all.take(i as int));
            assert(all.take(i as int + 1).last() == nodes[i as int]@);
        }
        if nodes[i].t == NodeType::ArgumentDecl {
            if let NodeValue::String(name) = nodes[i].value {
                r.push(name);
            }
        }
        i = i + 1;
    }
    proof {
        assert(all.take(nodes.len() as int) =~= all);
    }
    r
}

fn parameter_names(decl: &AstNode) -> (r: Vec<StringIdx>)
    ensures
        r@ == parameters(decl@),
{
    proof {
        lemma_tree_children(*decl);
    }
    let ghost all = trees_of(decl.children@);
    let mut seen: usize = 0;
    let mut i: usize = 0;
    proof {
        assert(all.skip(0) =~= all);
    }
    while i < decl.children.len()
        invariant
            i <= decl.children.len(),
            all == trees_of(decl.children@),
            seen <= 1,
            list_position(all, 1) == i + list_position(all.skip(i as int), (1 - seen) as nat),
        decreases decl.children.len() - i,
    {
        proof {
            assert(all.skip(i as int).drop_first() =~= all.skip(i as int + 1));
            assert(all.skip(i as int)[0] == decl.children[i as int]@);
        }
        if decl.children[i].t == NodeType::ArgumentList {
            if seen == 1 {
                proof {
                    lemma_tree_children(decl.children[i as int]);
                    assert(decl@.children == all);
                }
                return declared(&decl.children[i].children);
            }
            seen = 1;
        }
        i = i + 1;
    }
    proof {
        assert(decl@.children == all);
    }
    Vec::new()
}

fn add_names(visible: &mut Vec<StringIdx>, added: &Vec<StringIdx>)
    ensures
        final(visible)@ == old(visible)@ + added@,
{
    let mut i: usize = 0;
    assert(visible@ =~= old(visible)@ + added@.take(0));
    while i < added.len()
        invariant
            i <= added.len(),
            visible@ == old(visible)@ + added@.take(i as int),
        decreases added.len() - i,
    {
        visible.push(added[i]);
        i = i + 1;
        assert(visible@ =~= old(visible)@ + added@.take(i as int));
    }
    assert(added@.take(added.len() as int) =~= added@);
}

/// Whether `self` differs from `before` at most in its paths.
pub open spec fn only_paths_differ(after: &Compiler, before: &Compiler) -> bool {
    &&& after.strings == before.strings
    &&& after.errors == before.errors
    &&& after.same_program(before)
}

/// Expands the paths in `n`, given the names `v` of the local variables in
/// scope; a variable declaration adds its name to `v`.
pub fn expand_node_paths(
    c: &mut Compiler,
    u: &Vec<(StringIdx, PathIdx)>,
    v: &mut Vec<StringIdx>,
    n: &AstNode,
) -> (r: AstNode)
    requires
        old(c).wf(),
    ensures
        final(c).wf(),
        only_paths_differ(final(c), old(c)),
        (final(c).paths@, final(v)@, r@) == expand_tree(old(c).paths@, u@, old(v)@, n@),
    decreases n,
{
    proof {
        lemma_tree_children(*n);
    }
    let mut cv: Vec<StringIdx> = copy_segments(v.as_slice());
    if n.t == NodeType::FunctionDecl {
        let parameters = parameter_names(n);
        add_names(&mut cv, &parameters);
    }
    let ghost inner = cv@;
    let ghost all = trees_of(n.children@);
    let mut children: Vec<AstNode> = no_nodes();
    let mut i: usize = 0;
    proof {
        assert(all.take(0) =~= Seq::<Tree>::empty());
    }
    while i < n.children.len()
        invariant
            i <= n.children.len(),
            all == trees_of(n.children@),
            c.wf(),
            only_paths_differ(c, old(c)),
            (c.paths@, cv@, trees_of(children@)) == expand_trees(
                old(c).paths@,
                u@,
                inner,
                all.take(i as int),
            ),
        decreases n.children.len() - i,
    {
        proof {
            assert(all.take(i as int + 1).drop_last() =~= all.take(i as int));
            assert(all.take(i as int + 1).last() == n.children[i as int]@);
        }
        let child = expand_node_paths(c, u, &mut cv, &n.children[i]);
        add_node(&mut children, child);
        i = i + 1;
    }
    proof {
        assert(all.take(n.children.len() as int) =~= all);
    }
    if n.t == NodeType::PathAccess {
        if let NodeValue::Path(rel) = n.value {
            let segments: Vec<StringIdx> = c.paths.segments(rel);
            if !(segments.len() == 0 || (segments.len() == 1 && is_visible(v, segments[0]))) {
                let full: Vec<StringIdx> = resolve(c, u, &segments);
                let path: PathIdx = c.paths.insert(full.as_slice());
                return AstNode::new(
                    NodeType::PathAccess,
                    n.source,
                    NodeValue::Path(path),
                    children,
                    n.result_type,
                );
            }
        }
    } else if n.t == NodeType::NamespaceAccess {
        if let NodeValue::String(name) = n.value {
            if !is_visible(v, name) {
                let mut segments: Vec<StringIdx> = Vec::new();
                segments.push(name);
                assert(segments@ =~= seq![name]);
                let full: Vec<StringIdx> = resolve(c, u, &segments);
                let path: PathIdx = c.paths.insert(full.as_slice());
                return AstNode::new(
                    NodeType::PathAccess,
                    n.source,
                    NodeValue::Path(path),
                    children,
                    n.result_type,
                );
            }
        }
    } else if n.t == NodeType::VariableDecl {
        if let NodeValue::String(name) = n.value {
            v.push(name);
        }
    }
    AstNode::new(n.t, n.source, n.value, children, n.result_type)
}

fn matches(pattern: &Vec<StringIdx>, wildcard: StringIdx, candidate: &Vec<StringIdx>) -> (r: bool)
    ensures
        r == matches_pattern(pattern@, wildcard, candidate@),
{
    if candidate.len() != pattern.len() {
        return false;
    }
    let mut i: usize = 0;
    while i < pattern.len()
        invariant
            candidate.len() == pattern.len(),
            i <= pattern.len(),
            forall|k: int|
                0 <= k < i ==> pattern@[k] == wildcard || pattern@[k] == #[trigger] candidate@[k],
        decreases pattern.len() - i,
    {
        if pattern[i] != wildcard && pattern[i] != candidate[i] {
            assert(!(pattern@[i as int] == wildcard || pattern@[i as int] == candidate@[i as int]));
            return false;
        }
        i = i + 1;
    }
    true
}

fn has_segment(segments: &Vec<StringIdx>, segment: StringIdx) -> (r: bool)
    ensures
        r == segments@.contains(segment),
{
    is_visible(segments, segment)
}

/// The paths that the used path `path` stands for.
pub fn expand_wildcards(c: &Compiler, wildcard: StringIdx, path: PathIdx) -> (r: Vec<PathIdx>)
    requires
        c.wf(),
    ensures
        r@ == wildcards(c.paths@, c.symbols@, wildcard, path),
{
    let segs: Vec<StringIdx> = c.paths.segments(path);
    if !has_segment(&segs, wildcard) {
        let mut r: Vec<PathIdx> = Vec::new();
        r.push(path);
        assert(r@ =~= seq![path]);
        return r;
    }
    let candidates = c.symbols.symbol_paths();
    let mut r: Vec<PathIdx> = Vec::new();
    let mut i: usize = 0;
    proof {
        assert(candidates@.take(0) =~= Seq::<PathIdx>::empty());
    }
    while i < candidates.len()
        invariant
            i <= candidates.len(),
            segs@ == path_at(c.paths@, path),
            candidates@ == c.symbols@.symbol_paths,
            r@ == matching(c.paths@, segs@, wildcard, candidates@.take(i as int)),
        decreases candidates.len() - i,
    {
        proof {
            assert(candidates@.take(i as int + 1).drop_last() =~= candidates@.take(i as int));
        }
        let symbol_segs: Vec<StringIdx> = c.paths.segments(candidates[i]);
        if matches(&segs, wildcard, &symbol_segs) {
            r.push(candidates[i]);
        }
        i = i + 1;
    }
    proof {
        assert(candidates@.take(candidates.len() as int) =~= candidates@);
    }
    r
}

fn add_uses(c: &Compiler, uses: &mut Vec<(StringIdx, PathIdx)>, used: &Vec<PathIdx>)
    ensures
        final(uses)@ == with_uses(c.paths@, old(uses)@, used@),
{
    let mut i: usize = 0;
    proof {
        assert(used@.take(0) =~= Seq::<PathIdx>::empty());
    }
    while i < used.len()
        invariant
            i <= used.len(),
            uses@ == with_uses(c.paths@, old(uses)@, used@.take(i as int)),
        decreases used.len() - i,
    {
        proof {
            assert(used@.take(i as int + 1).drop_last() =~= used@.take(i as int));
        }
        let segments: Vec<StringIdx> = c.paths.segments(used[i]);
        if segments.len() > 0 {
            uses.push((segments[segments.len() - 1], used[i]));
        }
        i = i + 1;
    }
    proof {
        assert(used@.take(used.len() as int) =~= used@);
    }
}

fn use_children(
    c: &Compiler,
    wildcard: StringIdx,
    uses: &mut Vec<(StringIdx, PathIdx)>,
    children: &Vec<AstNode>,
)
    requires
        c.wf(),
    ensures
        final(uses)@ == use_all(
            c.paths@,
            c.symbols@,
            wildcard,
            old(uses)@,
            trees_of(children@),
        ),
{
    let ghost all = trees_of(children@);
    let mut i: usize = 0;
    proof {
        assert(all.take(0) =~= Seq::<Tree>::empty());
    }
    while i < children.len()
        invariant
            i <= children.len(),
            c.wf(),
            all == trees_of(children@),
            uses@ == use_all(c.paths@, c.symbols@, wildcard, old(uses)@, all.take(i as int)),
        decreases children.len() - i,
    {
        proof {
            assert(all.take(i as int + 1).drop_last() =~= all.take(i as int));
            assert(all.take(i as int + 1).last() == children[i as int]@);
        }
        match children[i].value {
            NodeValue::Path(raw) => {
                let used = expand_wildcards(c, wildcard, raw);
                add_uses(c, uses, &used);
            },
            _ => {},
        }
        i = i + 1;
    }
    proof {
        assert(all.take(children.len() as int) =~= all);
    }
}

/// Expands the paths in the declarations of the symbols that the top-level
/// nodes `file` of a file declare. `wildcard` is the segment `*`.
pub fn expand_file_paths(c: &mut Compiler, wildcard: StringIdx, file: &[AstNode])
    requires
        old(c).wf(),
    ensures
        final(c).wf(),
        final(c).strings == old(c).strings,
        final(c).errors == old(c).errors,
        final(c).files == old(c).files,
        final(c).types == old(c).types,
        final(c).scopes == old(c).scopes,
        final(c).error_stage == old(c).error_stage,
        ({
            let end = walk_file(old(c).paths@, old(c).symbols@, wildcard, trees_of(file@));
            &&& final(c).paths@ == end.paths
            &&& final(c).symbols@ == end.table
        }),
{
    let ghost all = trees_of(file@);
    let ghost start = Walk {
        module: PathIdx(index_after(c.paths@, Seq::<StringIdx>::empty()) as usize),
        uses: Seq::empty(),
        paths: pool_after(c.paths@, Seq::<StringIdx>::empty()),
        table: c.symbols@,
    };
    let root: Vec<StringIdx> = Vec::new();
    let mut curr_mod: PathIdx = c.paths.insert(root.as_slice());
    let mut curr_use: Vec<(StringIdx, PathIdx)> = Vec::new();
    let mut i: usize = 0;
    proof {
        assert(root@ =~= Seq::<StringIdx>::empty());
        assert(all.take(0) =~= Seq::<Tree>::empty());
    }
    while i < file.len()
        invariant
            i <= file.len(),
            all == trees_of(file@),
            c.wf(),
            c.strings == old(c).strings,
            c.errors == old(c).errors,
            c.files == old(c).files,
            c.types == old(c).types,
            c.scopes == old(c).scopes,
            c.error_stage == old(c).error_stage,
            walk_all(start, wildcard, all.take(i as int)) == (Walk {
                module: curr_mod,
                uses: curr_use@,
                paths: c.paths@,
                table: c.symbols@,
            }),
        decreases file.len() - i,
    {
        let node = &file[i];
        proof {
            assert(all.take(i as int + 1).drop_last() =~= all.take(i as int));
            assert(all.take(i as int + 1).last() == node@);
            lemma_tree_children(*node);
        }
        match node.value {
            NodeValue::Path(p) if node.t == NodeType::ModuleDecl => {
                curr_mod = p;
            },
            NodeValue::String(name) if node.t != NodeType::UsageDecl => {
                let mut full_path_segs: Vec<StringIdx> = c.paths.segments(curr_mod);
                full_path_segs.push(name);
                let full_path: PathIdx = c.paths.insert(full_path_segs.as_slice());
                match c.symbols.find_symbol(full_path) {
                    Some(slot) => {
                        let decl_node: AstNode = c.symbols.symbols()[slot].decl_node.clone();
                        let mut visible: Vec<StringIdx> = Vec::new();
                        let expanded: AstNode = expand_node_paths(
                            c,
                            &curr_use,
                            &mut visible,
                            &decl_node,
                        );
                        c.symbols.set_decl(slot, expanded);
                    },
                    None => {},
                }
            },
            _ => {
                if node.t == NodeType::UsageDecl {
                    use_children(c, wildcard, &mut curr_use, &node.children);
                }
            },
        }
        i = i + 1;
    }
    proof {
        assert(all.take(file.len() as int) =~= all);
    }
}

/// The top-level nodes of each file of `c`.
pub open spec fn trees_of_files(c: &Compiler) -> Seq<Seq<Tree>> {
    Seq::new(c.files.len() as nat, |i: int| trees_of(c.files[i].nodes@))
}

/// Expands the paths in the declarations of all symbols, file by file.
pub fn expand_paths(c: &mut Compiler)
    requires
        old(c).wf(),
    ensures
        final(c).wf(),
        final(c).strings@ == pool_after(old(c).strings@, "*"@),
        final(c).errors == old(c).errors,
        final(c).files == old(c).files,
        final(c).types == old(c).types,
        final(c).scopes == old(c).scopes,
        final(c).error_stage == old(c).error_stage,
        (final(c).paths@, final(c).symbols@) == walk_files(
            old(c).paths@,
            old(c).symbols@,
            StringIdx(index_after(old(c).strings@, "*"@) as usize),
            trees_of_files(old(c)),
        ),
{
    let wildcard: StringIdx = c.strings.insert("*");
    let ghost all = trees_of_files(c);
    let mut i: usize = 0;
    proof {
        assert(all.take(0) =~= Seq::<Seq<Tree>>::empty());
    }
    while i < c.files.len()
        invariant
            i <= c.files.len(),
            c.wf(),
            all == trees_of_files(c),
            c.strings@ == pool_after(old(c).strings@, "*"@),
            c.errors == old(c).errors,
            c.files == old(c).files,
            c.types == old(c).types,
            c.scopes == old(c).scopes,
            c.error_stage == old(c).error_stage,
            (c.paths@, c.symbols@) == walk_files(
                old(c).paths@,
                old(c).symbols@,
                wildcard,
                all.take(i as int),
            ),
        decreases c.files.len() - i,
    {
        proof {
            assert(all.take(i as int + 1).drop_last() =~= all.take(i as int));
            assert(all.take(i as int + 1).last() == trees_of(c.files[i as int].nodes@));
        }
        let nodes: Vec<AstNode> = clone_nodes(&c.files[i].nodes);
        expand_file_paths(c, wildcard, nodes.as_slice());
        i = i + 1;
    }
    proof {
        assert(all.take(c.files.len() as int) =~= all);
    }
}

} // verus!
