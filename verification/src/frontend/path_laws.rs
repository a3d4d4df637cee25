//! Laws of path expansion: it only adds paths, it keeps the shape of the
//! tree, and expanding what was expanded changes nothing.

use vstd::prelude::*;
use crate::frontend::ast::{NodeType, NodeValue, Tree};
use crate::frontend::path_exp::{
    Walk, declared_names, expand_tree, expand_trees, list_position, lookup, matching, parameters,
    rebuilt, resolved, use_all, walk_all, walk_file, walk_files, walk_node, wildcards,
    with_uses,
};
use crate::frontend::symbols::TableView;
use crate::interning::position;
use crate::interning::{index_after, pool_after, lemma_intern_sound, lemma_position_unique};
use crate::paths::{PathIdx, path_at};
use crate::strings::StringIdx;

verus! {

/// Every path that `node` or a node below it carries is among the first
/// `count` paths.
pub open spec fn known(count: nat, node: Tree) -> bool
    decreases node,
{
    &&& node.value matches NodeValue::Path(p) ==> p.0 < count
    &&& forall|i: int| 0 <= i < node.children.len() ==> known(count, #[trigger] node.children[i])
}

/// Every path that one of `nodes` or a node below it carries is among the
/// first `count` paths.
pub open spec fn all_known(count: nat, nodes: Seq<Tree>) -> bool {
    forall|i: int| 0 <= i < nodes.len() ==> known(count, #[trigger] nodes[i])
}

/// Every alias stands for an interned path that is not empty and whose first
/// segment is no alias itself.
pub open spec fn settled(paths: Seq<Seq<StringIdx>>, uses: Seq<(StringIdx, PathIdx)>) -> bool {
    forall|alias: StringIdx|
        (#[trigger] lookup(uses, alias)) matches Some(path) ==> path.0 < paths.len()
            && paths[path.0 as int].len() > 0 && lookup(uses, paths[path.0 as int][0]) is None
}

/// The names in scope after `node`: a variable declaration adds its name.
pub open spec fn scope_after(visible: Seq<StringIdx>, node: Tree) -> Seq<StringIdx> {
    match node.value {
        NodeValue::String(name) if node.t == NodeType::VariableDecl => visible.push(name),
        _ => visible,
    }
}

/// A prefix of a prefix is a prefix.
pub proof fn lemma_prefix_trans<T>(a: Seq<T>, b: Seq<T>, c: Seq<T>)
    requires
        a.is_prefix_of(b),
        b.is_prefix_of(c),
    ensures
        a.is_prefix_of(c),
{
    assert(a =~= c.subrange(0, a.len() as int));
}

/// What is known among fewer paths is known among more.
pub proof fn lemma_known_grows(a: nat, b: nat, node: Tree)
    requires
        known(a, node),
        a <= b,
    ensures
        known(b, node),
    decreases node,
{
    assert forall|i: int| 0 <= i < node.children.len() implies known(
        b,
        #[trigger] node.children[i],
    ) by {
        lemma_known_grows(a, b, node.children[i]);
    }
}

/// What is known among fewer paths is known among more, for a list of
/// nodes.
pub proof fn lemma_all_known_grows(a: nat, b: nat, nodes: Seq<Tree>)
    requires
        all_known(a, nodes),
        a <= b,
    ensures
        all_known(b, nodes),
{
    assert forall|i: int| 0 <= i < nodes.len() implies known(b, #[trigger] nodes[i]) by {
        lemma_known_grows(a, b, nodes[i]);
    }
}

/// `use` clauses that are settled stay settled as paths are added.
pub proof fn lemma_settled_grows(
    paths: Seq<Seq<StringIdx>>,
    later: Seq<Seq<StringIdx>>,
    uses: Seq<(StringIdx, PathIdx)>,
)
    requires
        settled(paths, uses),
        paths.is_prefix_of(later),
    ensures
        settled(later, uses),
{
    assert forall|alias: StringIdx| (#[trigger] lookup(uses, alias)) is Some implies ({
        let target = lookup(uses, alias)->0;
        target.0 < later.len() && later[target.0 as int].len() > 0 && lookup(
            uses,
            later[target.0 as int][0],
        ) is None
    }) by {
        let target = lookup(uses, alias)->0;
        assert(later[target.0 as int] == paths[target.0 as int]);
    }
}

/// Lists whose argument lists stand at the same places have their `n`-th
/// argument list at the same place.
pub proof fn lemma_list_position(a: Seq<Tree>, b: Seq<Tree>, n: nat)
    requires
        a.len() == b.len(),
        forall|i: int|
            0 <= i < a.len() ==> ((#[trigger] a[i]).t == NodeType::ArgumentList <==> b[i].t
                == NodeType::ArgumentList),
    ensures
        list_position(a, n) == list_position(b, n),
        0 <= list_position(a, n) <= a.len(),
        list_position(a, n) < a.len() ==> a[list_position(a, n)].t == NodeType::ArgumentList,
    decreases a.len(),
{
    if a.len() > 0 {
        let a1 = a.drop_first();
        let b1 = b.drop_first();
        assert forall|i: int| 0 <= i < a1.len() implies a1[i] == a[i + 1] by {}
        assert forall|i: int| 0 <= i < a1.len() implies ((#[trigger] a1[i]).t
            == NodeType::ArgumentList <==> b1[i].t == NodeType::ArgumentList) by {
            assert(a1[i] == a[i + 1]);
            assert(b1[i] == b[i + 1]);
        }
        assert(a[0].t == NodeType::ArgumentList <==> b[0].t == NodeType::ArgumentList);
        if a[0].t == NodeType::ArgumentList {
            if n > 0 {
                lemma_list_position(a1, b1, (n - 1) as nat);
            }
        } else {
            lemma_list_position(a1, b1, n);
        }
    }
}

/// What expansion keeps: it only adds paths, all paths of the expanded node
/// are known, and the node keeps its shape: its number of children, whether
/// it is a function, an argument list or a declaration, the names that it
/// declares, and the name that it brings into scope.
pub proof fn lemma_expand_tree(
    paths: Seq<Seq<StringIdx>>,
    uses: Seq<(StringIdx, PathIdx)>,
    visible: Seq<StringIdx>,
    node: Tree,
)
    requires
        paths.no_duplicates(),
        known(paths.len(), node),
        expand_tree(paths, uses, visible, node).0.len() <= usize::MAX,
    ensures
        ({
            let (p1, v1, t1) = expand_tree(paths, uses, visible, node);
            &&& paths.is_prefix_of(p1)
            &&& p1.no_duplicates()
            &&& known(p1.len(), t1)
            &&& t1.children.len() == node.children.len()
            &&& (t1.t == NodeType::ArgumentList <==> node.t == NodeType::ArgumentList)
            &&& (t1.t == NodeType::FunctionDecl <==> node.t == NodeType::FunctionDecl)
            &&& (t1.t == NodeType::ArgumentDecl <==> node.t == NodeType::ArgumentDecl)
            &&& (t1.t == NodeType::VariableDecl <==> node.t == NodeType::VariableDecl)
            &&& (node.t == NodeType::ArgumentDecl || node.t == NodeType::VariableDecl ==> t1.value
                == node.value)
            &&& (node.t == NodeType::ArgumentList ==> declared_names(t1.children)
                == declared_names(node.children))
            &&& parameters(t1) == parameters(node)
            &&& v1 == scope_after(visible, node)
            &&& v1 == scope_after(visible, t1)
        }),
    decreases node, 1nat,
{
    let inner = if node.t == NodeType::FunctionDecl {
        visible + parameters(node)
    } else {
        visible
    };
    let (pc, vc, cs) = expand_trees(paths, uses, inner, node.children);
    let (p1, v1, t1) = expand_tree(paths, uses, visible, node);
    assert(all_known(paths.len(), node.children));
    lemma_pool_of_children(paths, uses, visible, node);
    lemma_expand_trees(paths, uses, inner, node.children);
    assert(t1.children == cs);
    match node.value {
        NodeValue::Path(rel) if node.t == NodeType::PathAccess => {
            let segments = path_at(pc, rel);
            if !(segments.len() == 0 || (segments.len() == 1 && visible.contains(segments[0]))) {
                let full = resolved(pc, uses, segments);
                lemma_intern_sound(pc, full);
                lemma_prefix_trans(paths, pc, p1);
                lemma_all_known_grows(pc.len(), p1.len(), cs);
            }
        },
        NodeValue::String(name) if node.t == NodeType::NamespaceAccess => {
            if !visible.contains(name) {
                let full = resolved(pc, uses, seq![name]);
                lemma_intern_sound(pc, full);
                lemma_prefix_trans(paths, pc, p1);
                lemma_all_known_grows(pc.len(), p1.len(), cs);
            }
        },
        _ => {},
    }
    lemma_list_position(cs, node.children, 1);
}

/// The paths after the children of a node are among those after the node.
pub proof fn lemma_pool_of_children(
    paths: Seq<Seq<StringIdx>>,
    uses: Seq<(StringIdx, PathIdx)>,
    visible: Seq<StringIdx>,
    node: Tree,
)
    ensures
        ({
            let inner = if node.t == NodeType::FunctionDecl {
                visible + parameters(node)
            } else {
                visible
            };
            let pc = expand_trees(paths, uses, inner, node.children).0;
            let p1 = expand_tree(paths, uses, visible, node).0;
            &&& pc.len() <= p1.len()
            &&& pc.no_duplicates() ==> pc.is_prefix_of(p1)
        }),
{
    let inner = if node.t == NodeType::FunctionDecl {
        visible + parameters(node)
    } else {
        visible
    };
    let pc = expand_trees(paths, uses, inner, node.children).0;
    match node.value {
        NodeValue::Path(rel) if node.t == NodeType::PathAccess => {
            let segments = path_at(pc, rel);
            if !(segments.len() == 0 || (segments.len() == 1 && visible.contains(segments[0]))) {
                if pc.no_duplicates() {
                    lemma_intern_sound(pc, resolved(pc, uses, segments));
                }
            }
        },
        NodeValue::String(name) if node.t == NodeType::NamespaceAccess => {
            if !visible.contains(name) {
                if pc.no_duplicates() {
                    lemma_intern_sound(pc, resolved(pc, uses, seq![name]));
                }
            }
        },
        _ => {},
    }
}

/// The paths after some of the nodes are no more than those after all.
pub proof fn lemma_pool_of_part(
    paths: Seq<Seq<StringIdx>>,
    uses: Seq<(StringIdx, PathIdx)>,
    visible: Seq<StringIdx>,
    nodes: Seq<Tree>,
)
    requires
        nodes.len() > 0,
    ensures
        expand_trees(paths, uses, visible, nodes.drop_last()).0.len() <= expand_trees(
            paths,
            uses,
            visible,
            nodes,
        ).0.len(),
{
    let (pa, va, done) = expand_trees(paths, uses, visible, nodes.drop_last());
    lemma_pool_of_children(pa, uses, va, nodes.last());
    lemma_pool_of_all(
        pa,
        uses,
        if nodes.last().t == NodeType::FunctionDecl {
            va + parameters(nodes.last())
        } else {
            va
        },
        nodes.last().children,
    );
}

/// Expansion never takes paths away.
pub proof fn lemma_pool_of_all(
    paths: Seq<Seq<StringIdx>>,
    uses: Seq<(StringIdx, PathIdx)>,
    visible: Seq<StringIdx>,
    nodes: Seq<Tree>,
)
    ensures
        paths.len() <= expand_trees(paths, uses, visible, nodes).0.len(),
    decreases nodes, 0nat,
{
    if nodes.len() > 0 {
        let (pa, va, done) = expand_trees(paths, uses, visible, nodes.drop_last());
        lemma_pool_of_all(paths, uses, visible, nodes.drop_last());
        lemma_pool_of_children(pa, uses, va, nodes.last());
        lemma_pool_of_all(
            pa,
            uses,
            if nodes.last().t == NodeType::FunctionDecl {
                va + parameters(nodes.last())
            } else {
                va
            },
            nodes.last().children,
        );
    }
}

/// What expansion keeps, for a list of nodes.
pub proof fn lemma_expand_trees(
    paths: Seq<Seq<StringIdx>>,
    uses: Seq<(StringIdx, PathIdx)>,
    visible: Seq<StringIdx>,
    nodes: Seq<Tree>,
)
    requires
        paths.no_duplicates(),
        all_known(paths.len(), nodes),
        expand_trees(paths, uses, visible, nodes).0.len() <= usize::MAX,
    ensures
        ({
            let (p1, v1, ts) = expand_trees(paths, uses, visible, nodes);
            &&& paths.is_prefix_of(p1)
            &&& p1.no_duplicates()
            &&& all_known(p1.len(), ts)
            &&& ts.len() == nodes.len()
            &&& forall|i: int|
                0 <= i < ts.len() ==> ((#[trigger] ts[i]).t == NodeType::ArgumentList
                    <==> nodes[i].t == NodeType::ArgumentList)
            &&& forall|i: int|
                0 <= i < ts.len() && nodes[i].t == NodeType::ArgumentList ==> declared_names(
                    (#[trigger] ts[i]).children,
                ) == declared_names(nodes[i].children)
            &&& declared_names(ts) == declared_names(nodes)
        }),
    decreases nodes, 0nat,
{
    if nodes.len() > 0 {
        let (pa, va, done) = expand_trees(paths, uses, visible, nodes.drop_last());
        let (pb, vb, last) = expand_tree(pa, uses, va, nodes.last());
        let ts = done.push(last);
        lemma_pool_of_part(paths, uses, visible, nodes);
        assert(all_known(paths.len(), nodes.drop_last())) by {
            assert forall|i: int| 0 <= i < nodes.drop_last().len() implies known(
                paths.len(),
                #[trigger] nodes.drop_last()[i],
            ) by {
                assert(nodes.drop_last()[i] == nodes[i]);
            }
        }
        lemma_expand_trees(paths, uses, visible, nodes.drop_last());
        lemma_known_grows(paths.len(), pa.len(), nodes.last());
        lemma_expand_tree(pa, uses, va, nodes.last());
        lemma_prefix_trans(paths, pa, pb);
        lemma_all_known_grows(pa.len(), pb.len(), done);
        assert(ts.drop_last() =~= done);
        assert forall|i: int| 0 <= i < ts.len() implies ((#[trigger] ts[i]).t
            == NodeType::ArgumentList <==> nodes[i].t == NodeType::ArgumentList) by {
            if i < done.len() {
                assert(ts[i] == done[i]);
                assert(nodes.drop_last()[i] == nodes[i]);
            }
        }
        assert forall|i: int|
            0 <= i < ts.len() && nodes[i].t == NodeType::ArgumentList implies declared_names(
            (#[trigger] ts[i]).children,
        ) == declared_names(nodes[i].children) by {
            if i < done.len() {
                assert(ts[i] == done[i]);
                assert(nodes.drop_last()[i] == nodes[i]);
            }
        }
        assert forall|i: int| 0 <= i < ts.len() implies known(pb.len(), #[trigger] ts[i]) by {
            if i < done.len() {
                assert(ts[i] == done[i]);
            }
        }
    }
}

/// Idempotence: expanding the paths of an expanded node changes nothing,
/// neither the node nor the paths, whatever paths were interned since.
///
/// This holds where the `use` clauses are settled: every alias stands for a
/// path whose first segment is no alias itself. Otherwise the first segment
/// would be replaced once more.
pub proof fn lemma_expand_tree_again(
    paths: Seq<Seq<StringIdx>>,
    uses: Seq<(StringIdx, PathIdx)>,
    visible: Seq<StringIdx>,
    node: Tree,
    later: Seq<Seq<StringIdx>>,
)
    requires
        paths.no_duplicates(),
        known(paths.len(), node),
        settled(paths, uses),
        expand_tree(paths, uses, visible, node).0.is_prefix_of(later),
        later.no_duplicates(),
        later.len() <= usize::MAX,
    ensures
        expand_tree(later, uses, visible, expand_tree(paths, uses, visible, node).2) == (
            later,
            expand_tree(paths, uses, visible, node).1,
            expand_tree(paths, uses, visible, node).2,
        ),
    decreases node, 1nat,
{
    let inner = if node.t == NodeType::FunctionDecl {
        visible + parameters(node)
    } else {
        visible
    };
    let (pc, vc, cs) = expand_trees(paths, uses, inner, node.children);
    let (p1, v1, t1) = expand_tree(paths, uses, visible, node);
    assert(all_known(paths.len(), node.children));
    lemma_pool_of_children(paths, uses, visible, node);
    lemma_expand_trees(paths, uses, inner, node.children);
    lemma_expand_tree(paths, uses, visible, node);
    lemma_prefix_trans(pc, p1, later);
    lemma_expand_trees_again(paths, uses, inner, node.children, later);
    lemma_settled_grows(paths, pc, uses);
    lemma_settled_grows(paths, later, uses);
    let inner2 = if t1.t == NodeType::FunctionDecl {
        visible + parameters(t1)
    } else {
        visible
    };
    assert(inner2 == inner);
    assert(t1.children == cs);
    assert(expand_trees(later, uses, inner2, t1.children) == (later, vc, cs));
    match node.value {
        NodeValue::Path(rel) if node.t == NodeType::PathAccess => {
            let segments = path_at(pc, rel);
            assert(path_at(later, rel) == segments);
            if !(segments.len() == 0 || (segments.len() == 1 && visible.contains(segments[0]))) {
                let full = resolved(pc, uses, segments);
                lemma_resolved_again(pc, later, uses, segments);
                lemma_intern_sound(pc, full);
                let idx = index_after(pc, full);
                assert(later[idx] == p1[idx]);
                lemma_position_unique(later, full, idx);
                assert(t1 == rebuilt(t1, t1.t, t1.value, cs));
            } else {
                assert(t1 == rebuilt(t1, t1.t, t1.value, cs));
            }
        },
        NodeValue::String(name) if node.t == NodeType::NamespaceAccess => {
            if !visible.contains(name) {
                let full = resolved(pc, uses, seq![name]);
                lemma_resolved_again(pc, later, uses, seq![name]);
                lemma_intern_sound(pc, full);
                let idx = index_after(pc, full);
                assert(later[idx] == p1[idx]);
                lemma_position_unique(later, full, idx);
                assert(t1 == rebuilt(t1, t1.t, t1.value, cs));
            } else {
                assert(t1 == rebuilt(t1, t1.t, t1.value, cs));
            }
        },
        _ => {
            assert(t1 == rebuilt(t1, t1.t, t1.value, cs));
        },
    }
}

/// A resolved path is not empty, and resolving it once more leaves it as it
/// is, where the `use` clauses are settled.
pub proof fn lemma_resolved_again(
    paths: Seq<Seq<StringIdx>>,
    later: Seq<Seq<StringIdx>>,
    uses: Seq<(StringIdx, PathIdx)>,
    segments: Seq<StringIdx>,
)
    requires
        settled(paths, uses),
        paths.is_prefix_of(later),
        segments.len() > 0,
    ensures
        resolved(paths, uses, segments).len() > 0,
        resolved(later, uses, resolved(paths, uses, segments)) == resolved(
            paths,
            uses,
            segments,
        ),
        resolved(paths, uses, segments).len() == 1 ==> segments.len() == 1,
        lookup(uses, segments[0]) is None ==> resolved(paths, uses, segments) == segments,
{
}

/// Idempotence for a list of nodes.
pub proof fn lemma_expand_trees_again(
    paths: Seq<Seq<StringIdx>>,
    uses: Seq<(StringIdx, PathIdx)>,
    visible: Seq<StringIdx>,
    nodes: Seq<Tree>,
    later: Seq<Seq<StringIdx>>,
)
    requires
        paths.no_duplicates(),
        all_known(paths.len(), nodes),
        settled(paths, uses),
        expand_trees(paths, uses, visible, nodes).0.is_prefix_of(later),
        later.no_duplicates(),
        later.len() <= usize::MAX,
    ensures
        expand_trees(later, uses, visible, expand_trees(paths, uses, visible, nodes).2) == (
            later,
            expand_trees(paths, uses, visible, nodes).1,
            expand_trees(paths, uses, visible, nodes).2,
        ),
    decreases nodes, 0nat,
{
    if nodes.len() > 0 {
        let (pa, va, done) = expand_trees(paths, uses, visible, nodes.drop_last());
        let (pb, vb, last) = expand_tree(pa, uses, va, nodes.last());
        let ts = done.push(last);
        lemma_pool_of_part(paths, uses, visible, nodes);
        assert(all_known(paths.len(), nodes.drop_last())) by {
            assert forall|i: int| 0 <= i < nodes.drop_last().len() implies known(
                paths.len(),
                #[trigger] nodes.drop_last()[i],
            ) by {
                assert(nodes.drop_last()[i] == nodes[i]);
            }
        }
        lemma_expand_trees(paths, uses, visible, nodes.drop_last());
        lemma_known_grows(paths.len(), pa.len(), nodes.last());
        lemma_expand_tree(pa, uses, va, nodes.last());
        lemma_prefix_trans(pa, pb, later);
        lemma_settled_grows(paths, pa, uses);
        lemma_expand_trees_again(paths, uses, visible, nodes.drop_last(), later);
        lemma_expand_tree_again(pa, uses, va, nodes.last(), later);
        assert(ts.drop_last() =~= done);
        assert(ts.last() == last);
    }
}

/// The paths after a node are no fewer than those before it.
pub proof fn lemma_pool_of_tree(
    paths: Seq<Seq<StringIdx>>,
    uses: Seq<(StringIdx, PathIdx)>,
    visible: Seq<StringIdx>,
    node: Tree,
)
    ensures
        paths.len() <= expand_tree(paths, uses, visible, node).0.len(),
{
    lemma_pool_of_children(paths, uses, visible, node);
    lemma_pool_of_all(
        paths,
        uses,
        if node.t == NodeType::FunctionDecl {
            visible + parameters(node)
        } else {
            visible
        },
        node.children,
    );
}

/// The place of the symbol whose declaration the top-level node `node` has
/// expanded in the state `st`, if it has one expanded.
pub open spec fn visited_slot(st: Walk, node: Tree) -> Option<int> {
    match node.value {
        NodeValue::Path(p) if node.t == NodeType::ModuleDecl => None,
        NodeValue::String(name) if node.t != NodeType::UsageDecl => {
            let segments = path_at(st.paths, st.module).push(name);
            let full = PathIdx(index_after(st.paths, segments) as usize);
            if st.table.symbol_paths.contains(full) && position(st.table.symbol_paths, full)
                < st.table.symbols.len() {
                Some(position(st.table.symbol_paths, full))
            } else {
                None
            }
        },
        _ => None,
    }
}

/// The paths in which the declaration of the symbol of the top-level node
/// `node` is expanded in the state `st`: those of the state and the path of
/// the symbol.
pub open spec fn pool_at(st: Walk, node: Tree) -> Seq<Seq<StringIdx>> {
    match node.value {
        NodeValue::String(name) => pool_after(st.paths, path_at(st.paths, st.module).push(name)),
        _ => st.paths,
    }
}

/// The paths that the top-level node `node` carries are among the first
/// `count` paths: the module that it declares, and the paths that it uses.
pub open spec fn node_known(count: nat, node: Tree) -> bool {
    &&& node.value matches NodeValue::Path(p) ==> p.0 < count
    &&& forall|i: int|
        0 <= i < node.children.len() ==> ((#[trigger] node.children[i]).value matches NodeValue::Path(
            p,
        ) ==> p.0 < count)
}

/// The table lists nothing twice, and the paths of its symbols and the
/// paths in their declarations are among the first `count` paths.
pub open spec fn table_known(count: nat, table: TableView) -> bool {
    &&& table.wf()
    &&& forall|j: int|
        0 <= j < table.symbols.len() ==> known(count, (#[trigger] table.symbols[j]).decl)
    &&& forall|j: int|
        0 <= j < table.symbol_paths.len() ==> (#[trigger] table.symbol_paths[j]).0 < count
}

/// The state is sound: its paths and its table list nothing twice, and all
/// paths that the state refers to are among its paths.
pub open spec fn good(st: Walk) -> bool {
    &&& st.paths.no_duplicates()
    &&& table_known(st.paths.len(), st.table)
    &&& st.module.0 < st.paths.len()
    &&& forall|j: int| 0 <= j < st.uses.len() ==> (#[trigger] st.uses[j]).1.0 < st.paths.len()
}

/// Whether the state `f` can come after the state `s`: it has the paths of
/// `s` and maybe more, and its table differs at most in declarations.
pub open spec fn after(s: Walk, f: Walk) -> bool {
    &&& s.paths.is_prefix_of(f.paths)
    &&& f.table.modules == s.table.modules
    &&& f.table.symbol_paths == s.table.symbol_paths
    &&& f.table.exports == s.table.exports
    &&& f.table.symbols.len() == s.table.symbols.len()
}

/// The paths that match a pattern are among the candidates.
pub proof fn lemma_matching_known(
    paths: Seq<Seq<StringIdx>>,
    pattern: Seq<StringIdx>,
    wildcard: StringIdx,
    candidates: Seq<PathIdx>,
    count: nat,
)
    requires
        forall|j: int| 0 <= j < candidates.len() ==> (#[trigger] candidates[j]).0 < count,
    ensures
        forall|j: int|
            0 <= j < matching(paths, pattern, wildcard, candidates).len() ==> (#[trigger] matching(
                paths,
                pattern,
                wildcard,
                candidates,
            )[j]).0 < count,
    decreases candidates.len(),
{
    if candidates.len() > 0 {
        assert forall|j: int| 0 <= j < candidates.drop_last().len() implies (
        #[trigger] candidates.drop_last()[j]).0 < count by {
            assert(candidates.drop_last()[j] == candidates[j]);
        }
        lemma_matching_known(paths, pattern, wildcard, candidates.drop_last(), count);
        assert(candidates.last() == candidates[candidates.len() - 1]);
        let front = matching(paths, pattern, wildcard, candidates.drop_last());
        let all = matching(paths, pattern, wildcard, candidates);
        assert forall|j: int| 0 <= j < all.len() implies (#[trigger] all[j]).0 < count by {
            if j < front.len() {
                assert(all[j] == front[j]);
            }
        }
    }
}

/// Which candidates match a pattern does not change as paths are added.
pub proof fn lemma_matching_again(
    paths: Seq<Seq<StringIdx>>,
    later: Seq<Seq<StringIdx>>,
    pattern: Seq<StringIdx>,
    wildcard: StringIdx,
    candidates: Seq<PathIdx>,
)
    requires
        paths.is_prefix_of(later),
        forall|j: int| 0 <= j < candidates.len() ==> (#[trigger] candidates[j]).0 < paths.len(),
    ensures
        matching(later, pattern, wildcard, candidates) == matching(
            paths,
            pattern,
            wildcard,
            candidates,
        ),
    decreases candidates.len(),
{
    if candidates.len() > 0 {
        assert forall|j: int| 0 <= j < candidates.drop_last().len() implies (
        #[trigger] candidates.drop_last()[j]).0 < paths.len() by {
            assert(candidates.drop_last()[j] == candidates[j]);
        }
        lemma_matching_again(paths, later, pattern, wildcard, candidates.drop_last());
        assert(candidates.last() == candidates[candidates.len() - 1]);
        assert(path_at(later, candidates.last()) == path_at(paths, candidates.last()));
    }
}

/// What `use` clauses come of used paths does not change as paths are
/// added, and they stand for paths that are known.
pub proof fn lemma_with_uses(
    paths: Seq<Seq<StringIdx>>,
    later: Seq<Seq<StringIdx>>,
    uses: Seq<(StringIdx, PathIdx)>,
    used: Seq<PathIdx>,
    count: nat,
)
    requires
        paths.is_prefix_of(later),
        count <= paths.len(),
        forall|j: int| 0 <= j < used.len() ==> (#[trigger] used[j]).0 < count,
        forall|j: int| 0 <= j < uses.len() ==> (#[trigger] uses[j]).1.0 < count,
    ensures
        with_uses(later, uses, used) == with_uses(paths, uses, used),
        forall|j: int|
            0 <= j < with_uses(paths, uses, used).len() ==> (#[trigger] with_uses(
                paths,
                uses,
                used,
            )[j]).1.0 < count,
    decreases used.len(),
{
    if used.len() > 0 {
        assert forall|j: int| 0 <= j < used.drop_last().len() implies (#[trigger] used.drop_last()[j]).0
            < count by {
            assert(used.drop_last()[j] == used[j]);
        }
        lemma_with_uses(paths, later, uses, used.drop_last(), count);
        assert(used.last() == used[used.len() - 1]);
        assert(path_at(later, used.last()) == path_at(paths, used.last()));
    }
}

/// What `use` clauses come of a `use` does not change as paths are added
/// and declarations are expanded, and they stand for paths that are known.
pub proof fn lemma_use_all(
    paths: Seq<Seq<StringIdx>>,
    later: Seq<Seq<StringIdx>>,
    table: TableView,
    other: TableView,
    wildcard: StringIdx,
    uses: Seq<(StringIdx, PathIdx)>,
    children: Seq<Tree>,
)
    requires
        paths.is_prefix_of(later),
        other.symbol_paths == table.symbol_paths,
        forall|j: int|
            0 <= j < table.symbol_paths.len() ==> (#[trigger] table.symbol_paths[j]).0
                < paths.len(),
        forall|j: int| 0 <= j < uses.len() ==> (#[trigger] uses[j]).1.0 < paths.len(),
        forall|i: int|
            0 <= i < children.len() ==> ((#[trigger] children[i]).value matches NodeValue::Path(
                p,
            ) ==> p.0 < paths.len()),
    ensures
        use_all(later, other, wildcard, uses, children) == use_all(
            paths,
            table,
            wildcard,
            uses,
            children,
        ),
        forall|j: int|
            0 <= j < use_all(paths, table, wildcard, uses, children).len() ==> (#[trigger] use_all(
                paths,
                table,
                wildcard,
                uses,
                children,
            )[j]).1.0 < paths.len(),
    decreases children.len(),
{
    if children.len() > 0 {
        assert forall|i: int| 0 <= i < children.drop_last().len() implies ((
        #[trigger] children.drop_last()[i]).value matches NodeValue::Path(p) ==> p.0
            < paths.len()) by {
            assert(children.drop_last()[i] == children[i]);
        }
        lemma_use_all(paths, later, table, other, wildcard, uses, children.drop_last());
        let before = use_all(paths, table, wildcard, uses, children.drop_last());
        assert(children.last() == children[children.len() - 1]);
        match children.last().value {
            NodeValue::Path(raw) => {
                assert(path_at(later, raw) == path_at(paths, raw));
                lemma_matching_again(
                    paths,
                    later,
                    path_at(paths, raw),
                    wildcard,
                    table.symbol_paths,
                );
                lemma_matching_known(
                    paths,
                    path_at(paths, raw),
                    wildcard,
                    table.symbol_paths,
                    paths.len(),
                );
                let used = wildcards(paths, table, wildcard, raw);
                assert(wildcards(later, other, wildcard, raw) == used);
                lemma_with_uses(paths, later, before, used, paths.len());
            },
            _ => {},
        }
    }
}

/// One top-level node keeps a sound state sound, and only adds paths and
/// changes the declaration that it visits.
pub proof fn lemma_walk_node(st: Walk, wildcard: StringIdx, node: Tree)
    requires
        good(st),
        node_known(st.paths.len(), node),
        walk_node(st, wildcard, node).paths.len() <= usize::MAX,
    ensures
        good(walk_node(st, wildcard, node)),
        after(st, walk_node(st, wildcard, node)),
        forall|j: int|
            0 <= j < st.table.symbols.len() && visited_slot(st, node) != Some(j) ==> walk_node(
                st,
                wildcard,
                node,
            ).table.symbols[j] == #[trigger] st.table.symbols[j],
{
    let end = walk_node(st, wildcard, node);
    match node.value {
        NodeValue::Path(p) if node.t == NodeType::ModuleDecl => {},
        NodeValue::String(name) if node.t != NodeType::UsageDecl => {
            let segments = path_at(st.paths, st.module).push(name);
            let full = PathIdx(index_after(st.paths, segments) as usize);
            let paths1 = pool_after(st.paths, segments);
            lemma_intern_sound(st.paths, segments);
            if st.table.symbol_paths.contains(full) && position(st.table.symbol_paths, full)
                < st.table.symbols.len() {
                let i = position(st.table.symbol_paths, full);
                let decl = st.table.symbols[i].decl;
                lemma_known_grows(st.paths.len(), paths1.len(), decl);
                lemma_expand_tree(paths1, st.uses, Seq::empty(), decl);
                lemma_prefix_trans(st.paths, paths1, end.paths);
                assert forall|j: int| 0 <= j < end.table.symbols.len() implies known(
                    end.paths.len(),
                    (#[trigger] end.table.symbols[j]).decl,
                ) by {
                    if j != i {
                        assert(end.table.symbols[j] == st.table.symbols[j]);
                        lemma_known_grows(
                            st.paths.len(),
                            end.paths.len(),
                            st.table.symbols[j].decl,
                        );
                    }
                }
            } else {
                assert forall|j: int| 0 <= j < end.table.symbols.len() implies known(
                    end.paths.len(),
                    (#[trigger] end.table.symbols[j]).decl,
                ) by {
                    lemma_known_grows(st.paths.len(), end.paths.len(), st.table.symbols[j].decl);
                }
            }
        },
        _ => {
            if node.t == NodeType::UsageDecl {
                lemma_use_all(
                    st.paths,
                    st.paths,
                    st.table,
                    st.table,
                    wildcard,
                    st.uses,
                    node.children,
                );
            }
        },
    }
}

/// A top-level node takes no paths away.
pub proof fn lemma_walk_node_paths(st: Walk, wildcard: StringIdx, node: Tree)
    ensures
        st.paths.len() <= walk_node(st, wildcard, node).paths.len(),
{
    match node.value {
        NodeValue::String(name) if node.t != NodeType::UsageDecl => {
            let segments = path_at(st.paths, st.module).push(name);
            let full = PathIdx(index_after(st.paths, segments) as usize);
            let paths1 = pool_after(st.paths, segments);
            if st.table.symbol_paths.contains(full) && position(st.table.symbol_paths, full)
                < st.table.symbols.len() {
                let i = position(st.table.symbol_paths, full);
                lemma_pool_of_tree(paths1, st.uses, Seq::empty(), st.table.symbols[i].decl);
            }
        },
        _ => {},
    }
}

/// Top-level nodes take no paths away.
pub proof fn lemma_walk_all_paths(st: Walk, wildcard: StringIdx, nodes: Seq<Tree>)
    ensures
        st.paths.len() <= walk_all(st, wildcard, nodes).paths.len(),
    decreases nodes.len(),
{
    if nodes.len() > 0 {
        lemma_walk_all_paths(st, wildcard, nodes.drop_last());
        lemma_walk_node_paths(walk_all(st, wildcard, nodes.drop_last()), wildcard, nodes.last());
    }
}

/// The top-level nodes are known: see `node_known`.
pub open spec fn nodes_known(count: nat, nodes: Seq<Tree>) -> bool {
    forall|j: int| 0 <= j < nodes.len() ==> node_known(count, #[trigger] nodes[j])
}

/// A top-level node that is known among fewer paths is known among more.
pub proof fn lemma_node_known_grows(a: nat, b: nat, node: Tree)
    requires
        node_known(a, node),
        a <= b,
    ensures
        node_known(b, node),
{
}

/// Top-level nodes keep a sound state sound, and only add paths and change
/// declarations.
pub proof fn lemma_walk_all(st: Walk, wildcard: StringIdx, nodes: Seq<Tree>)
    requires
        good(st),
        nodes_known(st.paths.len(), nodes),
        walk_all(st, wildcard, nodes).paths.len() <= usize::MAX,
    ensures
        good(walk_all(st, wildcard, nodes)),
        after(st, walk_all(st, wildcard, nodes)),
    decreases nodes.len(),
{
    if nodes.len() > 0 {
        let before = walk_all(st, wildcard, nodes.drop_last());
        lemma_walk_node_paths(before, wildcard, nodes.last());
        lemma_walk_all_paths(st, wildcard, nodes.drop_last());
        assert forall|j: int| 0 <= j < nodes.drop_last().len() implies node_known(
            st.paths.len(),
            #[trigger] nodes.drop_last()[j],
        ) by {
            assert(nodes.drop_last()[j] == nodes[j]);
        }
        lemma_walk_all(st, wildcard, nodes.drop_last());
        assert(node_known(st.paths.len(), nodes.last()));
        lemma_node_known_grows(st.paths.len(), before.paths.len(), nodes.last());
        lemma_walk_node(before, wildcard, nodes.last());
        lemma_prefix_trans(st.paths, before.paths, walk_all(st, wildcard, nodes).paths);
    }
}

/// Walking over nodes is walking over some of them first and over the
/// others then.
pub proof fn lemma_walk_split(st: Walk, wildcard: StringIdx, nodes: Seq<Tree>, k: int)
    requires
        0 <= k <= nodes.len(),
    ensures
        walk_all(st, wildcard, nodes) == walk_all(
            walk_all(st, wildcard, nodes.take(k)),
            wildcard,
            nodes.skip(k),
        ),
    decreases nodes.len(),
{
    if k == nodes.len() {
        assert(nodes.take(k) =~= nodes);
        assert(nodes.skip(k) =~= Seq::<Tree>::empty());
    } else {
        lemma_walk_split(st, wildcard, nodes.drop_last(), k);
        assert(nodes.drop_last().take(k) =~= nodes.take(k));
        assert(nodes.drop_last().skip(k) =~= nodes.skip(k).drop_last());
        assert(nodes.skip(k).last() == nodes.last());
    }
}

/// The place that the `j`-th of `nodes` visits in a walk that starts in
/// `st`.
pub open spec fn slot_at(st: Walk, wildcard: StringIdx, nodes: Seq<Tree>, j: int) -> Option<int> {
    visited_slot(walk_all(st, wildcard, nodes.take(j)), nodes[j])
}

/// A declaration that no node visits stays as it is.
pub proof fn lemma_slot_stable(st: Walk, wildcard: StringIdx, nodes: Seq<Tree>, slot: int)
    requires
        good(st),
        nodes_known(st.paths.len(), nodes),
        walk_all(st, wildcard, nodes).paths.len() <= usize::MAX,
        0 <= slot < st.table.symbols.len(),
        forall|j: int| 0 <= j < nodes.len() ==> #[trigger] slot_at(st, wildcard, nodes, j) != Some(slot),
    ensures
        walk_all(st, wildcard, nodes).table.symbols[slot] == st.table.symbols[slot],
    decreases nodes.len(),
{
    if nodes.len() > 0 {
        let front = nodes.drop_last();
        let before = walk_all(st, wildcard, front);
        lemma_walk_node_paths(before, wildcard, nodes.last());
        lemma_walk_all_paths(st, wildcard, front);
        assert forall|j: int| 0 <= j < front.len() implies node_known(
            st.paths.len(),
            #[trigger] front[j],
        ) by {
            assert(front[j] == nodes[j]);
        }
        assert forall|j: int| 0 <= j < front.len() implies #[trigger] slot_at(
            st,
            wildcard,
            front,
            j,
        ) != Some(slot) by {
            assert(front.take(j) =~= nodes.take(j));
            assert(front[j] == nodes[j]);
            assert(slot_at(st, wildcard, nodes, j) != Some(slot));
        }
        lemma_slot_stable(st, wildcard, front, slot);
        lemma_walk_all(st, wildcard, front);
        assert(node_known(st.paths.len(), nodes.last()));
        lemma_node_known_grows(st.paths.len(), before.paths.len(), nodes.last());
        lemma_walk_node(before, wildcard, nodes.last());
        assert(nodes.take(nodes.len() - 1) =~= front);
        assert(slot_at(st, wildcard, nodes, nodes.len() - 1) != Some(slot));
    }
}

/// Whether the walk over `nodes` that starts in `st` is orderly: no
/// declaration is visited twice, and each is visited with settled `use`
/// clauses.
pub open spec fn orderly(st: Walk, wildcard: StringIdx, nodes: Seq<Tree>) -> bool {
    &&& forall|a: int, b: int|
        0 <= a < b < nodes.len() && (#[trigger] slot_at(st, wildcard, nodes, a)) is Some
            ==> slot_at(st, wildcard, nodes, a) != #[trigger] slot_at(st, wildcard, nodes, b)
    &&& forall|j: int|
        0 <= j < nodes.len() && (#[trigger] slot_at(st, wildcard, nodes, j)) is Some ==> settled(
            pool_at(walk_all(st, wildcard, nodes.take(j)), nodes[j]),
            walk_all(st, wildcard, nodes.take(j)).uses,
        )
}

/// How a second walk over nodes relates to the first one: where `s` is the
/// state of the first walk and `t` that of the second, which started from
/// the end `f` of the first, `t` stands where `s` stands and holds what `f`
/// holds.
pub open spec fn second_walk(s: Walk, t: Walk, f: Walk) -> bool {
    &&& t.module == s.module
    &&& t.uses == s.uses
    &&& t.paths == f.paths
    &&& t.table == f.table
}

/// One node of the second walk keeps to the first: see `second_walk`.
pub proof fn lemma_second_step(s0: Walk, t0: Walk, f: Walk, wildcard: StringIdx, node: Tree)
    requires
        good(s0),
        node_known(s0.paths.len(), node),
        second_walk(s0, t0, f),
        walk_node(s0, wildcard, node).paths.is_prefix_of(f.paths),
        f.paths.no_duplicates(),
        f.paths.len() <= usize::MAX,
        f.table.symbol_paths == s0.table.symbol_paths,
        f.table.symbols.len() == s0.table.symbols.len(),
        visited_slot(s0, node) matches Some(i) ==> f.table.symbols[i] == walk_node(
            s0,
            wildcard,
            node,
        ).table.symbols[i] && settled(pool_at(s0, node), s0.uses),
    ensures
        second_walk(walk_node(s0, wildcard, node), walk_node(t0, wildcard, node), f),
{
    let s1 = walk_node(s0, wildcard, node);
    let t1 = walk_node(t0, wildcard, node);
    lemma_walk_node_paths(s0, wildcard, node);
    lemma_walk_node(s0, wildcard, node);
    lemma_prefix_trans(s0.paths, s1.paths, f.paths);
    match node.value {
        NodeValue::Path(p) if node.t == NodeType::ModuleDecl => {},
        NodeValue::String(name) if node.t != NodeType::UsageDecl => {
            let segments = path_at(s0.paths, s0.module).push(name);
            let at = index_after(s0.paths, segments);
            let full = PathIdx(at as usize);
            let paths1 = pool_after(s0.paths, segments);
            lemma_intern_sound(s0.paths, segments);
            assert(path_at(t0.paths, t0.module) == path_at(s0.paths, s0.module));
            lemma_walk_node_paths_first(s0, wildcard, node);
            lemma_prefix_trans(paths1, s1.paths, f.paths);
            assert(f.paths[at] == paths1[at]);
            lemma_position_unique(f.paths, segments, at);
            assert(pool_after(t0.paths, segments) == f.paths);
            assert(index_after(t0.paths, segments) == at);
            if s0.table.symbol_paths.contains(full) && position(s0.table.symbol_paths, full)
                < s0.table.symbols.len() {
                let i = position(s0.table.symbol_paths, full);
                let decl = s0.table.symbols[i].decl;
                assert(visited_slot(s0, node) == Some(i));
                lemma_known_grows(s0.paths.len(), paths1.len(), decl);
                assert(pool_at(s0, node) == paths1);
                lemma_expand_tree_again(paths1, s0.uses, Seq::empty(), decl, f.paths);
                assert(t0.table.symbols[i].decl == expand_tree(
                    paths1,
                    s0.uses,
                    Seq::empty(),
                    decl,
                ).2);
                assert(t1.table.symbols =~= f.table.symbols);
                assert(t1.table == f.table);
            }
        },
        _ => {
            if node.t == NodeType::UsageDecl {
                lemma_use_all(
                    s0.paths,
                    f.paths,
                    s0.table,
                    f.table,
                    wildcard,
                    s0.uses,
                    node.children,
                );
            }
        },
    }
}

/// The second walk keeps to the first: see `second_walk`. The second walk
/// starts from a state `f` that came after the first walk and in which the
/// declarations that the first walk visited are as it left them.
pub proof fn lemma_second_walk(
    st: Walk,
    again: Walk,
    f: Walk,
    wildcard: StringIdx,
    nodes: Seq<Tree>,
    k: int,
)
    requires
        good(st),
        nodes_known(st.paths.len(), nodes),
        orderly(st, wildcard, nodes),
        after(walk_all(st, wildcard, nodes), f),
        f.paths.no_duplicates(),
        f.paths.len() <= usize::MAX,
        forall|j: int|
            0 <= j < nodes.len() ==> ((#[trigger] slot_at(st, wildcard, nodes, j)) matches Some(i)
                ==> f.table.symbols[i] == walk_all(st, wildcard, nodes).table.symbols[i]),
        second_walk(st, again, f),
        0 <= k <= nodes.len(),
    ensures
        second_walk(
            walk_all(st, wildcard, nodes.take(k)),
            walk_all(again, wildcard, nodes.take(k)),
            f,
        ),
    decreases k,
{
    let end = walk_all(st, wildcard, nodes);
    if k == 0 {
        assert(nodes.take(0) =~= Seq::<Tree>::empty());
    } else {
        let front = nodes.take(k - 1);
        let now = nodes.take(k);
        let node = nodes[k - 1];
        assert(now.drop_last() =~= front);
        assert(now.last() == node);
        let s0 = walk_all(st, wildcard, front);
        let t0 = walk_all(again, wildcard, front);
        let s1 = walk_node(s0, wildcard, node);
        lemma_second_walk(st, again, f, wildcard, nodes, k - 1);
        lemma_walk_future(st, wildcard, nodes, k);
        lemma_walk_future(st, wildcard, nodes, k - 1);
        lemma_walk_split(st, wildcard, nodes, k);
        lemma_prefix_trans(s1.paths, end.paths, f.paths);
        let rest = nodes.skip(k);
        assert(node_known(st.paths.len(), node));
        lemma_node_known_grows(st.paths.len(), s0.paths.len(), node);
        if visited_slot(s0, node) is Some {
            let i = visited_slot(s0, node)->0;
            assert(slot_at(st, wildcard, nodes, k - 1) == Some(i));
            assert forall|j: int| 0 <= j < rest.len() implies #[trigger] slot_at(
                s1,
                wildcard,
                rest,
                j,
            ) != Some(i) by {
                lemma_walk_split(st, wildcard, nodes.take(k + j), k);
                assert(nodes.take(k + j).take(k) =~= nodes.take(k));
                assert(nodes.take(k + j).skip(k) =~= rest.take(j));
                assert(rest[j] == nodes[k + j]);
                assert(slot_at(st, wildcard, nodes, k + j) == slot_at(s1, wildcard, rest, j));
                assert(slot_at(st, wildcard, nodes, k - 1) != slot_at(st, wildcard, nodes, k + j));
            }
            assert forall|j: int| 0 <= j < rest.len() implies node_known(
                s1.paths.len(),
                #[trigger] rest[j],
            ) by {
                assert(rest[j] == nodes[j + k]);
                lemma_node_known_grows(st.paths.len(), s1.paths.len(), nodes[j + k]);
            }
            lemma_slot_stable(s1, wildcard, rest, i);
        }
        lemma_second_step(s0, t0, f, wildcard, node);
    }
}

/// The state after some of the nodes is sound, and the state after all of
/// them can come after it.
pub proof fn lemma_walk_future(st: Walk, wildcard: StringIdx, nodes: Seq<Tree>, k: int)
    requires
        good(st),
        nodes_known(st.paths.len(), nodes),
        walk_all(st, wildcard, nodes).paths.len() <= usize::MAX,
        0 <= k <= nodes.len(),
    ensures
        good(walk_all(st, wildcard, nodes.take(k))),
        good(walk_all(st, wildcard, nodes)),
        after(walk_all(st, wildcard, nodes.take(k)), walk_all(st, wildcard, nodes)),
        after(st, walk_all(st, wildcard, nodes.take(k))),
        st.paths.len() <= walk_all(st, wildcard, nodes.take(k)).paths.len(),
{
    let front = nodes.take(k);
    let rest = nodes.skip(k);
    let s = walk_all(st, wildcard, front);
    lemma_walk_split(st, wildcard, nodes, k);
    lemma_walk_all_paths(s, wildcard, rest);
    lemma_walk_all_paths(st, wildcard, front);
    assert forall|j: int| 0 <= j < front.len() implies node_known(
        st.paths.len(),
        #[trigger] front[j],
    ) by {
        assert(front[j] == nodes[j]);
    }
    lemma_walk_all(st, wildcard, front);
    assert forall|j: int| 0 <= j < rest.len() implies node_known(
        s.paths.len(),
        #[trigger] rest[j],
    ) by {
        assert(rest[j] == nodes[j + k]);
        lemma_node_known_grows(st.paths.len(), s.paths.len(), nodes[j + k]);
    }
    lemma_walk_all(s, wildcard, rest);
}

/// The paths after interning the path of a symbol are among those after
/// its node.
pub proof fn lemma_walk_node_paths_first(st: Walk, wildcard: StringIdx, node: Tree)
    requires
        good(st),
        node_known(st.paths.len(), node),
        walk_node(st, wildcard, node).paths.len() <= usize::MAX,
    ensures
        pool_at(st, node).no_duplicates(),
        node.value is String && node.t != NodeType::UsageDecl ==> pool_at(st, node).is_prefix_of(
            walk_node(st, wildcard, node).paths,
        ),
{
    match node.value {
        NodeValue::String(name) => {
            let segments = path_at(st.paths, st.module).push(name);
            let full = PathIdx(index_after(st.paths, segments) as usize);
            let paths1 = pool_after(st.paths, segments);
            lemma_intern_sound(st.paths, segments);
            if node.t != NodeType::UsageDecl && st.table.symbol_paths.contains(full) && position(
                st.table.symbol_paths,
                full,
            ) < st.table.symbols.len() {
                let i = position(st.table.symbol_paths, full);
                let decl = st.table.symbols[i].decl;
                lemma_known_grows(st.paths.len(), paths1.len(), decl);
                lemma_expand_tree(paths1, st.uses, Seq::empty(), decl);
            }
        },
        _ => {},
    }
}

/// The state in which the walk over a file starts: in the root module,
/// with no `use` clause.
pub open spec fn file_start(paths: Seq<Seq<StringIdx>>, table: TableView) -> Walk {
    Walk {
        module: PathIdx(index_after(paths, Seq::<StringIdx>::empty()) as usize),
        uses: Seq::empty(),
        paths: pool_after(paths, Seq::<StringIdx>::empty()),
        table,
    }
}

/// The state in which the walk over the `k`-th of `files` starts.
pub open spec fn start_of(
    paths: Seq<Seq<StringIdx>>,
    table: TableView,
    wildcard: StringIdx,
    files: Seq<Seq<Tree>>,
    k: int,
) -> Walk {
    file_start(
        walk_files(paths, table, wildcard, files.take(k)).0,
        walk_files(paths, table, wildcard, files.take(k)).1,
    )
}

/// Whether one of `nodes` visits the declaration at the place `slot` in a
/// walk that starts in `st`.
pub open spec fn visits(st: Walk, wildcard: StringIdx, nodes: Seq<Tree>, slot: int) -> bool {
    exists|j: int| 0 <= j < nodes.len() && #[trigger] slot_at(st, wildcard, nodes, j) == Some(slot)
}

/// Whether the walk over `files` is orderly: the walk over each file is,
/// and no two files visit the same declaration.
pub open spec fn files_orderly(
    paths: Seq<Seq<StringIdx>>,
    table: TableView,
    wildcard: StringIdx,
    files: Seq<Seq<Tree>>,
) -> bool {
    &&& forall|k: int|
        0 <= k < files.len() ==> orderly(
            #[trigger] start_of(paths, table, wildcard, files, k),
            wildcard,
            files[k],
        )
    &&& forall|a: int, b: int, slot: int|
        0 <= a < b < files.len() && #[trigger] visits(
            start_of(paths, table, wildcard, files, a),
            wildcard,
            files[a],
            slot,
        ) ==> !#[trigger] visits(start_of(paths, table, wildcard, files, b), wildcard, files[b], slot)
}

/// The top-level nodes of all files are known: see `node_known`.
pub open spec fn files_known(count: nat, files: Seq<Seq<Tree>>) -> bool {
    forall|k: int| 0 <= k < files.len() ==> nodes_known(count, #[trigger] files[k])
}

/// Whether the paths `later` and the table `other` can come after the paths
/// `paths` and the table `table`.
pub open spec fn follows(
    paths: Seq<Seq<StringIdx>>,
    table: TableView,
    later: Seq<Seq<StringIdx>>,
    other: TableView,
) -> bool {
    &&& paths.is_prefix_of(later)
    &&& other.modules == table.modules
    &&& other.symbol_paths == table.symbol_paths
    &&& other.exports == table.exports
    &&& other.symbols.len() == table.symbols.len()
}

/// The walk over a file keeps what is sound sound, only adds paths, and
/// changes only the declarations that it visits.
pub proof fn lemma_walk_file(
    paths: Seq<Seq<StringIdx>>,
    table: TableView,
    wildcard: StringIdx,
    nodes: Seq<Tree>,
)
    requires
        paths.no_duplicates(),
        table_known(paths.len(), table),
        nodes_known(paths.len(), nodes),
        walk_file(paths, table, wildcard, nodes).paths.len() <= usize::MAX,
    ensures
        good(file_start(paths, table)),
        nodes_known(file_start(paths, table).paths.len(), nodes),
        walk_file(paths, table, wildcard, nodes) == walk_all(
            file_start(paths, table),
            wildcard,
            nodes,
        ),
        walk_file(paths, table, wildcard, nodes).paths.no_duplicates(),
        table_known(
            walk_file(paths, table, wildcard, nodes).paths.len(),
            walk_file(paths, table, wildcard, nodes).table,
        ),
        follows(
            paths,
            table,
            walk_file(paths, table, wildcard, nodes).paths,
            walk_file(paths, table, wildcard, nodes).table,
        ),
        forall|slot: int|
            0 <= slot < table.symbols.len() && !visits(
                file_start(paths, table),
                wildcard,
                nodes,
                slot,
            ) ==> walk_file(paths, table, wildcard, nodes).table.symbols[slot]
                == #[trigger] table.symbols[slot],
{
    let none = Seq::<StringIdx>::empty();
    lemma_intern_sound(paths, none);
    let start = file_start(paths, table);
    lemma_walk_all_paths(start, wildcard, nodes);
    assert forall|j: int| 0 <= j < table.symbols.len() implies known(
        start.paths.len(),
        (#[trigger] table.symbols[j]).decl,
    ) by {
        lemma_known_grows(paths.len(), start.paths.len(), table.symbols[j].decl);
    }
    assert forall|j: int| 0 <= j < nodes.len() implies node_known(
        start.paths.len(),
        #[trigger] nodes[j],
    ) by {
        lemma_node_known_grows(paths.len(), start.paths.len(), nodes[j]);
    }
    lemma_walk_all(start, wildcard, nodes);
    lemma_prefix_trans(paths, start.paths, walk_all(start, wildcard, nodes).paths);
    assert forall|slot: int|
        0 <= slot < table.symbols.len() && !visits(start, wildcard, nodes, slot) implies walk_file(
        paths,
        table,
        wildcard,
        nodes,
    ).table.symbols[slot] == #[trigger] table.symbols[slot] by {
        lemma_slot_stable(start, wildcard, nodes, slot);
    }
}

/// The walk over a file takes no paths away.
pub proof fn lemma_walk_file_paths(
    paths: Seq<Seq<StringIdx>>,
    table: TableView,
    wildcard: StringIdx,
    nodes: Seq<Tree>,
)
    ensures
        paths.len() <= walk_file(paths, table, wildcard, nodes).paths.len(),
{
    lemma_walk_all_paths(file_start(paths, table), wildcard, nodes);
}

/// The walk over files takes no paths away.
pub proof fn lemma_walk_files_paths(
    paths: Seq<Seq<StringIdx>>,
    table: TableView,
    wildcard: StringIdx,
    files: Seq<Seq<Tree>>,
)
    ensures
        paths.len() <= walk_files(paths, table, wildcard, files).0.len(),
    decreases files.len(),
{
    if files.len() > 0 {
        let (p, t) = walk_files(paths, table, wildcard, files.drop_last());
        lemma_walk_files_paths(paths, table, wildcard, files.drop_last());
        lemma_walk_file_paths(p, t, wildcard, files.last());
    }
}

/// Walking over files is walking over some of them first and over the
/// others then.
pub proof fn lemma_walk_files_split(
    paths: Seq<Seq<StringIdx>>,
    table: TableView,
    wildcard: StringIdx,
    files: Seq<Seq<Tree>>,
    k: int,
)
    requires
        0 <= k <= files.len(),
    ensures
        walk_files(paths, table, wildcard, files) == walk_files(
            walk_files(paths, table, wildcard, files.take(k)).0,
            walk_files(paths, table, wildcard, files.take(k)).1,
            wildcard,
            files.skip(k),
        ),
    decreases files.len(),
{
    if k == files.len() {
        assert(files.take(k) =~= files);
        assert(files.skip(k) =~= Seq::<Seq<Tree>>::empty());
    } else {
        lemma_walk_files_split(paths, table, wildcard, files.drop_last(), k);
        assert(files.drop_last().take(k) =~= files.take(k));
        assert(files.drop_last().skip(k) =~= files.skip(k).drop_last());
        assert(files.skip(k).last() == files.last());
    }
}

/// The walk over files keeps what is sound sound, only adds paths, and
/// changes only the declarations that it visits.
pub proof fn lemma_walk_files(
    paths: Seq<Seq<StringIdx>>,
    table: TableView,
    wildcard: StringIdx,
    files: Seq<Seq<Tree>>,
)
    requires
        paths.no_duplicates(),
        table_known(paths.len(), table),
        files_known(paths.len(), files),
        walk_files(paths, table, wildcard, files).0.len() <= usize::MAX,
    ensures
        walk_files(paths, table, wildcard, files).0.no_duplicates(),
        table_known(
            walk_files(paths, table, wildcard, files).0.len(),
            walk_files(paths, table, wildcard, files).1,
        ),
        follows(
            paths,
            table,
            walk_files(paths, table, wildcard, files).0,
            walk_files(paths, table, wildcard, files).1,
        ),
        forall|slot: int|
            0 <= slot < table.symbols.len() && (forall|k: int|
                0 <= k < files.len() ==> !visits(
                    #[trigger] start_of(paths, table, wildcard, files, k),
                    wildcard,
                    files[k],
                    slot,
                )) ==> walk_files(paths, table, wildcard, files).1.symbols[slot]
                == #[trigger] table.symbols[slot],
    decreases files.len(),
{
    if files.len() > 0 {
        let front = files.drop_last();
        let (p, t) = walk_files(paths, table, wildcard, front);
        lemma_walk_files_paths(paths, table, wildcard, front);
        lemma_walk_file_paths(p, t, wildcard, files.last());
        assert forall|k: int| 0 <= k < front.len() implies nodes_known(
            paths.len(),
            #[trigger] front[k],
        ) by {
            assert(front[k] == files[k]);
        }
        lemma_walk_files(paths, table, wildcard, front);
        assert(nodes_known(paths.len(), files.last()));
        assert forall|j: int| 0 <= j < files.last().len() implies node_known(
            p.len(),
            #[trigger] files.last()[j],
        ) by {
            lemma_node_known_grows(paths.len(), p.len(), files.last()[j]);
        }
        lemma_walk_file(p, t, wildcard, files.last());
        let end = walk_file(p, t, wildcard, files.last());
        lemma_prefix_trans(paths, p, end.paths);
        assert(files.take(files.len() - 1) =~= front);
        assert forall|slot: int|
            0 <= slot < table.symbols.len() && (forall|k: int|
                0 <= k < files.len() ==> !visits(
                    #[trigger] start_of(paths, table, wildcard, files, k),
                    wildcard,
                    files[k],
                    slot,
                )) implies walk_files(paths, table, wildcard, files).1.symbols[slot]
            == #[trigger] table.symbols[slot] by {
            assert forall|k: int| 0 <= k < front.len() implies !visits(
                #[trigger] start_of(paths, table, wildcard, front, k),
                wildcard,
                front[k],
                slot,
            ) by {
                assert(front.take(k) =~= files.take(k));
                assert(front[k] == files[k]);
                assert(start_of(paths, table, wildcard, front, k) == start_of(
                    paths,
                    table,
                    wildcard,
                    files,
                    k,
                ));
            }
            assert(start_of(paths, table, wildcard, files, files.len() - 1) == file_start(p, t));
            assert(!visits(
                start_of(paths, table, wildcard, files, files.len() - 1),
                wildcard,
                files[files.len() - 1],
                slot,
            ));
        }
    }
}

/// Idempotence: expanding the paths of the files of a program once more
/// changes neither the symbol table nor the paths.
///
/// This holds of an orderly walk: one that visits no declaration twice,
/// and each with `use` clauses that are settled, so that every alias stands
/// for a path whose first segment is no alias itself.
pub proof fn lemma_walk_files_again(
    paths: Seq<Seq<StringIdx>>,
    table: TableView,
    wildcard: StringIdx,
    files: Seq<Seq<Tree>>,
)
    requires
        paths.no_duplicates(),
        table_known(paths.len(), table),
        files_known(paths.len(), files),
        files_orderly(paths, table, wildcard, files),
        walk_files(paths, table, wildcard, files).0.len() <= usize::MAX,
    ensures
        ({
            let first = walk_files(paths, table, wildcard, files);
            walk_files(first.0, first.1, wildcard, files) == first
        }),
{
    lemma_files_again(paths, table, wildcard, files, files.len() as int);
    assert(files.take(files.len() as int) =~= files);
}

/// The walk over the file before the place `k`, seen from the end of the
/// walk over all files: it started in a sound state, what it added is
/// there at the end, and the declarations that it visited are at the end
/// as it left them.
pub proof fn lemma_file_in_files(
    paths: Seq<Seq<StringIdx>>,
    table: TableView,
    wildcard: StringIdx,
    files: Seq<Seq<Tree>>,
    k: int,
)
    requires
        paths.no_duplicates(),
        table_known(paths.len(), table),
        files_known(paths.len(), files),
        files_orderly(paths, table, wildcard, files),
        walk_files(paths, table, wildcard, files).0.len() <= usize::MAX,
        1 <= k <= files.len(),
    ensures
        ({
            let first = walk_files(paths, table, wildcard, files);
            let start = start_of(paths, table, wildcard, files, k - 1);
            let end = walk_all(start, wildcard, files[k - 1]);
            &&& good(start)
            &&& walk_files(paths, table, wildcard, files.take(k - 1)).0.no_duplicates()
            &&& start.paths.is_prefix_of(end.paths)
            &&& nodes_known(start.paths.len(), files[k - 1])
            &&& orderly(start, wildcard, files[k - 1])
            &&& walk_files(paths, table, wildcard, files.take(k)) == (end.paths, end.table)
            &&& follows(end.paths, end.table, first.0, first.1)
            &&& first.0.no_duplicates()
            &&& forall|j: int|
                0 <= j < files[k - 1].len() ==> ((#[trigger] slot_at(
                    start,
                    wildcard,
                    files[k - 1],
                    j,
                )) matches Some(i) ==> first.1.symbols[i] == end.table.symbols[i])
        }),
{
    let first = walk_files(paths, table, wildcard, files);
    let nodes = files[k - 1];
    assert(files.take(k).drop_last() =~= files.take(k - 1));
    assert(files.take(k).last() == nodes);
    let (p0, t0) = walk_files(paths, table, wildcard, files.take(k - 1));
    let start = file_start(p0, t0);
    let end = walk_file(p0, t0, wildcard, nodes);
    lemma_walk_files_split(paths, table, wildcard, files, k);
    let rest = files.skip(k);
    lemma_walk_files_paths(end.paths, end.table, wildcard, rest);
    lemma_walk_file_paths(p0, t0, wildcard, nodes);
    lemma_walk_files_paths(paths, table, wildcard, files.take(k - 1));
    assert forall|j: int| 0 <= j < files.take(k - 1).len() implies nodes_known(
        paths.len(),
        #[trigger] files.take(k - 1)[j],
    ) by {
        assert(files.take(k - 1)[j] == files[j]);
    }
    lemma_walk_files(paths, table, wildcard, files.take(k - 1));
    assert(nodes_known(paths.len(), nodes));
    assert forall|j: int| 0 <= j < nodes.len() implies node_known(p0.len(), #[trigger] nodes[j]) by {
        lemma_node_known_grows(paths.len(), p0.len(), nodes[j]);
    }
    lemma_walk_file(p0, t0, wildcard, nodes);
    lemma_walk_all(start, wildcard, nodes);
    assert forall|j: int| 0 <= j < rest.len() implies nodes_known(
        end.paths.len(),
        #[trigger] rest[j],
    ) by {
        assert(rest[j] == files[j + k]);
        assert(nodes_known(paths.len(), files[j + k]));
        assert forall|i: int| 0 <= i < rest[j].len() implies node_known(
            end.paths.len(),
            #[trigger] rest[j][i],
        ) by {
            lemma_node_known_grows(paths.len(), end.paths.len(), rest[j][i]);
        }
    }
    lemma_walk_files(end.paths, end.table, wildcard, rest);
    assert forall|j: int|
        0 <= j < nodes.len() implies ((#[trigger] slot_at(start, wildcard, nodes, j)) matches Some(
        i,
    ) ==> first.1.symbols[i] == end.table.symbols[i]) by {
        if slot_at(start, wildcard, nodes, j) is Some {
            let i = slot_at(start, wildcard, nodes, j)->0;
            lemma_walk_future(start, wildcard, nodes, j);
            assert(0 <= i < end.table.symbols.len());
            assert(visits(start, wildcard, nodes, i));
            lemma_later_files(paths, table, wildcard, files, k, i);
        }
    }
}

/// A declaration that the file before the place `k` visits is visited by
/// no file from the place `k` on.
pub proof fn lemma_later_files(
    paths: Seq<Seq<StringIdx>>,
    table: TableView,
    wildcard: StringIdx,
    files: Seq<Seq<Tree>>,
    k: int,
    slot: int,
)
    requires
        files_orderly(paths, table, wildcard, files),
        1 <= k <= files.len(),
        visits(start_of(paths, table, wildcard, files, k - 1), wildcard, files[k - 1], slot),
    ensures
        ({
            let (p, t) = walk_files(paths, table, wildcard, files.take(k));
            forall|b: int|
                0 <= b < files.skip(k).len() ==> !visits(
                    #[trigger] start_of(p, t, wildcard, files.skip(k), b),
                    wildcard,
                    files.skip(k)[b],
                    slot,
                )
        }),
{
    let (p, t) = walk_files(paths, table, wildcard, files.take(k));
    let rest = files.skip(k);
    assert forall|b: int| 0 <= b < rest.len() implies !visits(
        #[trigger] start_of(p, t, wildcard, rest, b),
        wildcard,
        rest[b],
        slot,
    ) by {
        lemma_walk_files_split(paths, table, wildcard, files.take(k + b), k);
        assert(files.take(k + b).take(k) =~= files.take(k));
        assert(files.take(k + b).skip(k) =~= rest.take(b));
        assert(rest[b] == files[k + b]);
        assert(start_of(p, t, wildcard, rest, b) == start_of(paths, table, wildcard, files, k + b));
        assert(!visits(
            start_of(paths, table, wildcard, files, k + b),
            wildcard,
            files[k + b],
            slot,
        ));
    }
}

/// Expanding the paths of some of the files once more, after all files
/// were walked over, changes nothing.
pub proof fn lemma_files_again(
    paths: Seq<Seq<StringIdx>>,
    table: TableView,
    wildcard: StringIdx,
    files: Seq<Seq<Tree>>,
    k: int,
)
    requires
        paths.no_duplicates(),
        table_known(paths.len(), table),
        files_known(paths.len(), files),
        files_orderly(paths, table, wildcard, files),
        walk_files(paths, table, wildcard, files).0.len() <= usize::MAX,
        0 <= k <= files.len(),
    ensures
        ({
            let first = walk_files(paths, table, wildcard, files);
            walk_files(first.0, first.1, wildcard, files.take(k)) == first
        }),
    decreases k,
{
    let first = walk_files(paths, table, wildcard, files);
    if k == 0 {
        assert(files.take(0) =~= Seq::<Seq<Tree>>::empty());
    } else {
        lemma_files_again(paths, table, wildcard, files, k - 1);
        lemma_file_in_files(paths, table, wildcard, files, k);
        let nodes = files[k - 1];
        assert(files.take(k).drop_last() =~= files.take(k - 1));
        assert(files.take(k).last() == nodes);
        let start = start_of(paths, table, wildcard, files, k - 1);
        let end = walk_all(start, wildcard, nodes);
        let f = Walk { module: start.module, uses: start.uses, paths: first.0, table: first.1 };
        let again = file_start(first.0, first.1);
        lemma_root_again(
            walk_files(paths, table, wildcard, files.take(k - 1)).0,
            end.paths,
            first.0,
        );
        assert(second_walk(start, again, f));
        assert(after(end, f));
        lemma_second_walk(start, again, f, wildcard, nodes, nodes.len() as int);
        assert(nodes.take(nodes.len() as int) =~= nodes);
        assert(walk_file(first.0, first.1, wildcard, nodes) == walk_all(again, wildcard, nodes));
    }
}

/// The root module has the same place among later paths.
pub proof fn lemma_root_again(
    paths: Seq<Seq<StringIdx>>,
    end: Seq<Seq<StringIdx>>,
    later: Seq<Seq<StringIdx>>,
)
    requires
        paths.no_duplicates(),
        pool_after(paths, Seq::<StringIdx>::empty()).is_prefix_of(end),
        end.is_prefix_of(later),
        later.no_duplicates(),
    ensures
        index_after(later, Seq::<StringIdx>::empty()) == index_after(
            paths,
            Seq::<StringIdx>::empty(),
        ),
        pool_after(later, Seq::<StringIdx>::empty()) == later,
{
    let none = Seq::<StringIdx>::empty();
    lemma_intern_sound(paths, none);
    let at = index_after(paths, none);
    lemma_prefix_trans(pool_after(paths, none), end, later);
    assert(later[at] == pool_after(paths, none)[at]);
    lemma_position_unique(later, none, at);
}

} // verus!
