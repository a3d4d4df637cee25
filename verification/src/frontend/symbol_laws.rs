//! Laws of collecting symbols: collecting the nodes of a file once more
//! changes neither the symbol table nor the paths.

use vstd::prelude::*;
use crate::error::ErrorView;
use crate::frontend::ast::{NodeType, NodeValue, Tree};
use crate::frontend::path_laws::lemma_prefix_trans;
use crate::frontend::symbols::{
    Collecting, TableView, declare, declare_all, declare_file, export_names, exported, has_marker,
};
use crate::interning::{index_after, pool_after, position, lemma_intern_sound, lemma_position_unique};
use crate::paths::{PathIdx, path_at};
use crate::strings::StringIdx;

verus! {

/// The path that the exported name `name` stands for.
pub open spec fn value_of(exports: Seq<(StringIdx, PathIdx)>, name: StringIdx) -> PathIdx {
    exports[position(export_names(exports), name)].1
}

/// The name that the top-level node `node` exports, if it exports one.
pub open spec fn exported_name(node: Tree) -> Option<StringIdx> {
    match node.value {
        NodeValue::Path(p) if node.t == NodeType::ModuleDecl => None,
        NodeValue::String(name) if node.t != NodeType::UsageDecl => {
            if has_marker(node.children, NodeType::IsExported) {
                Some(name)
            } else {
                None
            }
        },
        _ => None,
    }
}

/// Whether one of `nodes` exports the name `name`.
pub open spec fn written(nodes: Seq<Tree>, name: StringIdx) -> bool {
    exists|j: int| 0 <= j < nodes.len() && exported_name(#[trigger] nodes[j]) == Some(name)
}

/// The module that the node `node` declares is among the first `count`
/// paths.
pub open spec fn module_known(count: nat, node: Tree) -> bool {
    node.value matches NodeValue::Path(p) ==> p.0 < count
}

/// The modules that `nodes` declare are among the first `count` paths.
pub open spec fn modules_known(count: nat, nodes: Seq<Tree>) -> bool {
    forall|j: int| 0 <= j < nodes.len() ==> module_known(count, #[trigger] nodes[j])
}

/// The state is sound: its paths and its table list nothing twice, and its
/// module is one of its paths.
pub open spec fn sound(st: Collecting) -> bool {
    &&& st.paths.no_duplicates()
    &&& st.table.wf()
    &&& st.module.0 < st.paths.len()
}

/// Whether all that the state `s` holds is held by the state `f` too, at the
/// same places.
pub open spec fn within(s: Collecting, f: Collecting) -> bool {
    &&& s.paths.is_prefix_of(f.paths)
    &&& forall|p: PathIdx| s.table.modules.contains(p) ==> f.table.modules.contains(p)
    &&& forall|p: PathIdx| s.table.symbol_paths.contains(p) ==> f.table.symbol_paths.contains(p)
    &&& export_names(s.table.exports).is_prefix_of(export_names(f.table.exports))
}

/// What is held within what is held is held.
pub proof fn lemma_within_trans(a: Collecting, b: Collecting, c: Collecting)
    requires
        within(a, b),
        within(b, c),
    ensures
        within(a, c),
{
    lemma_prefix_trans(a.paths, b.paths, c.paths);
    lemma_prefix_trans(
        export_names(a.table.exports),
        export_names(b.table.exports),
        export_names(c.table.exports),
    );
}

/// What exporting a name does to the exports.
pub proof fn lemma_exported(exports: Seq<(StringIdx, PathIdx)>, name: StringIdx, path: PathIdx)
    requires
        export_names(exports).no_duplicates(),
    ensures
        export_names(exported(exports, name, path)) == pool_after(export_names(exports), name),
        export_names(exported(exports, name, path)).no_duplicates(),
        export_names(exports).is_prefix_of(export_names(exported(exports, name, path))),
        export_names(exported(exports, name, path)).contains(name),
        value_of(exported(exports, name, path), name) == path,
        forall|other: StringIdx|
            other != name && export_names(exports).contains(other) ==> #[trigger] value_of(
                exported(exports, name, path),
                other,
            ) == value_of(exports, other),
{
    let names = export_names(exports);
    let after = exported(exports, name, path);
    lemma_intern_sound(names, name);
    if names.contains(name) {
        let i = position(names, name);
        assert(export_names(after) =~= names);
    } else {
        assert(export_names(after) =~= names.push(name));
    }
    let names2 = export_names(after);
    assert(names2[index_after(names, name)] == name);
    lemma_position_unique(names2, name, index_after(names, name));
    assert forall|other: StringIdx|
        other != name && names.contains(other) implies #[trigger] value_of(after, other)
        == value_of(exports, other) by {
        let j = position(names, other);
        assert(names2[j] == other);
        lemma_position_unique(names2, other, j);
    }
}

/// One node keeps a sound state sound and takes nothing away.
pub proof fn lemma_declare(st: Collecting, strings: Seq<Seq<char>>, node: Tree)
    requires
        sound(st),
        module_known(st.paths.len(), node),
        declare(st, strings, node).paths.len() <= usize::MAX,
    ensures
        sound(declare(st, strings, node)),
        within(st, declare(st, strings, node)),
{
    let after = declare(st, strings, node);
    match node.value {
        NodeValue::Path(p) if node.t == NodeType::ModuleDecl => {
            if !st.table.modules.contains(p) {
                let before = st.table.modules;
                let now = before.push(p);
                assert forall|a: int, b: int|
                    0 <= a < now.len() && 0 <= b < now.len() && a != b implies now[a]
                    != now[b] by {
                    if a == before.len() {
                        assert(before[b] == now[b]);
                    } else if b == before.len() {
                        assert(before[a] == now[a]);
                    }
                }
                assert forall|q: PathIdx| before.contains(q) implies now.contains(q) by {
                    let i = choose|i: int| 0 <= i < before.len() && before[i] == q;
                    assert(now[i] == q);
                }
            }
        },
        NodeValue::String(name) if node.t != NodeType::UsageDecl => {
            let segments = path_at(st.paths, st.module).push(name);
            let full = PathIdx(index_after(st.paths, segments) as usize);
            lemma_intern_sound(st.paths, segments);
            lemma_exported(st.table.exports, name, full);
            if !st.table.symbol_paths.contains(full) {
                let before = st.table.symbol_paths;
                let now = before.push(full);
                assert forall|a: int, b: int|
                    0 <= a < now.len() && 0 <= b < now.len() && a != b implies now[a]
                    != now[b] by {
                    if a == before.len() {
                        assert(before[b] == now[b]);
                    } else if b == before.len() {
                        assert(before[a] == now[a]);
                    }
                }
                assert forall|q: PathIdx| before.contains(q) implies now.contains(q) by {
                    let i = choose|i: int| 0 <= i < before.len() && before[i] == q;
                    assert(now[i] == q);
                }
            }
        },
        _ => {},
    }
}

/// The paths never shrink.
pub proof fn lemma_declare_paths(st: Collecting, strings: Seq<Seq<char>>, node: Tree)
    ensures
        st.paths.len() <= declare(st, strings, node).paths.len(),
{
}

/// The paths never shrink, for a list of nodes.
pub proof fn lemma_declare_all_paths(st: Collecting, strings: Seq<Seq<char>>, nodes: Seq<Tree>)
    ensures
        st.paths.len() <= declare_all(st, strings, nodes).paths.len(),
    decreases nodes.len(),
{
    if nodes.len() > 0 {
        lemma_declare_all_paths(st, strings, nodes.drop_last());
        lemma_declare_paths(declare_all(st, strings, nodes.drop_last()), strings, nodes.last());
    }
}

/// Nodes keep a sound state sound and take nothing away.
pub proof fn lemma_declare_all(st: Collecting, strings: Seq<Seq<char>>, nodes: Seq<Tree>)
    requires
        sound(st),
        modules_known(st.paths.len(), nodes),
        declare_all(st, strings, nodes).paths.len() <= usize::MAX,
    ensures
        sound(declare_all(st, strings, nodes)),
        within(st, declare_all(st, strings, nodes)),
    decreases nodes.len(),
{
    if nodes.len() > 0 {
        let before = declare_all(st, strings, nodes.drop_last());
        lemma_declare_paths(before, strings, nodes.last());
        lemma_declare_all_paths(st, strings, nodes.drop_last());
        assert forall|j: int| 0 <= j < nodes.drop_last().len() implies module_known(
            st.paths.len(),
            #[trigger] nodes.drop_last()[j],
        ) by {
            assert(nodes.drop_last()[j] == nodes[j]);
        }
        lemma_declare_all(st, strings, nodes.drop_last());
        assert(module_known(st.paths.len(), nodes.last()));
        lemma_declare(before, strings, nodes.last());
        lemma_within_trans(st, before, declare_all(st, strings, nodes));
    }
}

/// How a second pass over nodes relates to the first one: where `s` is the
/// state of the first pass after `nodes` and `t` that of the second pass,
/// which started from the end `f` of the first pass, `t` holds what `f`
/// holds, stands in the module in which `s` stands, and exports each name
/// as `s` does if one of `nodes` exports it, else as `f` does.
pub open spec fn second_pass(s: Collecting, t: Collecting, f: Collecting, nodes: Seq<Tree>) -> bool {
    &&& t.module == s.module
    &&& t.paths == f.paths
    &&& t.table.modules == f.table.modules
    &&& t.table.symbol_paths == f.table.symbol_paths
    &&& t.table.symbols == f.table.symbols
    &&& export_names(t.table.exports) == export_names(f.table.exports)
    &&& forall|name: StringIdx|
        export_names(f.table.exports).contains(name) ==> #[trigger] value_of(
            t.table.exports,
            name,
        ) == if written(nodes, name) {
            value_of(s.table.exports, name)
        } else {
            value_of(f.table.exports, name)
        }
}

/// A name is exported by some of the nodes if it is exported by the last
/// of them or by one before it.
pub proof fn lemma_written_push(nodes: Seq<Tree>, name: StringIdx)
    requires
        nodes.len() > 0,
    ensures
        written(nodes, name) <==> written(nodes.drop_last(), name) || exported_name(nodes.last())
            == Some(name),
{
    let before = nodes.drop_last();
    if written(nodes, name) {
        let j = choose|j: int| 0 <= j < nodes.len() && exported_name(#[trigger] nodes[j]) == Some(name);
        if j < before.len() {
            assert(before[j] == nodes[j]);
        }
    }
    if written(before, name) {
        let j = choose|j: int|
            0 <= j < before.len() && exported_name(#[trigger] before[j]) == Some(name);
        assert(nodes[j] == before[j]);
    }
    if exported_name(nodes.last()) == Some(name) {
        assert(nodes[nodes.len() - 1] == nodes.last());
    }
}

/// The second pass keeps to the first: see `second_pass`.
pub proof fn lemma_second_pass(
    st: Collecting,
    again: Collecting,
    f: Collecting,
    strings: Seq<Seq<char>>,
    nodes: Seq<Tree>,
)
    requires
        sound(st),
        sound(f),
        f.paths.len() <= usize::MAX,
        modules_known(st.paths.len(), nodes),
        within(declare_all(st, strings, nodes), f),
        second_pass(st, again, f, Seq::empty()),
    ensures
        second_pass(
            declare_all(st, strings, nodes),
            declare_all(again, strings, nodes),
            f,
            nodes,
        ),
    decreases nodes.len(),
{
    if nodes.len() > 0 {
        let before = nodes.drop_last();
        let node = nodes.last();
        let s0 = declare_all(st, strings, before);
        let t0 = declare_all(again, strings, before);
        let s1 = declare(s0, strings, node);
        let t1 = declare(t0, strings, node);
        assert forall|j: int| 0 <= j < before.len() implies module_known(
            st.paths.len(),
            #[trigger] before[j],
        ) by {
            assert(before[j] == nodes[j]);
        }
        lemma_declare_all_paths(st, strings, before);
        lemma_declare_paths(s0, strings, node);
        assert(s1.paths.is_prefix_of(f.paths));
        lemma_declare_all(st, strings, before);
        assert(module_known(st.paths.len(), node));
        lemma_declare(s0, strings, node);
        lemma_within_trans(s0, s1, f);
        lemma_second_pass(st, again, f, strings, before);
        assert forall|name: StringIdx| #![auto] true implies (written(nodes, name) <==> written(
            before,
            name,
        ) || exported_name(node) == Some(name)) by {
            lemma_written_push(nodes, name);
        }
        match node.value {
            NodeValue::Path(p) if node.t == NodeType::ModuleDecl => {
                if !s0.table.modules.contains(p) {
                    assert(s1.table.modules[s0.table.modules.len() as int] == p);
                }
                assert(s1.table.modules.contains(p));
                assert(second_pass(s1, t1, f, nodes));
            },
            NodeValue::String(name) if node.t != NodeType::UsageDecl => {
                let segments = path_at(s0.paths, s0.module).push(name);
                let full = PathIdx(index_after(s0.paths, segments) as usize);
                lemma_intern_sound(s0.paths, segments);
                let at = index_after(s0.paths, segments);
                assert(path_at(t0.paths, t0.module) == path_at(s0.paths, s0.module));
                assert(f.paths[at] == s1.paths[at]);
                lemma_position_unique(f.paths, segments, at);
                if !s0.table.symbol_paths.contains(full) {
                    assert(s1.table.symbol_paths[s0.table.symbol_paths.len() as int] == full);
                }
                assert(s1.table.symbol_paths.contains(full));
                lemma_exported(s0.table.exports, name, full);
                lemma_exported(t0.table.exports, name, full);
                if has_marker(node.children, NodeType::IsExported) {
                    let names1 = export_names(s1.table.exports);
                    let hit = choose|i: int| 0 <= i < names1.len() && names1[i] == name;
                    assert(export_names(f.table.exports)[hit] == name);
                    assert(export_names(t0.table.exports).contains(name));
                    assert forall|other: StringIdx|
                        export_names(f.table.exports).contains(other) implies #[trigger] value_of(
                        t1.table.exports,
                        other,
                    ) == if written(nodes, other) {
                        value_of(s1.table.exports, other)
                    } else {
                        value_of(f.table.exports, other)
                    } by {
                        if other != name {
                            if written(before, other) {
                                lemma_written_held(st, strings, before, other);
                            }
                        }
                    }
                }
                assert(second_pass(s1, t1, f, nodes));
            },
            _ => {
                assert(second_pass(s1, t1, f, nodes));
            },
        }
    }
}

/// A name that one of the nodes exports is exported after them.
pub proof fn lemma_written_held(
    st: Collecting,
    strings: Seq<Seq<char>>,
    nodes: Seq<Tree>,
    name: StringIdx,
)
    requires
        sound(st),
        modules_known(st.paths.len(), nodes),
        declare_all(st, strings, nodes).paths.len() <= usize::MAX,
        written(nodes, name),
    ensures
        export_names(declare_all(st, strings, nodes).table.exports).contains(name),
    decreases nodes.len(),
{
    if nodes.len() > 0 {
        let before = nodes.drop_last();
        let node = nodes.last();
        let s0 = declare_all(st, strings, before);
        lemma_written_push(nodes, name);
        assert forall|j: int| 0 <= j < before.len() implies module_known(
            st.paths.len(),
            #[trigger] before[j],
        ) by {
            assert(before[j] == nodes[j]);
        }
        lemma_declare_all_paths(st, strings, before);
        lemma_declare_paths(s0, strings, node);
        lemma_declare_all(st, strings, before);
        assert(module_known(st.paths.len(), node));
        lemma_declare(s0, strings, node);
        if written(before, name) {
            lemma_written_held(st, strings, before, name);
            let names0 = export_names(s0.table.exports);
            let hit = choose|i: int| 0 <= i < names0.len() && names0[i] == name;
            assert(export_names(declare(s0, strings, node).table.exports)[hit] == name);
        } else {
            match node.value {
                NodeValue::String(n) if node.t != NodeType::UsageDecl => {
                    let segments = path_at(s0.paths, s0.module).push(n);
                    let full = PathIdx(index_after(s0.paths, segments) as usize);
                    lemma_exported(s0.table.exports, n, full);
                },
                _ => {},
            }
        }
    }
}

/// Collecting the top-level nodes of a file a second time changes neither
/// the symbol table nor the paths; only diagnostics are added.
pub proof fn lemma_declare_file_again(
    table: TableView,
    strings: Seq<Seq<char>>,
    paths: Seq<Seq<StringIdx>>,
    errors: Seq<ErrorView>,
    nodes: Seq<Tree>,
)
    requires
        table.wf(),
        paths.no_duplicates(),
        modules_known(paths.len(), nodes),
        declare_file(table, strings, paths, errors, nodes).paths.len() <= usize::MAX,
    ensures
        ({
            let first = declare_file(table, strings, paths, errors, nodes);
            let second = declare_file(first.table, strings, first.paths, first.errors, nodes);
            &&& second.table == first.table
            &&& second.paths == first.paths
        }),
{
    let none = Seq::<StringIdx>::empty();
    lemma_intern_sound(paths, none);
    let st = Collecting {
        table,
        module: PathIdx(index_after(paths, none) as usize),
        paths: pool_after(paths, none),
        errors,
    };
    let first = declare_all(st, strings, nodes);
    lemma_declare_all_paths(st, strings, nodes);
    assert(modules_known(st.paths.len(), nodes)) by {
        assert forall|j: int| 0 <= j < nodes.len() implies module_known(
            st.paths.len(),
            #[trigger] nodes[j],
        ) by {
            assert(module_known(paths.len(), nodes[j]));
        }
    }
    lemma_declare_all(st, strings, nodes);
    let at = index_after(paths, none);
    assert(first.paths[at] == st.paths[at]);
    lemma_position_unique(first.paths, none, at);
    let again = Collecting {
        table: first.table,
        module: PathIdx(index_after(first.paths, none) as usize),
        paths: pool_after(first.paths, none),
        errors: first.errors,
    };
    assert(second_pass(st, again, first, Seq::empty()));
    assert(within(first, first));
    lemma_second_pass(st, again, first, strings, nodes);
    let second = declare_all(again, strings, nodes);
    let e1 = first.table.exports;
    let e2 = second.table.exports;
    assert(e1.len() == export_names(e1).len());
    assert(e2.len() == export_names(e2).len());
    assert forall|i: int| 0 <= i < e1.len() implies e2[i] == e1[i] by {
        let name = export_names(e1)[i];
        assert(export_names(e2)[i] == name);
        lemma_position_unique(export_names(e1), name, i);
        lemma_position_unique(export_names(e2), name, i);
        assert(e1[i].0 == name);
        assert(e2[i].0 == name);
        assert(value_of(e2, name) == e2[i].1);
        assert(value_of(e1, name) == e1[i].1);
    }
    assert(e2 =~= e1);
}

} // verus!
