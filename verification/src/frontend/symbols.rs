//! The symbol table: the modules, the declared symbols and the exported
//! names of a program, collected file by file.

use vstd::prelude::*;
use vstd::string::*;
use crate::error::{Error, ErrorView};
use crate::frontend::ast::{AstNode, NodeType, NodeValue, Tree, lemma_tree_children, trees_of};
use crate::frontend::ast::{same_shapes, shapes_eq};
use crate::interning::{index_after, pool_after, position, lemma_position_unique};
use crate::paths::{PathIdx, path_at, path_text};
use crate::strings::{StringIdx, text_at};
use crate::Compiler;

verus! {

/// A declared symbol: its declaration, whether it is public, its template
/// parameters, and the instances made of it for given template arguments.
#[derive(Debug, Clone)]
pub struct Symbol {
    pub is_public: bool,
    pub decl_node: AstNode,
    pub template_args: Vec<StringIdx>,
    pub monomorphized_nodes: Vec<(Vec<AstNode>, AstNode)>,
}

/// A symbol as a plain value.
pub struct SymbolView {
    pub is_public: bool,
    pub decl: Tree,
    pub template_args: Seq<StringIdx>,
    pub monomorphized: Seq<(Seq<Tree>, Tree)>,
}

impl View for Symbol {
    type V = SymbolView;

    open spec fn view(&self) -> SymbolView {
        SymbolView {
            is_public: self.is_public,
            decl: self.decl_node@,
            template_args: self.template_args@,
            monomorphized: Seq::new(
                self.monomorphized_nodes.len() as nat,
                |i: int| (trees_of(self.monomorphized_nodes[i].0@), self.monomorphized_nodes[i].1@),
            ),
        }
    }
}

/// Whether one of `children` is of kind `t`.
pub open spec fn has_marker(children: Seq<Tree>, t: NodeType) -> bool {
    exists|i: int| 0 <= i < children.len() && (#[trigger] children[i]).t == t
}

/// The first of `children` that is an argument list.
pub open spec fn first_list(children: Seq<Tree>) -> Option<Tree>
    decreases children.len(),
{
    if children.len() == 0 {
        None
    } else if children[0].t == NodeType::ArgumentList {
        Some(children[0])
    } else {
        first_list(children.drop_first())
    }
}

/// The names that `children` carry, in order; children without a name are
/// passed over.
pub open spec fn names_of(children: Seq<Tree>) -> Seq<StringIdx>
    decreases children.len(),
{
    if children.len() == 0 {
        Seq::empty()
    } else {
        match children.last().value {
            NodeValue::String(name) => names_of(children.drop_last()).push(name),
            _ => names_of(children.drop_last()),
        }
    }
}

/// The symbol that the declaration `decl` declares: it is public if it has
/// a marker for that, and its template parameters are the names in its
/// first argument list.
pub open spec fn symbol_of(decl: Tree) -> SymbolView {
    SymbolView {
        is_public: has_marker(decl.children, NodeType::IsPublic),
        decl,
        template_args: match first_list(decl.children) {
            Some(list) => names_of(list.children),
            None => Seq::empty(),
        },
        monomorphized: Seq::empty(),
    }
}

/// Whether one of `nodes` is of kind `t`.
pub fn marked(nodes: &Vec<AstNode>, t: NodeType) -> (r: bool)
    ensures
        r == has_marker(trees_of(nodes@), t),
{
    let mut i: usize = 0;
    while i < nodes.len()
        invariant
            i <= nodes.len(),
            forall|k: int| 0 <= k < i ==> (#[trigger] trees_of(nodes@)[k]).t != t,
        decreases nodes.len() - i,
    {
        if nodes[i].t == t {
            assert(trees_of(nodes@)[i as int].t == t);
            return true;
        }
        i = i + 1;
    }
    false
}

/// The names that `nodes` carry, in order.
pub fn names(nodes: &Vec<AstNode>) -> (r: Vec<StringIdx>)
    ensures
        r@ == names_of(trees_of(nodes@)),
{
    let mut r: Vec<StringIdx> = Vec::new();
    let ghost all = trees_of(nodes@);
    let mut i: usize = 0;
    proof {
        assert(all.take(0) =~= Seq::<Tree>::empty());
    }
    while i < nodes.len()
        invariant
            i <= nodes.len(),
            all == trees_of(nodes@),
            r@ == names_of(all.take(i as int)),
        decreases nodes.len() - i,
    {
        proof {
            assert(all.take(i as int + 1).drop_last() =~= all.take(i as int));
            assert(all.take(i as int + 1).last() == nodes[i as int]@);
        }
        match nodes[i].value {
            NodeValue::String(name) => {
                r.push(name);
            },
            _ => {},
        }
        i = i + 1;
    }
    proof {
        assert(all.take(nodes.len() as int) =~= all);
    }
    r
}

impl Symbol {
    /// The symbol that the declaration `node` declares.
    pub fn from_decl_node(node: AstNode) -> (r: Symbol)
        ensures
            r@ == symbol_of(node@),
            r.decl_node == node,
    {
        proof {
            lemma_tree_children(node);
        }
        let ghost all = trees_of(node.children@);
        let mut template_args: Vec<StringIdx> = Vec::new();
        let mut i: usize = 0;
        let mut found: bool = false;
        proof {
            assert(all.skip(0) =~= all);
        }
        while i < node.children.len()
            invariant
                i <= node.children.len(),
                all == trees_of(node.children@),
                found ==> i == node.children.len(),
                !found ==> first_list(all) == first_list(all.skip(i as int)),
                !found ==> template_args@.len() == 0,
                found ==> (first_list(all) matches Some(list) && template_args@ == names_of(
                    list.children,
                )),
            decreases node.children.len() - i,
        {
            proof {
                assert(all.skip(i as int).drop_first() =~= all.skip(i as int + 1));
                assert(all.skip(i as int)[0] == node.children[i as int]@);
            }
            if node.children[i].t == NodeType::ArgumentList {
                proof {
                    lemma_tree_children(node.children[i as int]);
                }
                template_args = names(&node.children[i].children);
                found = true;
                i = node.children.len();
            } else {
                i = i + 1;
            }
        }
        let r = Symbol {
            is_public: marked(&node.children, NodeType::IsPublic),
            decl_node: node,
            template_args,
            monomorphized_nodes: Vec::new(),
        };
        assert(r@.monomorphized =~= Seq::empty());
        assert(r@.template_args =~= symbol_of(node@).template_args);
        r
    }
}

/// A symbol table as plain values: the modules in the order in which they
/// were declared, the paths of the symbols and the symbols themselves in the
/// order in which they were declared, and the exported names with the paths
/// that they stand for.
pub struct TableView {
    pub modules: Seq<PathIdx>,
    pub symbol_paths: Seq<PathIdx>,
    pub symbols: Seq<SymbolView>,
    pub exports: Seq<(StringIdx, PathIdx)>,
}

/// The names of a list of exports.
pub open spec fn export_names(exports: Seq<(StringIdx, PathIdx)>) -> Seq<StringIdx> {
    Seq::new(exports.len(), |i: int| exports[i].0)
}

/// The exports after `name` was exported as `path`: the path of a name that
/// was exported before is replaced.
pub open spec fn exported(
    exports: Seq<(StringIdx, PathIdx)>,
    name: StringIdx,
    path: PathIdx,
) -> Seq<(StringIdx, PathIdx)> {
    if export_names(exports).contains(name) {
        exports.update(position(export_names(exports), name), (name, path))
    } else {
        exports.push((name, path))
    }
}

impl TableView {
    /// No module, no symbol path and no exported name is listed twice, and
    /// every symbol path has its symbol.
    pub open spec fn wf(self) -> bool {
        &&& self.modules.no_duplicates()
        &&& self.symbol_paths.no_duplicates()
        &&& self.symbol_paths.len() == self.symbols.len()
        &&& export_names(self.exports).no_duplicates()
    }

    /// The symbol declared under `path`, if there is one.
    pub open spec fn symbol(self, path: PathIdx) -> Option<SymbolView> {
        if self.symbol_paths.contains(path) {
            Some(self.symbols[position(self.symbol_paths, path)])
        } else {
            None
        }
    }
}

/// The state of collecting the symbols of a file: the table, the module
/// that declarations belong to, and the paths and diagnostics of the
/// compiler.
pub struct Collecting {
    pub table: TableView,
    pub module: PathIdx,
    pub paths: Seq<Seq<StringIdx>>,
    pub errors: Seq<ErrorView>,
}

/// The reason given for something that is declared twice.
pub open spec fn twice_text(what: Seq<char>, name: Seq<char>, how: Seq<char>) -> Seq<char> {
    what + name + how
}

/// The state after the top-level node `node`.
///
/// A module declaration makes its module the current one; it is a mistake
/// to declare a module twice. A `use` changes nothing. Any other node that
/// carries a name declares the symbol of that name in the current module:
/// if it is marked as exported its name is exported, which is a mistake if
/// the name was exported before; and its symbol is added, unless the path
/// is taken, which is a mistake. Nodes without a name are passed over.
pub open spec fn declare(st: Collecting, strings: Seq<Seq<char>>, node: Tree) -> Collecting {
    match node.value {
        NodeValue::Path(p) if node.t == NodeType::ModuleDecl => {
            if st.table.modules.contains(p) {
                Collecting {
                    module: p,
                    errors: st.errors.push(
                        ErrorView {
                            reason: twice_text(
                                "the module '"@,
                                path_text(strings, path_at(st.paths, p)),
                                "' is declared more than once"@,
                            ),
                            marked: Some(node.source),
                        },
                    ),
                    ..st
                }
            } else {
                Collecting {
                    table: TableView { modules: st.table.modules.push(p), ..st.table },
                    module: p,
                    ..st
                }
            }
        },
        NodeValue::String(name) if node.t != NodeType::UsageDecl => {
            let segments = path_at(st.paths, st.module).push(name);
            let full = PathIdx(index_after(st.paths, segments) as usize);
            let is_exported = has_marker(node.children, NodeType::IsExported);
            let errors1 = if is_exported && export_names(st.table.exports).contains(name) {
                st.errors.push(
                    ErrorView {
                        reason: twice_text(
                            "the name '"@,
                            text_at(strings, name),
                            "' is exported more than once"@,
                        ),
                        marked: Some(node.source),
                    },
                )
            } else {
                st.errors
            };
            let exports = if is_exported {
                exported(st.table.exports, name, full)
            } else {
                st.table.exports
            };
            if st.table.symbol_paths.contains(full) {
                Collecting {
                    table: TableView { exports, ..st.table },
                    paths: pool_after(st.paths, segments),
                    errors: errors1.push(
                        ErrorView {
                            reason: twice_text(
                                "the symbol '"@,
                                path_text(strings, segments),
                                "' is declared more than once"@,
                            ),
                            marked: Some(node.source),
                        },
                    ),
                    ..st
                }
            } else {
                Collecting {
                    table: TableView {
                        symbol_paths: st.table.symbol_paths.push(full),
                        symbols: st.table.symbols.push(symbol_of(node)),
                        exports,
                        ..st.table
                    },
                    paths: pool_after(st.paths, segments),
                    errors: errors1,
                    ..st
                }
            }
        },
        _ => st,
    }
}

/// The state after the top-level nodes `nodes`, one after the other.
pub open spec fn declare_all(st: Collecting, strings: Seq<Seq<char>>, nodes: Seq<Tree>) -> Collecting
    decreases nodes.len(),
{
    if nodes.len() == 0 {
        st
    } else {
        declare(declare_all(st, strings, nodes.drop_last()), strings, nodes.last())
    }
}

/// The state after the top-level nodes of a file, which starts in the root
/// module.
pub open spec fn declare_file(
    table: TableView,
    strings: Seq<Seq<char>>,
    paths: Seq<Seq<StringIdx>>,
    errors: Seq<ErrorView>,
    nodes: Seq<Tree>,
) -> Collecting {
    declare_all(
        Collecting {
            table,
            module: PathIdx(index_after(paths, Seq::<StringIdx>::empty()) as usize),
            paths: pool_after(paths, Seq::<StringIdx>::empty()),
            errors,
        },
        strings,
        nodes,
    )
}

/// The table, paths and diagnostics after the files whose top-level nodes
/// are `files`, one file after the other.
pub open spec fn declare_files(
    table: TableView,
    strings: Seq<Seq<char>>,
    paths: Seq<Seq<StringIdx>>,
    errors: Seq<ErrorView>,
    files: Seq<Seq<Tree>>,
) -> Collecting
    decreases files.len(),
{
    if files.len() == 0 {
        Collecting { table, module: PathIdx(0), paths, errors }
    } else {
        let before = declare_files(table, strings, paths, errors, files.drop_last());
        declare_file(before.table, strings, before.paths, before.errors, files.last())
    }
}

/// Whether one of `instances` was made for template arguments of the
/// shapes `key`.
pub open spec fn cached(instances: Seq<(Seq<Tree>, Tree)>, key: Seq<Tree>) -> bool {
    exists|i: int| 0 <= i < instances.len() && shapes_eq((#[trigger] instances[i]).0, key)
}

/// The table with one more instance of the symbol at the place `slot`.
pub open spec fn with_instance(table: TableView, slot: int, key: Seq<Tree>, instance: Tree) -> TableView {
    TableView {
        symbols: table.symbols.update(
            slot,
            SymbolView {
                monomorphized: table.symbols[slot].monomorphized.push((key, instance)),
                ..table.symbols[slot]
            },
        ),
        ..table
    }
}

/// The table with another instance at the place `at` among the instances of
/// the symbol at the place `slot`, for the same template arguments.
pub open spec fn with_instance_at(table: TableView, slot: int, at: int, instance: Tree) -> TableView {
    TableView {
        symbols: table.symbols.update(
            slot,
            SymbolView {
                monomorphized: table.symbols[slot].monomorphized.update(
                    at,
                    (table.symbols[slot].monomorphized[at].0, instance),
                ),
                ..table.symbols[slot]
            },
        ),
        ..table
    }
}

/// The table that holds nothing.
pub open spec fn empty_table() -> TableView {
    TableView {
        modules: Seq::empty(),
        symbol_paths: Seq::empty(),
        symbols: Seq::empty(),
        exports: Seq::empty(),
    }
}

/// The symbols of a program.
#[derive(Debug, Clone)]
pub struct SymbolTable {
    modules: Vec<PathIdx>,
    symbol_paths: Vec<PathIdx>,
    symbols: Vec<Symbol>,
    unmangled: Vec<(StringIdx, PathIdx)>,
}

impl View for SymbolTable {
    type V = TableView;

    closed spec fn view(&self) -> TableView {
        TableView {
            modules: self.modules@,
            symbol_paths: self.symbol_paths@,
            symbols: Seq::new(self.symbols.len() as nat, |i: int| self.symbols[i]@),
            exports: self.unmangled@,
        }
    }
}

impl SymbolTable {
    /// The table lists nothing twice.
    pub open spec fn wf(&self) -> bool {
        self@.wf()
    }

    /// A table that holds nothing.
    pub fn new() -> (r: SymbolTable)
        ensures
            r.wf(),
            r@ == empty_table(),
    {
        let r = SymbolTable {
            modules: Vec::new(),
            symbol_paths: Vec::new(),
            symbols: Vec::new(),
            unmangled: Vec::new(),
        };
        assert(r@.symbols =~= Seq::empty());
        assert(export_names(r@.exports) =~= Seq::empty());
        r
    }

    /// The declared modules, in the order in which they were declared.
    pub fn modules(&self) -> (r: &Vec<PathIdx>)
        ensures
            r@ == self@.modules,
    {
        &self.modules
    }

    /// The declared symbols, in the order in which they were declared.
    pub fn symbols(&self) -> (r: &Vec<Symbol>)
        ensures
            r@.len() == self@.symbols.len(),
            forall|i: int| 0 <= i < r@.len() ==> (#[trigger] r@[i])@ == self@.symbols[i],
    {
        &self.symbols
    }

    /// The paths of the declared symbols, in the order of the symbols.
    pub fn symbol_paths(&self) -> (r: &Vec<PathIdx>)
        ensures
            r@ == self@.symbol_paths,
    {
        &self.symbol_paths
    }

    /// The exported names, each with the path that it stands for.
    pub fn unmangled(&self) -> (r: &Vec<(StringIdx, PathIdx)>)
        ensures
            r@ == self@.exports,
    {
        &self.unmangled
    }

    /// The place of the symbol declared under `path`, if there is one.
    pub fn find_symbol(&self, path: PathIdx) -> (r: Option<usize>)
        requires
            self.wf(),
        ensures
            r is Some <==> self@.symbol_paths.contains(path),
            r matches Some(i) ==> i == position(self@.symbol_paths, path) && i
                < self@.symbols.len() && self@.symbol_paths[i as int] == path,
    {
        let mut i: usize = 0;
        while i < self.symbol_paths.len()
            invariant
                self.wf(),
                i <= self.symbol_paths.len(),
                forall|k: int| 0 <= k < i ==> self.symbol_paths@[k] != path,
            decreases self.symbol_paths.len() - i,
        {
            if self.symbol_paths[i] == path {
                proof {
                    lemma_position_unique(self.symbol_paths@, path, i as int);
                }
                return Some(i);
            }
            i = i + 1;
        }
        None
    }

    fn has_module(&self, path: PathIdx) -> (r: bool)
        ensures
            r == self@.modules.contains(path),
    {
        let mut i: usize = 0;
        while i < self.modules.len()
            invariant
                i <= self.modules.len(),
                forall|k: int| 0 <= k < i ==> self.modules@[k] != path,
            decreases self.modules.len() - i,
        {
            if self.modules[i] == path {
                return true;
            }
            i = i + 1;
        }
        false
    }

    fn find_export(&self, name: StringIdx) -> (r: Option<usize>)
        requires
            self.wf(),
        ensures
            r is Some <==> export_names(self@.exports).contains(name),
            r matches Some(i) ==> i == position(export_names(self@.exports), name) && i
                < self@.exports.len(),
    {
        let mut i: usize = 0;
        while i < self.unmangled.len()
            invariant
                self.wf(),
                i <= self.unmangled.len(),
                forall|k: int| 0 <= k < i ==> export_names(self@.exports)[k] != name,
            decreases self.unmangled.len() - i,
        {
            if self.unmangled[i].0 == name {
                proof {
                    lemma_position_unique(export_names(self@.exports), name, i as int);
                }
                return Some(i);
            }
            i = i + 1;
        }
        None
    }

    fn export(&mut self, name: StringIdx, path: PathIdx) -> (again: bool)
        requires
            old(self).wf(),
        ensures
            final(self).wf(),
            again == export_names(old(self)@.exports).contains(name),
            final(self)@ == (TableView {
                exports: exported(old(self)@.exports, name, path),
                ..old(self)@
            }),
    {
        match self.find_export(name) {
            Some(i) => {
                self.unmangled[i] = (name, path);
                proof {
                    assert(self@.symbols =~= old(self)@.symbols);
                    assert(export_names(self@.exports) =~= export_names(old(self)@.exports));
                }
                true
            },
            None => {
                self.unmangled.push((name, path));
                proof {
                    assert(self@.symbols =~= old(self)@.symbols);
                    let before = export_names(old(self)@.exports);
                    let after = export_names(self@.exports);
                    assert(after =~= before.push(name));
                    assert forall|a: int, b: int|
                        0 <= a < after.len() && 0 <= b < after.len() && a != b implies after[a]
                        != after[b] by {
                        if a == before.len() {
                            assert(before[b] == after[b]);
                        } else if b == before.len() {
                            assert(before[a] == after[a]);
                        }
                    }
                }
                false
            },
        }
    }

    fn add_module(&mut self, path: PathIdx) -> (again: bool)
        requires
            old(self).wf(),
        ensures
            final(self).wf(),
            again == old(self)@.modules.contains(path),
            final(self)@ == (if again {
                old(self)@
            } else {
                TableView { modules: old(self)@.modules.push(path), ..old(self)@ }
            }),
    {
        if self.has_module(path) {
            return true;
        }
        self.modules.push(path);
        proof {
            assert(self@.symbols =~= old(self)@.symbols);
            let before = old(self)@.modules;
            let after = self@.modules;
            assert forall|a: int, b: int|
                0 <= a < after.len() && 0 <= b < after.len() && a != b implies after[a]
                != after[b] by {
                if a == before.len() {
                    assert(before[b] == after[b]);
                } else if b == before.len() {
                    assert(before[a] == after[a]);
                }
            }
        }
        false
    }

    fn add_symbol(&mut self, path: PathIdx, symbol: Symbol)
        requires
            old(self).wf(),
            !old(self)@.symbol_paths.contains(path),
        ensures
            final(self).wf(),
            final(self)@ == (TableView {
                symbol_paths: old(self)@.symbol_paths.push(path),
                symbols: old(self)@.symbols.push(symbol@),
                ..old(self)@
            }),
    {
        self.symbol_paths.push(path);
        self.symbols.push(symbol);
        proof {
            assert(self@.symbols =~= old(self)@.symbols.push(symbol@));
            let before = old(self)@.symbol_paths;
            let after = self@.symbol_paths;
            assert forall|a: int, b: int|
                0 <= a < after.len() && 0 <= b < after.len() && a != b implies after[a]
                != after[b] by {
                if a == before.len() {
                    assert(before[b] == after[b]);
                } else if b == before.len() {
                    assert(before[a] == after[a]);
                }
            }
        }
    }

    /// The number of instances of the symbol at the place `slot`.
    pub fn instances(&self, slot: usize) -> (r: usize)
        requires
            slot < self@.symbols.len(),
        ensures
            r == self@.symbols[slot as int].monomorphized.len(),
    {
        self.symbols[slot].monomorphized_nodes.len()
    }

    /// Whether the symbol at the place `slot` has an instance for template
    /// arguments of the shapes `key`.
    pub fn has_instance(&self, slot: usize, key: &Vec<AstNode>) -> (r: bool)
        requires
            slot < self@.symbols.len(),
        ensures
            r == cached(self@.symbols[slot as int].monomorphized, trees_of(key@)),
    {
        let instances = &self.symbols[slot].monomorphized_nodes;
        let ghost all = self@.symbols[slot as int].monomorphized;
        let mut i: usize = 0;
        while i < instances.len()
            invariant
                i <= instances.len(),
                slot < self.symbols.len(),
                *instances == self.symbols[slot as int].monomorphized_nodes,
                all == self.symbols[slot as int]@.monomorphized,
                all.len() == instances.len(),
                forall|k: int| 0 <= k < i ==> !shapes_eq((#[trigger] all[k]).0, trees_of(key@)),
            decreases instances.len() - i,
        {
            assert(all[i as int].0 == trees_of(instances[i as int].0@));
            if same_shapes(&instances[i].0, key) {
                assert(all == self@.symbols[slot as int].monomorphized);
                return true;
            }
            i = i + 1;
        }
        false
    }

    /// Adds an instance of the symbol at the place `slot` for the template
    /// arguments `key`, and yields its place among the instances.
    pub fn add_instance(&mut self, slot: usize, key: Vec<AstNode>, instance: AstNode) -> (at: usize)
        requires
            old(self).wf(),
            slot < old(self)@.symbols.len(),
        ensures
            final(self).wf(),
            at == old(self)@.symbols[slot as int].monomorphized.len(),
            final(self)@ == with_instance(old(self)@, slot as int, trees_of(key@), instance@),
    {
        let at: usize = self.symbols[slot].monomorphized_nodes.len();
        let ghost before = self.symbols[slot as int]@;
        let ghost entry = (trees_of(key@), instance@);
        self.symbols[slot].monomorphized_nodes.push((key, instance));
        proof {
            assert(self.symbols[slot as int]@.monomorphized =~= before.monomorphized.push(entry));
            assert(self@.symbols =~= old(self)@.symbols.update(
                slot as int,
                SymbolView {
                    monomorphized: before.monomorphized.push(entry),
                    ..old(self)@.symbols[slot as int]
                },
            ));
        }
        at
    }

    /// Replaces the instance at the place `at` among the instances of the
    /// symbol at the place `slot`.
    pub fn set_instance(&mut self, slot: usize, at: usize, instance: AstNode)
        requires
            old(self).wf(),
            slot < old(self)@.symbols.len(),
            at < old(self)@.symbols[slot as int].monomorphized.len(),
        ensures
            final(self).wf(),
            final(self)@ == with_instance_at(old(self)@, slot as int, at as int, instance@),
    {
        let ghost before = self.symbols[slot as int]@;
        let mut fresh: AstNode = instance;
        std::mem::swap(&mut fresh, &mut self.symbols[slot].monomorphized_nodes[at].1);
        proof {
            assert(self.symbols[slot as int]@.monomorphized =~= before.monomorphized.update(
                at as int,
                (before.monomorphized[at as int].0, instance@),
            ));
            assert(self@.symbols =~= old(self)@.symbols.update(
                slot as int,
                SymbolView {
                    monomorphized: before.monomorphized.update(
                        at as int,
                        (before.monomorphized[at as int].0, instance@),
                    ),
                    ..old(self)@.symbols[slot as int]
                },
            ));
        }
    }

    /// Replaces the declaration of the symbol at the place `i`.
    pub fn set_decl(&mut self, i: usize, decl: AstNode)
        requires
            old(self).wf(),
            i < old(self)@.symbols.len(),
        ensures
            final(self).wf(),
            final(self)@ == (TableView {
                symbols: old(self)@.symbols.update(
                    i as int,
                    SymbolView { decl: decl@, ..old(self)@.symbols[i as int] },
                ),
                ..old(self)@
            }),
    {
        let mut fresh = Symbol {
            is_public: false,
            decl_node: decl,
            template_args: Vec::new(),
            monomorphized_nodes: Vec::new(),
        };
        let ghost before = self.symbols[i as int]@;
        std::mem::swap(&mut fresh.is_public, &mut self.symbols[i].is_public);
        std::mem::swap(&mut fresh.template_args, &mut self.symbols[i].template_args);
        std::mem::swap(
            &mut fresh.monomorphized_nodes,
            &mut self.symbols[i].monomorphized_nodes,
        );
        assert(fresh@ == (SymbolView { decl: decl@, ..before })) by {
            assert(fresh@.monomorphized =~= before.monomorphized);
        }
        self.symbols[i] = fresh;
        assert(self@.symbols =~= old(self)@.symbols.update(
            i as int,
            SymbolView { decl: decl@, ..old(self)@.symbols[i as int] },
        ));
    }

    /// Collects the top-level nodes `nodes` of a file into the table:
    /// its modules, its symbols and its exported names. What is declared
    /// twice is reported to `c`.
    pub fn insert_file(&mut self, nodes: &[AstNode], c: &mut Compiler)
        requires
            old(self).wf(),
            old(c).wf(),
        ensures
            final(self).wf(),
            final(c).wf(),
            final(c).strings == old(c).strings,
            final(c).same_program(old(c)),
            ({
                let end = declare_file(
                    old(self)@,
                    old(c).strings@,
                    old(c).paths@,
                    old(c).error_list(),
                    trees_of(nodes@),
                );
                &&& final(self)@ == end.table
                &&& final(c).paths@ == end.paths
                &&& final(c).error_list() == end.errors
            }),
    {
        let ghost strings = c.strings@;
        let ghost all = trees_of(nodes@);
        let ghost start = Collecting {
            table: self@,
            module: PathIdx(index_after(c.paths@, Seq::<StringIdx>::empty()) as usize),
            paths: pool_after(c.paths@, Seq::<StringIdx>::empty()),
            errors: c.error_list(),
        };
        let root: Vec<StringIdx> = Vec::new();
        let mut curr_mod: PathIdx = c.paths.insert(root.as_slice());
        let mut i: usize = 0;
        proof {
            assert(root@ =~= Seq::<StringIdx>::empty());
            assert(all.take(0) =~= Seq::<Tree>::empty());
        }
        while i < nodes.len()
            invariant
                i <= nodes.len(),
                all == trees_of(nodes@),
                strings == c.strings@,
                self.wf(),
                c.wf(),
                c.strings == old(c).strings,
                c.same_program(old(c)),
                declare_all(start, strings, all.take(i as int)) == (Collecting {
                    table: self@,
                    module: curr_mod,
                    paths: c.paths@,
                    errors: c.error_list(),
                }),
            decreases nodes.len() - i,
        {
            let node = &nodes[i];
            proof {
                assert(all.take(i as int + 1).drop_last() =~= all.take(i as int));
                assert(all.take(i as int + 1).last() == node@);
                lemma_tree_children(*node);
            }
            match node.value {
                NodeValue::Path(p) if node.t == NodeType::ModuleDecl => {
                    if self.add_module(p) {
                        let mut reason: String = "the module '".to_string();
                        reason.append(p.display(c).as_str());
                        reason.append("' is declared more than once");
                        assert(reason@ =~= twice_text(
                            "the module '"@,
                            path_text(strings, path_at(c.paths@, p)),
                            "' is declared more than once"@,
                        ));
                        c.report(Error::dynamic(reason, node.source));
                    }
                    curr_mod = p;
                },
                NodeValue::String(name) if node.t != NodeType::UsageDecl => {
                    let is_exported: bool = marked(&node.children, NodeType::IsExported);
                    let mut full_path_segs: Vec<StringIdx> = c.paths.segments(curr_mod);
                    full_path_segs.push(name);
                    let full_path: PathIdx = c.paths.insert(full_path_segs.as_slice());
                    if is_exported {
                        if self.export(name, full_path) {
                            let mut reason: String = "the name '".to_string();
                            reason.append(c.strings.text(name));
                            reason.append("' is exported more than once");
                            assert(reason@ =~= twice_text(
                                "the name '"@,
                                text_at(strings, name),
                                "' is exported more than once"@,
                            ));
                            c.report(Error::dynamic(reason, node.source));
                        }
                    }
                    match self.find_symbol(full_path) {
                        Some(_) => {
                            let mut reason: String = "the symbol '".to_string();
                            reason.append(full_path.display(c).as_str());
                            reason.append("' is declared more than once");
                            assert(reason@ =~= twice_text(
                                "the symbol '"@,
                                path_text(strings, full_path_segs@),
                                "' is declared more than once"@,
                            ));
                            c.report(Error::dynamic(reason, node.source));
                        },
                        None => {
                            self.add_symbol(full_path, Symbol::from_decl_node(node.clone()));
                        },
                    }
                },
                _ => {},
            }
            i = i + 1;
        }
        proof {
            assert(all.take(nodes.len() as int) =~= all);
        }
    }
}

} // verus!
