use tolac::{expand_paths, expand_wildcards, AstNode, Compiler, NodeType, NodeValue};

const SHADOWED: &str = "mod foo; fun x() {} fun y() {} mod bar; use foo::*; fun main() { const x u32 = 5; x(); y(); }";

fn checked(text: &str) -> Compiler {
    let mut c = Compiler::new();
    c.parse("main.tola", text.to_string());
    assert_eq!(c.errors().len(), 0);
    c.check_types();
    assert_eq!(c.errors().len(), 0);
    c
}

fn declaration<'c>(c: &'c Compiler, name: &str) -> &'c AstNode {
    let paths = c.symbols.symbol_paths();
    for i in 0..paths.len() {
        if paths[i].display(c) == name {
            return &c.symbols.symbols()[i].decl_node;
        }
    }
    panic!("no such symbol");
}

fn body<'c>(c: &'c Compiler, name: &str) -> &'c Vec<AstNode> {
    let decl = declaration(c, name);
    &decl.children[decl.children.len() - 1].children
}

fn reference(c: &Compiler, node: &AstNode) -> (NodeType, String) {
    match node.value {
        NodeValue::Path(path) => (node.t, path.display(c)),
        NodeValue::String(name) => (node.t, c.strings.get(name).to_string()),
        _ => panic!("the node is no reference"),
    }
}

#[test]
fn used_symbols_are_made_full_paths_and_locals_are_left_alone() {
    let c = checked(SHADOWED);
    let statements = body(&c, "bar::main");
    assert_eq!(statements.len(), 3);
    assert_eq!(statements[0].t, NodeType::VariableDecl);
    assert_eq!(statements[1].t, NodeType::Call);
    assert_eq!(
        reference(&c, &statements[1].children[0]),
        (NodeType::NamespaceAccess, "x".to_string())
    );
    assert_eq!(statements[2].t, NodeType::Call);
    assert_eq!(
        reference(&c, &statements[2].children[0]),
        (NodeType::PathAccess, "foo::y".to_string())
    );
}

#[test]
fn names_without_a_use_stay_relative_to_the_root() {
    let c = checked("mod a; fun f(p u8) { p; q; var r u8 = q; r; if p { var s u8 = 1; s; } s; }");
    let statements = body(&c, "a::f");
    assert_eq!(
        reference(&c, &statements[0]),
        (NodeType::NamespaceAccess, "p".to_string())
    );
    assert_eq!(reference(&c, &statements[1]), (NodeType::PathAccess, "q".to_string()));
    assert_eq!(
        reference(&c, &statements[2].children[1]),
        (NodeType::PathAccess, "q".to_string())
    );
    assert_eq!(
        reference(&c, &statements[3]),
        (NodeType::NamespaceAccess, "r".to_string())
    );
    assert_eq!(
        reference(&c, &statements[4].children[1].children[1]),
        (NodeType::NamespaceAccess, "s".to_string())
    );
    assert_eq!(reference(&c, &statements[5]), (NodeType::PathAccess, "s".to_string()));
}

#[test]
fn uses_add_up_across_modules_of_a_file() {
    let c = checked("mod lib; fun helper() {} mod one; use lib::helper; fun f() { helper(); } mod two; fun g() { helper(); }");
    assert_eq!(
        reference(&c, &body(&c, "one::f")[0].children[0]),
        (NodeType::PathAccess, "lib::helper".to_string())
    );
    assert_eq!(
        reference(&c, &body(&c, "two::g")[0].children[0]),
        (NodeType::PathAccess, "lib::helper".to_string())
    );
}

#[test]
fn a_later_use_of_an_alias_wins() {
    let c = checked("mod a; fun f() {} mod b; fun f() {} mod c; use a::f; use b::f; fun g() { f(); }");
    assert_eq!(
        reference(&c, &body(&c, "c::g")[0].children[0]),
        (NodeType::PathAccess, "b::f".to_string())
    );
}

#[test]
fn wildcards_match_symbols_of_the_same_length() {
    let mut c = checked("mod a; fun f() {} fun g() {} mod a::b; fun h() {} mod c; fun f() {}");
    let star = c.strings.insert("*");
    let a = c.strings.insert("a");
    let f = c.strings.insert("f");
    let under_a = c.paths.insert(&[a, star]);
    let any_f = c.paths.insert(&[star, f]);
    let exact = c.paths.insert(&[a, f]);
    let three = c.paths.insert(&[a, star, star]);
    let shown = |c: &Compiler, paths: Vec<tolac::PathIdx>| -> Vec<String> {
        paths.iter().map(|p| p.display(c)).collect()
    };
    let found = expand_wildcards(&c, star, under_a);
    assert_eq!(shown(&c, found), vec!["a::f", "a::g"]);
    let found = expand_wildcards(&c, star, any_f);
    assert_eq!(shown(&c, found), vec!["a::f", "c::f"]);
    let found = expand_wildcards(&c, star, exact);
    assert_eq!(shown(&c, found), vec!["a::f"]);
    let found = expand_wildcards(&c, star, three);
    assert_eq!(shown(&c, found), vec!["a::b::h"]);
}

#[test]
fn expanding_again_changes_nothing() {
    let mut c = checked(SHADOWED);
    let before: Vec<AstNode> = c.symbols.symbols().iter().map(|s| s.decl_node.clone()).collect();
    let paths = c.paths.len();
    expand_paths(&mut c);
    let after: Vec<AstNode> = c.symbols.symbols().iter().map(|s| s.decl_node.clone()).collect();
    assert_eq!(before, after);
    assert_eq!(c.paths.len(), paths);
}

#[test]
fn an_alias_that_heads_its_own_path_is_replaced_once_more() {
    let mut c = checked("mod foo; fun foo() {} mod bar; use foo::foo; fun f() { foo(); }");
    assert_eq!(
        reference(&c, &body(&c, "bar::f")[0].children[0]),
        (NodeType::PathAccess, "foo::foo".to_string())
    );
    expand_paths(&mut c);
    assert_eq!(
        reference(&c, &body(&c, "bar::f")[0].children[0]),
        (NodeType::PathAccess, "foo::foo::foo".to_string())
    );
}
