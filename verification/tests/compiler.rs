use tolac::{Compiler, NodeType};

#[test]
fn a_new_compiler_knows_nothing() {
    let mut c = Compiler::new();
    assert_eq!(c.errors().len(), 0);
    assert_eq!(c.files.len(), 0);
    assert_eq!(c.strings.len(), 0);
    assert_eq!(c.symbols.symbols().len(), 0);
    c.check_types();
    assert_eq!(c.errors().len(), 0);
    assert_eq!(c.generate_output(), Some(()));
}

#[test]
fn type_checking_is_held_back_by_diagnostics_of_parsing() {
    let mut c = Compiler::new();
    c.parse("a.tola", "fun f( {}".to_string());
    assert_eq!(c.errors().len(), 1);
    let before = c.errors().to_vec();
    c.check_types();
    assert_eq!(c.errors(), &before[..]);
    assert_eq!(c.symbols.symbols().len(), 0);
    assert_eq!(c.generate_output(), None);
    assert_eq!(c.errors(), &before[..]);
}

#[test]
fn parsing_a_file_again_replaces_it_and_its_diagnostics() {
    let mut c = Compiler::new();
    c.parse("a.tola", "fun f( {}".to_string());
    c.parse("b.tola", "var x u8;".to_string());
    assert_eq!(c.errors().len(), 2);
    assert_eq!(c.files.len(), 2);
    c.parse("a.tola", "fun f() {}".to_string());
    assert_eq!(c.files.len(), 2);
    assert_eq!(c.errors().len(), 1);
    assert_eq!(c.errors()[0].marked.unwrap().file, c.files[1].path);
    assert_eq!(c.files[0].nodes.len(), 1);
    assert_eq!(c.files[0].nodes[0].t, NodeType::FunctionDecl);
    assert_eq!(c.files[0].chars.len(), 10);
    c.parse("b.tola", "var x u8 = 1;".to_string());
    assert_eq!(c.errors().len(), 0);
    c.check_types();
    assert_eq!(c.errors().len(), 0);
    assert_eq!(c.symbols.symbols().len(), 2);
    assert_eq!(c.generate_output(), Some(()));
}

#[test]
fn diagnostics_of_a_later_stage_are_dropped_by_parsing() {
    let mut c = Compiler::new();
    c.parse("a.tola", "fun f() {} fun f() {}".to_string());
    assert_eq!(c.errors().len(), 0);
    c.check_types();
    assert_eq!(c.errors().len(), 1);
    assert_eq!(c.generate_output(), None);
    assert_eq!(c.errors().len(), 1);
    c.check_types();
    assert_eq!(c.errors().len(), 1);
    c.parse("b.tola", "fun g() {}".to_string());
    assert_eq!(c.errors().len(), 0);
    c.parse("a.tola", "fun f() {}".to_string());
    c.check_types();
    assert_eq!(c.errors().len(), 0);
    assert_eq!(c.symbols.symbols().len(), 2);
}

#[test]
fn symbols_of_all_files_are_collected_in_order() {
    let mut c = Compiler::new();
    c.parse("a.tola", "mod a; fun f() {}".to_string());
    c.parse("b.tola", "mod b; use a::f; fun g() { f(); }".to_string());
    c.check_types();
    assert_eq!(c.errors().len(), 0);
    let names: Vec<String> = c.symbols.symbol_paths().iter().map(|p| p.display(&c)).collect();
    assert_eq!(names, vec!["a::f", "b::g"]);
    let call = &c.symbols.symbols()[1].decl_node.children[3].children[0];
    assert_eq!(call.children[0].t, NodeType::PathAccess);
}
