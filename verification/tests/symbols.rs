use tolac::{AstNode, Compiler, NodeType, Source, StringIdx, Symbol, SymbolTable};

const DUPLICATE: &str = "mod foo; fun add(a u32, b u32): u32 { return a + b; } fun add(a s32, b s32): s32 { return a + b; }";

fn checked(text: &str) -> Compiler {
    let mut c = Compiler::new();
    c.parse("main.tola", text.to_string());
    assert_eq!(c.errors().len(), 0);
    c.check_types();
    c
}

fn symbol_names(c: &Compiler) -> Vec<String> {
    c.symbols.symbol_paths().iter().map(|p| p.display(c)).collect()
}

#[test]
fn second_declaration_of_a_symbol_is_reported() {
    let c = checked(DUPLICATE);
    assert_eq!(c.errors().len(), 1);
    assert_eq!(c.errors()[0].reason, "the symbol 'foo::add' is declared more than once");
    let second = DUPLICATE.rfind("fun add").unwrap();
    assert_eq!(
        c.errors()[0].marked,
        Some(Source::new(c.files[0].path, second, DUPLICATE.len()))
    );
    assert_eq!(symbol_names(&c), vec!["foo::add"]);
    let kept = &c.symbols.symbols()[0];
    assert_eq!(kept.decl_node.source.start, 9);
}

#[test]
fn second_declaration_of_a_module_is_reported() {
    let c = checked("mod a; mod b; mod a; fun f() {}");
    assert_eq!(c.errors().len(), 1);
    assert_eq!(c.errors()[0].reason, "the module 'a' is declared more than once");
    assert_eq!(c.errors()[0].marked.unwrap().start, 14);
    let modules: Vec<String> = c.symbols.modules().iter().map(|p| p.display(&c)).collect();
    assert_eq!(modules, vec!["a", "b"]);
    assert_eq!(symbol_names(&c), vec!["a::f"]);
}

#[test]
fn second_export_of_a_name_is_reported() {
    let c = checked("mod a; exp fun f() {} mod b; exp fun f() {} exp fun g() {}");
    assert_eq!(c.errors().len(), 1);
    assert_eq!(c.errors()[0].reason, "the name 'f' is exported more than once");
    assert_eq!(c.errors()[0].marked.unwrap().start, 29);
    let exports: Vec<(String, String)> = c
        .symbols
        .unmangled()
        .iter()
        .map(|(name, path)| (c.strings.get(*name).to_string(), path.display(&c)))
        .collect();
    assert_eq!(
        exports,
        vec![("f".to_string(), "b::f".to_string()), ("g".to_string(), "b::g".to_string())]
    );
    assert_eq!(symbol_names(&c), vec!["a::f", "b::f", "b::g"]);
}

#[test]
fn symbols_know_their_template_parameters() {
    let c = checked("pub fun pick[A, B](a A, b B): A { return a; } fun plain() {}");
    assert_eq!(c.errors().len(), 0);
    let symbols = c.symbols.symbols();
    assert_eq!(symbols.len(), 2);
    assert!(symbols[0].is_public);
    let names: Vec<&str> = symbols[0].template_args.iter().map(|n| c.strings.get(*n)).collect();
    assert_eq!(names, vec!["A", "B"]);
    assert_eq!(symbols[0].monomorphized_nodes.len(), 0);
    assert!(!symbols[1].is_public);
    assert_eq!(symbols[1].template_args.len(), 0);
    assert_eq!(c.symbols.find_symbol(c.symbols.symbol_paths()[1]), Some(1));
}

#[test]
fn symbol_of_a_declaration_without_lists() {
    let mut c = Compiler::new();
    let unknown = c.types.insert(tolac::Type::Unknown);
    let node = AstNode::empty(NodeType::VariableDecl, Source::new(StringIdx(0), 0, 0), unknown);
    let symbol = Symbol::from_decl_node(node.clone());
    assert!(!symbol.is_public);
    assert_eq!(symbol.template_args.len(), 0);
    assert_eq!(symbol.decl_node, node);
}

#[test]
fn collecting_the_same_nodes_gives_the_same_tables() {
    let text = "mod a; pub fun f[T](x T) {} exp var v u8 = 1; mod b; struct S(x u8) exp fun f() {}";
    let mut c = Compiler::new();
    c.parse("main.tola", text.to_string());
    let nodes: Vec<AstNode> = c.files[0].nodes.clone();
    let mut first = SymbolTable::new();
    first.insert_file(&nodes, &mut c);
    let errors = c.errors().len();
    let mut second = SymbolTable::new();
    second.insert_file(&nodes, &mut c);
    assert_eq!(c.errors().len(), 2 * errors);
    assert_eq!(first.modules(), second.modules());
    assert_eq!(first.symbol_paths(), second.symbol_paths());
    assert_eq!(first.unmangled(), second.unmangled());
    assert_eq!(first.symbols().len(), second.symbols().len());
    for (a, b) in first.symbols().iter().zip(second.symbols().iter()) {
        assert_eq!(a.is_public, b.is_public);
        assert_eq!(a.decl_node, b.decl_node);
        assert_eq!(a.template_args, b.template_args);
    }
    let names: Vec<String> = first.symbol_paths().iter().map(|p| p.display(&c)).collect();
    assert_eq!(names, vec!["a::f", "a::v", "b::S", "b::f"]);
}

#[test]
fn collecting_nodes_a_second_time_changes_no_table() {
    let text = "mod a; pub fun f[T](x T) {} exp var v u8 = 1; mod b; struct S(x u8) exp fun f() {} mod c; exp fun v() {}";
    let mut c = Compiler::new();
    c.parse("main.tola", text.to_string());
    assert_eq!(c.errors().len(), 0);
    let nodes: Vec<AstNode> = c.files[0].nodes.clone();
    let mut table = SymbolTable::new();
    table.insert_file(&nodes, &mut c);
    assert_eq!(c.errors().len(), 1);
    let once = table.clone();
    let paths = c.paths.len();
    table.insert_file(&nodes, &mut c);
    assert_eq!(c.errors().len(), 1 + 3 + 5 + 3);
    assert_eq!(c.paths.len(), paths);
    assert_eq!(table.modules(), once.modules());
    assert_eq!(table.symbol_paths(), once.symbol_paths());
    assert_eq!(table.unmangled(), once.unmangled());
    assert_eq!(table.symbols().len(), once.symbols().len());
    for (a, b) in table.symbols().iter().zip(once.symbols().iter()) {
        assert_eq!(a.is_public, b.is_public);
        assert_eq!(a.decl_node, b.decl_node);
        assert_eq!(a.template_args, b.template_args);
    }
    let exports: Vec<(String, String)> = table
        .unmangled()
        .iter()
        .map(|(name, path)| (c.strings.get(*name).to_string(), path.display(&c)))
        .collect();
    assert_eq!(
        exports,
        vec![("v".to_string(), "c::v".to_string()), ("f".to_string(), "b::f".to_string())]
    );
}
