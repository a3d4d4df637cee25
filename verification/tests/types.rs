use tolac::{AstNode, Compiler, NodeType, NodeValue, Scope, Source, StringIdx, Type, TypeChecker};
use tolac::{TypeIdx, Variable, VariableState};

fn here() -> Source {
    Source::new(StringIdx(0), 1, 2)
}

fn matched(a: Type, b: Type) -> (Type, usize) {
    let mut c = Compiler::new();
    let left = c.types.insert(a);
    let right = c.types.insert(b);
    let checker = TypeChecker::new();
    let result = checker.match_types(&mut c, left, right, here());
    (*c.types.get(result), c.errors().len())
}

#[test]
fn unknown_agrees_with_any_type() {
    assert_eq!(matched(Type::Unknown, Type::F64), (Type::F64, 0));
    assert_eq!(matched(Type::S16, Type::Unknown), (Type::S16, 0));
    assert_eq!(matched(Type::Unknown, Type::Unknown), (Type::Unknown, 0));
}

#[test]
fn equal_types_agree() {
    assert_eq!(matched(Type::Boolean, Type::Boolean), (Type::Boolean, 0));
    assert_eq!(matched(Type::Unit, Type::Unit), (Type::Unit, 0));
}

#[test]
fn literals_agree_with_sized_types_of_their_family() {
    for sized in [
        Type::U8,
        Type::U16,
        Type::U32,
        Type::U64,
        Type::Usize,
        Type::S8,
        Type::S16,
        Type::S32,
        Type::S64,
    ] {
        assert_eq!(matched(Type::Integer, sized), (sized, 0));
        assert_eq!(matched(sized, Type::Integer), (sized, 0));
        assert_eq!(matched(Type::Float, sized), (Type::Unknown, 1));
    }
    for sized in [Type::F32, Type::F64] {
        assert_eq!(matched(Type::Float, sized), (sized, 0));
        assert_eq!(matched(sized, Type::Float), (sized, 0));
        assert_eq!(matched(Type::Integer, sized), (Type::Unknown, 1));
    }
}

#[test]
fn different_types_do_not_agree() {
    let mut c = Compiler::new();
    let left = c.types.insert(Type::U8);
    let right = c.types.insert(Type::U16);
    let result = TypeChecker::new().match_types(&mut c, left, right, here());
    assert_eq!(*c.types.get(result), Type::Unknown);
    assert_eq!(c.errors().len(), 1);
    assert_eq!(c.errors()[0].reason, "mismatched types");
    assert_eq!(c.errors()[0].marked, Some(here()));
    assert_eq!(matched(Type::Integer, Type::Float), (Type::Unknown, 1));
    assert_eq!(matched(Type::Boolean, Type::Unit), (Type::Unknown, 1));
}

fn literal(c: &mut Compiler, t: NodeType) -> AstNode {
    let unknown = c.types.insert(Type::Unknown);
    AstNode::new(t, here(), NodeValue::String(StringIdx(0)), Vec::new(), unknown)
}

fn type_of(c: &Compiler, node: &AstNode) -> Type {
    *c.types.get(node.result_type)
}

#[test]
fn literals_have_the_type_of_their_kind() {
    let mut c = Compiler::new();
    let mut checker = TypeChecker::new();
    for (kind, expected) in [
        (NodeType::IntegerLiteral, Type::Integer),
        (NodeType::FloatLiteral, Type::Float),
        (NodeType::BooleanLiteral, Type::Boolean),
        (NodeType::UnitLiteral, Type::Unit),
        (NodeType::StringLiteral, Type::Unknown),
    ] {
        let node = literal(&mut c, kind);
        let checked = checker.check_node(&mut c, &node, None);
        assert_eq!(type_of(&c, &checked), expected);
        assert_eq!(checked.t, kind);
    }
    let node = literal(&mut c, NodeType::CStringLiteral);
    let checked = checker.check_node(&mut c, &node, None);
    match type_of(&c, &checked) {
        Type::Pointer(true, pointee) => assert_eq!(*c.types.get(pointee), Type::U8),
        _ => panic!("a C string is a pointer to constant bytes"),
    }
    assert_eq!(c.errors().len(), 0);
}

#[test]
fn arithmetic_has_the_type_its_operands_agree_on() {
    let mut c = Compiler::new();
    let mut checker = TypeChecker::new();
    let one = literal(&mut c, NodeType::IntegerLiteral);
    let two = literal(&mut c, NodeType::IntegerLiteral);
    let half = literal(&mut c, NodeType::FloatLiteral);
    let unknown = c.types.insert(Type::Unknown);
    let sum = AstNode::new(NodeType::Add, here(), NodeValue::Empty, vec![one, two], unknown);
    let checked = checker.check_node(&mut c, &sum, None);
    assert_eq!(type_of(&c, &checked), Type::Integer);
    assert_eq!(type_of(&c, &checked.children[0]), Type::Integer);
    assert_eq!(c.errors().len(), 0);
    let mixed = AstNode::new(
        NodeType::Multiply,
        here(),
        NodeValue::Empty,
        vec![checked, half],
        unknown,
    );
    let checked = checker.check_function(&mut c, &mixed);
    assert_eq!(type_of(&c, &checked), Type::Unknown);
    assert_eq!(type_of(&c, &checked.children[1]), Type::Float);
    assert_eq!(c.errors().len(), 1);
    assert_eq!(c.errors()[0].reason, "mismatched types");
}

#[test]
fn checking_a_program_types_its_declarations() {
    let mut c = Compiler::new();
    c.parse("main.tola", "var x u8 = 1 + 2; var y f32 = 1 + 2.5;".to_string());
    c.check_types();
    assert_eq!(c.errors().len(), 1);
    assert_eq!(c.errors()[0].reason, "mismatched types");
    assert_eq!(c.errors()[0].marked, Some(Source::new(c.files[0].path, 30, 37)));
    let first = &c.symbols.symbols()[0].decl_node;
    assert_eq!(type_of(&c, &first.children[1]), Type::Integer);
    let second = &c.symbols.symbols()[1].decl_node;
    assert_eq!(type_of(&c, &second.children[1]), Type::Unknown);
}

#[test]
fn type_nodes_name_types() {
    let mut c = Compiler::new();
    c.parse("main.tola", "ext var p *const *u8; ext var t T; ext var s S;".to_string());
    assert_eq!(c.errors().len(), 0);
    let nodes: Vec<AstNode> = c.files[0].nodes.clone();
    let name = c.strings.insert("T");
    let float = c.types.insert(Type::F64);
    let bindings = vec![(name, float)];
    let pointer = tolac::frontend::type_checking::resolve_type(&mut c, &bindings, &nodes[0].children[1]);
    match *c.types.get(pointer) {
        Type::Pointer(true, inner) => match *c.types.get(inner) {
            Type::Pointer(false, byte) => assert_eq!(*c.types.get(byte), Type::U8),
            _ => panic!("the pointee is a pointer to bytes"),
        },
        _ => panic!("the type is a pointer to a constant"),
    }
    let bound = tolac::frontend::type_checking::resolve_type(&mut c, &bindings, &nodes[1].children[1]);
    assert_eq!(bound, float);
    let unbound = tolac::frontend::type_checking::resolve_type(&mut c, &bindings, &nodes[2].children[1]);
    assert_eq!(*c.types.get(unbound), Type::Unknown);
}

#[test]
fn variable_states() {
    assert!(VariableState::Initialized.is_accessible());
    assert!(!VariableState::Uninitialized.is_accessible());
}

#[test]
fn scopes_stack_variables_by_name() {
    let mut scope = Scope::new();
    let x = StringIdx(1);
    let y = StringIdx(2);
    assert!(scope.get_last(x).is_none());
    assert!(scope.get_all(x).is_none());
    scope.insert(x, here(), VariableState::Uninitialized, TypeIdx(3));
    scope.insert(y, here(), VariableState::Initialized, TypeIdx(4));
    scope.insert(x, Source::new(StringIdx(0), 5, 6), VariableState::Initialized, TypeIdx(5));
    let last = scope.get_last(x).unwrap();
    assert_eq!(last.value_type, TypeIdx(5));
    assert_eq!(last.state, VariableState::Initialized);
    assert_eq!(last.source, Source::new(StringIdx(0), 5, 6));
    let all = scope.get_all(x).unwrap();
    assert_eq!(all.len(), 2);
    assert_eq!(all[0].value_type, TypeIdx(3));
    assert_eq!(all[0].state, VariableState::Uninitialized);
    assert_eq!(scope.get_all(y).unwrap().len(), 1);
    assert!(scope.get_last(StringIdx(9)).is_none());
    let made = Variable::new(here(), VariableState::Initialized, TypeIdx(1));
    assert_eq!(made.value_type, TypeIdx(1));
}

fn checked(text: &str) -> Compiler {
    let mut c = Compiler::new();
    c.parse("main.tola", text.to_string());
    assert_eq!(c.errors().len(), 0);
    c.check_types();
    c
}

fn value_of<'c>(c: &'c Compiler, symbol: usize) -> &'c AstNode {
    let decl = &c.symbols.symbols()[symbol].decl_node;
    &decl.children[decl.children.len() - 1]
}

#[test]
fn a_call_has_the_return_type_of_its_symbol() {
    let c = checked("fun f(a u8, b f64): u16 { return 1; } var x u16 = f(1, 2.5);");
    assert_eq!(c.errors().len(), 0);
    let call = value_of(&c, 1);
    assert_eq!(call.t, NodeType::Call);
    assert_eq!(type_of(&c, call), Type::U16);
    let args = &call.children[1].children;
    assert_eq!(type_of(&c, &args[0]), Type::Integer);
    assert_eq!(type_of(&c, &args[1]), Type::Float);
    let c = checked("fun f() { } fun g() { f(); }");
    assert_eq!(c.errors().len(), 0);
    let body = value_of(&c, 1);
    assert_eq!(type_of(&c, &body.children[0]), Type::Unit);
}

#[test]
fn arguments_must_agree_with_parameters() {
    let text = "fun f(a u8): u16 { return 1; } var x u16 = f(true);";
    let c = checked(text);
    assert_eq!(c.errors().len(), 1);
    assert_eq!(c.errors()[0].reason, "mismatched types");
    let at = text.find("true").unwrap();
    assert_eq!(c.errors()[0].marked, Some(Source::new(c.files[0].path, at, at + 4)));
    assert_eq!(type_of(&c, value_of(&c, 1)), Type::U16);
}

#[test]
fn the_number_of_arguments_must_be_that_of_the_parameters() {
    let text = "fun f(a u8): u16 { return 1; } var x u16 = f(1, 2);";
    let c = checked(text);
    assert_eq!(c.errors().len(), 1);
    assert_eq!(c.errors()[0].reason, "wrong number of arguments");
    let at = text.find("f(1").unwrap();
    assert_eq!(c.errors()[0].marked, Some(Source::new(c.files[0].path, at, at + 7)));
}

#[test]
fn calling_what_is_not_declared_is_a_mistake() {
    let text = "var x u16 = g(1);";
    let c = checked(text);
    assert_eq!(c.errors().len(), 1);
    assert_eq!(c.errors()[0].reason, "unknown identifier");
    assert_eq!(c.errors()[0].marked, Some(Source::new(c.files[0].path, 12, 13)));
    assert_eq!(type_of(&c, value_of(&c, 0)), Type::Unknown);
}

#[test]
fn template_arguments_bind_template_parameters() {
    let c = checked("fun id[T](a T): *T { return &a; } var y f32 = id[f32](1.5); var z u8 = id[bool](2);");
    assert_eq!(c.errors().len(), 1);
    assert_eq!(c.errors()[0].reason, "mismatched types");
    let call = value_of(&c, 1);
    match type_of(&c, call) {
        Type::Pointer(false, pointee) => assert_eq!(*c.types.get(pointee), Type::F32),
        _ => panic!("the call yields a pointer"),
    }
    let other = value_of(&c, 2);
    match type_of(&c, other) {
        Type::Pointer(false, pointee) => assert_eq!(*c.types.get(pointee), Type::Boolean),
        _ => panic!("the call yields a pointer"),
    }
}

#[test]
fn templates_get_one_instance_for_each_shape_of_arguments() {
    let c = checked(
        "fun id[T](a T): T { return a; } fun plain() { } var y f32 = id[f32](1.5); var z f32 = id[f32](2.5); var w u8 = id[u8](1); var v u8 = id[*u8](1); fun g() { plain(); }",
    );
    let symbols = c.symbols.symbols();
    let instances = &symbols[0].monomorphized_nodes;
    assert_eq!(instances.len(), 3);
    let kinds: Vec<NodeType> = instances.iter().map(|(key, _)| key[0].t).collect();
    assert_eq!(kinds, vec![NodeType::F32Type, NodeType::U8Type, NodeType::PointerType]);
    for (key, instance) in instances {
        assert_eq!(key.len(), 1);
        assert_eq!(instance.t, NodeType::FunctionDecl);
        assert_eq!(instance.source, symbols[0].decl_node.source);
    }
    assert_eq!(symbols[1].monomorphized_nodes.len(), 0);
    assert_eq!(c.errors().len(), 1);
    assert_eq!(c.errors()[0].reason, "mismatched types");
}

#[test]
fn a_template_that_refers_to_itself_ends() {
    let c = checked(
        "fun again[T](a T): T { return again[T](a); } fun deeper[T](a T) { deeper[*T](&a); } var x u8 = again[u8](1); fun f() { deeper[u8](1); }",
    );
    assert_eq!(c.errors().len(), 0);
    let symbols = c.symbols.symbols();
    assert_eq!(symbols[0].monomorphized_nodes.len(), 2);
    assert_eq!(symbols[1].monomorphized_nodes.len(), 2);
    let inner = &symbols[0].monomorphized_nodes[1].1;
    let call = &inner.children[inner.children.len() - 1].children[0].children[0];
    assert_eq!(call.t, NodeType::Call);
    assert_eq!(type_of(&c, call), Type::U8);
}

#[test]
fn shapes_ignore_places_and_types() {
    let mut c = Compiler::new();
    c.parse("main.tola", "ext var a *const u8; ext var b *const u8; ext var d *u8;".to_string());
    let nodes = &c.files[0].nodes;
    let first = &nodes[0].children[1];
    let second = &nodes[1].children[1];
    let third = &nodes[2].children[1];
    assert_ne!(first, second);
    assert!(tolac::frontend::ast::same_shape(first, second));
    assert!(!tolac::frontend::ast::same_shape(first, third));
    assert!(tolac::frontend::ast::same_shapes(&nodes[0].children, &nodes[1].children));
    assert!(!tolac::frontend::ast::same_shapes(&nodes[0].children, &nodes[2].children));
}
