use tolac::{AstNode, Compiler, Error, NodeType, NodeValue, Source, TokenType};
use tolac::get_infix_precedence;

fn parsed(text: &str) -> Compiler {
    let mut c = Compiler::new();
    c.parse("main.tola", text.to_string());
    c
}

fn nodes_of(c: &Compiler) -> &Vec<AstNode> {
    &c.files[0].nodes
}

fn kinds(nodes: &Vec<AstNode>) -> Vec<NodeType> {
    nodes.iter().map(|n| n.t).collect()
}

fn name_of(c: &Compiler, node: &AstNode) -> String {
    match node.value {
        NodeValue::String(name) => c.strings.get(name).to_string(),
        _ => panic!("the node carries no name"),
    }
}

fn path_of(c: &Compiler, node: &AstNode) -> String {
    match node.value {
        NodeValue::Path(path) => path.display(c),
        _ => panic!("the node carries no path"),
    }
}

#[test]
fn infix_precedences() {
    assert_eq!(get_infix_precedence(TokenType::KeywordAs), 3);
    assert_eq!(get_infix_precedence(TokenType::Asterisk), 4);
    assert_eq!(get_infix_precedence(TokenType::Slash), 4);
    assert_eq!(get_infix_precedence(TokenType::Percent), 4);
    assert_eq!(get_infix_precedence(TokenType::Plus), 5);
    assert_eq!(get_infix_precedence(TokenType::Minus), 5);
    assert_eq!(get_infix_precedence(TokenType::LessThan), 6);
    assert_eq!(get_infix_precedence(TokenType::GreaterThanEqual), 6);
    assert_eq!(get_infix_precedence(TokenType::DoubleEqual), 7);
    assert_eq!(get_infix_precedence(TokenType::NotEqual), 7);
    assert_eq!(get_infix_precedence(TokenType::DoubleAmpersand), 8);
    assert_eq!(get_infix_precedence(TokenType::DoublePipe), 8);
    assert_eq!(get_infix_precedence(TokenType::ParenOpen), 0);
    assert_eq!(get_infix_precedence(TokenType::Semicolon), 0);
}

#[test]
fn duplicate_function_parses_twice() {
    let c = parsed("mod foo; fun add(a u32, b u32): u32 { return a + b; } fun add(a s32, b s32): s32 { return a + b; }");
    assert_eq!(c.errors().len(), 0);
    assert_eq!(
        kinds(nodes_of(&c)),
        vec![NodeType::ModuleDecl, NodeType::FunctionDecl, NodeType::FunctionDecl]
    );
    assert_eq!(path_of(&c, &nodes_of(&c)[0]), "foo");
}

#[test]
fn function_declaration_has_its_parts_in_order() {
    let text = "pub fun add[T](a T, const b *const u8): T { return a; }";
    let c = parsed(text);
    assert_eq!(c.errors().len(), 0);
    let decl = &nodes_of(&c)[0];
    assert_eq!(decl.t, NodeType::FunctionDecl);
    assert_eq!(name_of(&c, decl), "add");
    assert_eq!(decl.source, Source::new(c.files[0].path, 0, text.len()));
    assert_eq!(
        kinds(&decl.children),
        vec![
            NodeType::IsPublic,
            NodeType::ArgumentList,
            NodeType::ArgumentList,
            NodeType::NamespaceAccess,
            NodeType::Block,
        ]
    );
    let template = &decl.children[1];
    assert_eq!(kinds(&template.children), vec![NodeType::ArgumentDecl]);
    assert_eq!(name_of(&c, &template.children[0]), "T");
    assert_eq!(template.source, Source::new(c.files[0].path, 11, 14));
    let params = &decl.children[2];
    assert_eq!(params.children.len(), 2);
    assert_eq!(name_of(&c, &params.children[0]), "a");
    assert_eq!(kinds(&params.children[0].children), vec![NodeType::NamespaceAccess]);
    assert_eq!(name_of(&c, &params.children[1]), "b");
    assert_eq!(
        kinds(&params.children[1].children),
        vec![NodeType::IsConstant, NodeType::PointerType]
    );
    let pointer = &params.children[1].children[1];
    assert_eq!(kinds(&pointer.children), vec![NodeType::IsConstant, NodeType::U8Type]);
    let body = &decl.children[4];
    assert_eq!(kinds(&body.children), vec![NodeType::Return]);
}

#[test]
fn external_function_has_no_body_and_unit_by_default() {
    let c = parsed("pub ext fun puts(s *const u8)");
    assert_eq!(c.errors().len(), 0);
    let decl = &nodes_of(&c)[0];
    assert_eq!(
        kinds(&decl.children),
        vec![
            NodeType::IsPublic,
            NodeType::IsExternal,
            NodeType::ArgumentList,
            NodeType::ArgumentList,
            NodeType::UnitType,
        ]
    );
}

#[test]
fn exported_function_with_template_arguments_is_reported() {
    let c = parsed("pub exp fun add[T](a T, b T): T { return a + b; }");
    assert_eq!(c.errors().len(), 1);
    assert_eq!(
        c.errors()[0].reason,
        "'add' is exported and may therefore not specify any template arguments"
    );
    assert_eq!(c.errors()[0].marked, Some(Source::new(c.files[0].path, 15, 18)));
    let decl = &nodes_of(&c)[0];
    assert_eq!(decl.t, NodeType::FunctionDecl);
    assert_eq!(decl.children[0].t, NodeType::IsPublic);
    assert_eq!(decl.children[1].t, NodeType::IsExported);
}

#[test]
fn exported_constant_parses() {
    let c = parsed("pub exp const answer u32 = 42;");
    assert_eq!(c.errors().len(), 0);
    let decl = &nodes_of(&c)[0];
    assert_eq!(decl.t, NodeType::VariableDecl);
    assert_eq!(
        kinds(&decl.children),
        vec![
            NodeType::IsPublic,
            NodeType::IsExported,
            NodeType::IsConstant,
            NodeType::U32Type,
            NodeType::IntegerLiteral,
        ]
    );
}

#[test]
fn global_variable_needs_a_value_unless_external() {
    let c = parsed("var x u8; var y u8 = 5; ext var z u8; ext var w u8 = 5;");
    assert_eq!(c.errors().len(), 1);
    assert_eq!(c.errors()[0].reason, "unexpected `;` after `u8`");
    assert_eq!(c.errors()[0].marked, Some(Source::new(c.files[0].path, 8, 9)));
    let nodes = nodes_of(&c);
    assert_eq!(
        kinds(nodes),
        vec![
            NodeType::Invalid,
            NodeType::VariableDecl,
            NodeType::VariableDecl,
            NodeType::VariableDecl,
        ]
    );
    assert_eq!(kinds(&nodes[1].children), vec![NodeType::U8Type, NodeType::IntegerLiteral]);
    assert_eq!(kinds(&nodes[2].children), vec![NodeType::IsExternal, NodeType::U8Type]);
    assert_eq!(
        kinds(&nodes[3].children),
        vec![NodeType::IsExternal, NodeType::U8Type, NodeType::IntegerLiteral]
    );
}

#[test]
fn invalid_character_is_reported_once() {
    let c = parsed("fun main() { lmfao?lol }");
    assert_eq!(c.errors().len(), 1);
    assert_eq!(
        c.errors()[0],
        Error {
            reason: "invalid character".to_string(),
            marked: Some(Source::new(c.files[0].path, 18, 19)),
        }
    );
    let nodes = nodes_of(&c);
    assert_eq!(kinds(nodes), vec![NodeType::FunctionDecl]);
}

#[test]
fn one_mistake_gives_one_diagnostic() {
    let c = parsed("fun main() { var x u8 = ) 1 2 3; return x; } fun other() {}");
    assert_eq!(c.errors().len(), 1);
    assert_eq!(c.errors()[0].reason, "unexpected `)` after `=`");
    let nodes = nodes_of(&c);
    assert_eq!(kinds(nodes), vec![NodeType::FunctionDecl, NodeType::FunctionDecl]);
    let body = &nodes[0].children[3];
    assert_eq!(kinds(&body.children), vec![NodeType::Invalid, NodeType::Return]);
}

#[test]
fn unexpected_end_of_file_is_reported_at_the_last_token() {
    let c = parsed("fun main(");
    assert_eq!(c.errors().len(), 1);
    assert_eq!(c.errors()[0].reason, "unexpected end of file after `(`");
    assert_eq!(c.errors()[0].marked, Some(Source::new(c.files[0].path, 8, 9)));
    assert_eq!(kinds(nodes_of(&c)), vec![NodeType::Invalid]);
}

#[test]
fn first_token_is_reported_without_a_token_before_it() {
    let c = parsed(")");
    assert_eq!(c.errors().len(), 1);
    assert_eq!(c.errors()[0].reason, "unexpected `)`");
}

#[test]
fn precedence_orders_operators() {
    let c = parsed("var x u8 = 1 + 2 * 3 == 7 && !a;");
    assert_eq!(c.errors().len(), 0);
    let decl = &nodes_of(&c)[0];
    let value = &decl.children[1];
    assert_eq!(value.t, NodeType::LogicalAnd);
    assert_eq!(value.children[0].t, NodeType::Equal);
    assert_eq!(value.children[0].children[0].t, NodeType::Add);
    assert_eq!(value.children[0].children[0].children[1].t, NodeType::Multiply);
    assert_eq!(value.children[1].t, NodeType::LogicalNot);
    assert_eq!(value.value, NodeValue::Empty);
}

#[test]
fn operators_of_one_precedence_associate_to_the_left() {
    let c = parsed("var x u8 = 1 - 2 - 3;");
    let value = &nodes_of(&c)[0].children[1];
    assert_eq!(value.t, NodeType::Subtract);
    assert_eq!(value.children[0].t, NodeType::Subtract);
    assert_eq!(value.children[1].t, NodeType::IntegerLiteral);
}

#[test]
fn postfix_binds_tighter_than_prefix_and_cast() {
    let c = parsed("var x u8 = -f(1, 2).field as u8 * (3 + 4);");
    assert_eq!(c.errors().len(), 0);
    let value = &nodes_of(&c)[0].children[1];
    assert_eq!(value.t, NodeType::Multiply);
    let cast = &value.children[0];
    assert_eq!(cast.t, NodeType::TypeCast);
    assert_eq!(cast.children[1].t, NodeType::U8Type);
    let negate = &cast.children[0];
    assert_eq!(negate.t, NodeType::Negate);
    let member = &negate.children[0];
    assert_eq!(member.t, NodeType::MemberAccess);
    assert_eq!(name_of(&c, member), "field");
    let call = &member.children[0];
    assert_eq!(call.t, NodeType::Call);
    assert_eq!(call.children[0].t, NodeType::NamespaceAccess);
    assert_eq!(call.children[1].t, NodeType::ArgumentList);
    assert_eq!(call.children[1].children.len(), 2);
    assert_eq!(value.children[1].t, NodeType::Add);
}

#[test]
fn literals_and_operands() {
    let c = parsed("fun f() { 1; 2.5; \"s\"; c\"s\"; true; false; unit; sizeof *u8; &x; *p; x[u8]; }");
    assert_eq!(c.errors().len(), 0);
    let body = &nodes_of(&c)[0].children[3];
    assert_eq!(
        kinds(&body.children),
        vec![
            NodeType::IntegerLiteral,
            NodeType::FloatLiteral,
            NodeType::StringLiteral,
            NodeType::CStringLiteral,
            NodeType::BooleanLiteral,
            NodeType::BooleanLiteral,
            NodeType::UnitLiteral,
            NodeType::SizeOf,
            NodeType::AddressOf,
            NodeType::Deref,
            NodeType::NamespaceAccess,
        ]
    );
    assert_eq!(name_of(&c, &body.children[4]), "true");
    let access = &body.children[10];
    assert_eq!(kinds(&access.children), vec![NodeType::ArgumentList]);
    assert_eq!(kinds(&access.children[0].children), vec![NodeType::U8Type]);
}

#[test]
fn statements_in_blocks() {
    let c = parsed(
        "fun f() { loop { break; continue; } while x < 3 { x += 1; } if a { } else if b { y = 2; } else { z %= 3; } }",
    );
    assert_eq!(c.errors().len(), 0);
    let body = &nodes_of(&c)[0].children[3];
    assert_eq!(kinds(&body.children), vec![NodeType::Loop, NodeType::While, NodeType::If]);
    assert_eq!(
        kinds(&body.children[0].children[0].children),
        vec![NodeType::Break, NodeType::Continue]
    );
    let while_node = &body.children[1];
    assert_eq!(kinds(&while_node.children), vec![NodeType::LessThan, NodeType::Block]);
    assert_eq!(kinds(&while_node.children[1].children), vec![NodeType::AssignAdd]);
    let if_node = &body.children[2];
    assert_eq!(
        kinds(&if_node.children),
        vec![NodeType::NamespaceAccess, NodeType::Block, NodeType::Block]
    );
    let wrapped = &if_node.children[2];
    assert_eq!(kinds(&wrapped.children), vec![NodeType::If]);
    let nested = &wrapped.children[0];
    assert_eq!(kinds(&nested.children[1].children), vec![NodeType::Assign]);
    assert_eq!(kinds(&nested.children[2].children), vec![NodeType::AssignRemainder]);
}

#[test]
fn if_without_else_gets_an_empty_block() {
    let c = parsed("fun f() { if a { b; } }");
    let if_node = &nodes_of(&c)[0].children[3].children[0];
    assert_eq!(if_node.children.len(), 3);
    assert_eq!(if_node.children[2].t, NodeType::Block);
    assert_eq!(if_node.children[2].children.len(), 0);
}

#[test]
fn declarations_are_forbidden_in_blocks() {
    for text in [
        "fun f() { mod a; }",
        "fun f() { use a; }",
        "fun f() { struct A(); }",
        "fun f() { enum A; }",
        "fun f() { interface A; }",
        "fun f() { fun g(); }",
    ] {
        let c = parsed(text);
        assert_eq!(c.errors().len(), 1);
        assert!(c.errors()[0].reason.starts_with("unexpected `"));
        assert_eq!(c.errors()[0].marked.unwrap().start, 10);
    }
    let c = parsed("return 1;");
    assert_eq!(c.errors().len(), 1);
    assert_eq!(c.errors()[0].reason, "unexpected `return`");
}

#[test]
fn used_paths_expand_groups() {
    let c = parsed("use A::(B, C)::(D, E); use x::*;");
    assert_eq!(c.errors().len(), 0);
    let nodes = nodes_of(&c);
    assert_eq!(kinds(nodes), vec![NodeType::UsageDecl, NodeType::UsageDecl]);
    let used: Vec<String> = nodes[0].children.iter().map(|n| path_of(&c, n)).collect();
    assert_eq!(used, vec!["A::B::D", "A::B::E", "A::C::D", "A::C::E"]);
    assert_eq!(kinds(&nodes[0].children), vec![NodeType::UsedPath; 4]);
    let wild: Vec<String> = nodes[1].children.iter().map(|n| path_of(&c, n)).collect();
    assert_eq!(wild, vec!["x::*"]);
}

#[test]
fn struct_declaration() {
    let c = parsed("pub struct Pair[A, B](first A, second B)");
    assert_eq!(c.errors().len(), 0);
    let decl = &nodes_of(&c)[0];
    assert_eq!(decl.t, NodeType::StructDecl);
    assert_eq!(name_of(&c, decl), "Pair");
    assert_eq!(
        kinds(&decl.children),
        vec![NodeType::IsPublic, NodeType::ArgumentList, NodeType::ArgumentList]
    );
    assert_eq!(decl.children[1].children.len(), 2);
    assert_eq!(decl.children[2].children.len(), 2);
}

#[test]
fn reserved_syntax_is_reported_as_not_implemented() {
    for text in ["enum Color { }", "interface Shape { }", "struct A(): Shape;", "var f fun = 1;"] {
        let c = parsed(text);
        assert_eq!(c.errors().len(), 1);
        assert_eq!(c.errors()[0].reason, "not yet implemented");
        assert_eq!(kinds(nodes_of(&c)), vec![NodeType::Invalid]);
    }
}

#[test]
fn parsing_ends_on_any_input() {
    for text in [
        "",
        ";;;;",
        "}}}}",
        "((((((((",
        "fun fun fun fun",
        "use ((((a",
        "var x [[[[",
        "fun f() { if if if { { {",
        "pub pub ext exp \"",
        "fun f() { a(b(c(d(e(",
        "mod a::b::",
        "\u{1F602}\u{1F602} ? $ @",
    ] {
        let c = parsed(text);
        assert!(c.errors().len() <= text.len());
    }
}
