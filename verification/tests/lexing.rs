use tolac::{Compiler, Lexer, Token, TokenType};

fn raw_tokens(text: &str) -> (Compiler, Vec<Token>) {
    let mut c = Compiler::new();
    let file = c.strings.insert("main.tola");
    let mut lexer = Lexer::new(file, text.to_string());
    let mut tokens = Vec::new();
    loop {
        let token = lexer.next_raw(&mut c);
        tokens.push(token);
        if token.t == TokenType::EndOfFile {
            break;
        }
    }
    (c, tokens)
}

fn tokens(text: &str) -> (Compiler, Vec<Token>) {
    let mut c = Compiler::new();
    let file = c.strings.insert("main.tola");
    let mut lexer = Lexer::new(file, text.to_string());
    let mut tokens = Vec::new();
    loop {
        let token = lexer.next(&mut c);
        tokens.push(token);
        if token.t == TokenType::EndOfFile {
            break;
        }
    }
    (c, tokens)
}

fn kinds(text: &str) -> Vec<TokenType> {
    tokens(text).1.iter().map(|t| t.t).collect()
}

#[test]
fn keywords_and_identifiers() {
    assert_eq!(
        kinds("pub ext exp mod use struct fun var enum interface"),
        vec![
            TokenType::KeywordPub,
            TokenType::KeywordExt,
            TokenType::KeywordExp,
            TokenType::KeywordMod,
            TokenType::KeywordUse,
            TokenType::KeywordStruct,
            TokenType::KeywordFun,
            TokenType::KeywordVar,
            TokenType::KeywordEnum,
            TokenType::KeywordInterface,
            TokenType::EndOfFile,
        ]
    );
    assert_eq!(
        kinds("if else loop while return continue break as sizeof const true false unit"),
        vec![
            TokenType::KeywordIf,
            TokenType::KeywordElse,
            TokenType::KeywordLoop,
            TokenType::KeywordWhile,
            TokenType::KeywordReturn,
            TokenType::KeywordContinue,
            TokenType::KeywordBreak,
            TokenType::KeywordAs,
            TokenType::KeywordSizeof,
            TokenType::KeywordConst,
            TokenType::KeywordTrue,
            TokenType::KeywordFalse,
            TokenType::KeywordUnit,
            TokenType::EndOfFile,
        ]
    );
    assert_eq!(
        kinds("u8 u16 u32 u64 s8 s16 s32 s64 f32 f64 usize bool"),
        vec![
            TokenType::KeywordU8,
            TokenType::KeywordU16,
            TokenType::KeywordU32,
            TokenType::KeywordU64,
            TokenType::KeywordS8,
            TokenType::KeywordS16,
            TokenType::KeywordS32,
            TokenType::KeywordS64,
            TokenType::KeywordF32,
            TokenType::KeywordF64,
            TokenType::KeywordUsize,
            TokenType::KeywordBool,
            TokenType::EndOfFile,
        ]
    );
    assert_eq!(
        kinds("_x iff u128 Fun x1"),
        vec![
            TokenType::Identifier,
            TokenType::Identifier,
            TokenType::Identifier,
            TokenType::Identifier,
            TokenType::Identifier,
            TokenType::EndOfFile,
        ]
    );
}

#[test]
fn numbers() {
    let (c, tokens) = tokens("12 3.25 7. 8");
    assert_eq!(tokens[0].t, TokenType::Integer);
    assert_eq!(c.strings.get(tokens[0].content), "12");
    assert_eq!(tokens[1].t, TokenType::Float);
    assert_eq!(c.strings.get(tokens[1].content), "3.25");
    assert_eq!(tokens[2].t, TokenType::Float);
    assert_eq!(c.strings.get(tokens[2].content), "7.");
    assert_eq!(tokens[3].t, TokenType::Integer);
    assert_eq!(tokens[4].t, TokenType::EndOfFile);
}

#[test]
fn punctuation_is_read_greedily() {
    assert_eq!(
        kinds("+= -= *= /= %= <= >= == != && || ::"),
        vec![
            TokenType::PlusEqual,
            TokenType::MinusEqual,
            TokenType::AsteriskEqual,
            TokenType::SlashEqual,
            TokenType::PercentEqual,
            TokenType::LessThanEqual,
            TokenType::GreaterThanEqual,
            TokenType::DoubleEqual,
            TokenType::NotEqual,
            TokenType::DoubleAmpersand,
            TokenType::DoublePipe,
            TokenType::DoubleColon,
            TokenType::EndOfFile,
        ]
    );
    assert_eq!(
        kinds("{}[]()=+-*/%<>!:,;.&"),
        vec![
            TokenType::BraceOpen,
            TokenType::BraceClose,
            TokenType::BracketOpen,
            TokenType::BracketClose,
            TokenType::ParenOpen,
            TokenType::ParenClose,
            TokenType::Equal,
            TokenType::Plus,
            TokenType::Minus,
            TokenType::Asterisk,
            TokenType::Slash,
            TokenType::Percent,
            TokenType::LessThan,
            TokenType::GreaterThan,
            TokenType::ExclamationMark,
            TokenType::Colon,
            TokenType::Comma,
            TokenType::Semicolon,
            TokenType::Dot,
            TokenType::Ampersand,
            TokenType::EndOfFile,
        ]
    );
    assert_eq!(
        kinds("a:::b===c"),
        vec![
            TokenType::Identifier,
            TokenType::DoubleColon,
            TokenType::Colon,
            TokenType::Identifier,
            TokenType::DoubleEqual,
            TokenType::Equal,
            TokenType::Identifier,
            TokenType::EndOfFile,
        ]
    );
}

#[test]
fn white_space_and_comments_are_raw_tokens_only() {
    let (c, raw) = raw_tokens("a \t\r\n# note ;\nb\u{2003}");
    let raw_kinds: Vec<TokenType> = raw.iter().map(|t| t.t).collect();
    assert_eq!(
        raw_kinds,
        vec![
            TokenType::Identifier,
            TokenType::Whitespace,
            TokenType::Comment,
            TokenType::Whitespace,
            TokenType::Identifier,
            TokenType::Whitespace,
            TokenType::EndOfFile,
        ]
    );
    assert_eq!(c.strings.get(raw[2].content), "# note ;");
    assert_eq!(raw[5].source.end - raw[5].source.start, 3);
    assert_eq!(
        kinds("a \t\r\n# note ;\nb\u{2003}"),
        vec![TokenType::Identifier, TokenType::Identifier, TokenType::EndOfFile]
    );
}

#[test]
fn lexes_a_c_string_with_escapes() {
    let (c, tokens) = raw_tokens("c\"Cookie\\n\\u{1F602}\"");
    assert_eq!(tokens.len(), 2);
    assert_eq!(tokens[0].t, TokenType::CString);
    assert_eq!(c.strings.get(tokens[0].content), "Cookie\n\u{1F602}");
    assert_eq!(tokens[0].source.start, 0);
    assert_eq!(tokens[0].source.end, 20);
    assert_eq!(c.errors().len(), 0);
}

#[test]
fn escapes_are_decoded() {
    let (c, tokens) = tokens("\"a\\0b\\nc\\rd\\te\\\nf\\\"g\\\\h\\qi\\u{41}\\u{e9}\"");
    assert_eq!(tokens[0].t, TokenType::String);
    assert_eq!(c.strings.get(tokens[0].content), "a\0b\nc\rd\tef\"g\\hqiA\u{e9}");
    assert_eq!(tokens[1].t, TokenType::EndOfFile);
    assert_eq!(c.errors().len(), 0);
}

#[test]
fn bad_codepoints_become_replacement_characters() {
    for payload in ["", "xyz", "110000", "D800", "+41", "123456789"] {
        let text = format!("\"\\u{{{}}}\"", payload);
        let (c, tokens) = tokens(&text);
        assert_eq!(tokens[0].t, TokenType::String);
        assert_eq!(c.strings.get(tokens[0].content), "\u{FFFD}");
        assert_eq!(c.errors().len(), 1);
        assert_eq!(c.errors()[0].reason, "invalid unicode codepoint sequence");
        assert_eq!(c.errors()[0].marked.unwrap().start, 4);
        assert_eq!(c.errors()[0].marked.unwrap().end, 4 + payload.len());
    }
    let (c, tokens) = tokens("\"\\u{10FFFF}\\u{D7FF}\\u{E000}\"");
    assert_eq!(c.strings.get(tokens[0].content), "\u{10FFFF}\u{D7FF}\u{E000}");
    assert_eq!(c.errors().len(), 0);
}

#[test]
fn unclosed_codepoint_and_string_are_reported() {
    let (c, tokens) = tokens("x \"ab\\u{41");
    assert_eq!(tokens[1].t, TokenType::String);
    assert_eq!(c.strings.get(tokens[1].content), "abA");
    assert_eq!(tokens[1].source.start, 2);
    assert_eq!(tokens[1].source.end, 10);
    assert_eq!(tokens[2].t, TokenType::EndOfFile);
    let reasons: Vec<&str> = c.errors().iter().map(|e| e.reason.as_str()).collect();
    assert_eq!(reasons, vec!["unclosed unicode codepoint sequence", "unclosed string literal"]);
    assert_eq!(c.errors()[0].marked.unwrap().start, 5);
    assert_eq!(c.errors()[0].marked.unwrap().end, 10);
    assert_eq!(c.errors()[1].marked.unwrap().start, 2);
    assert_eq!(c.errors()[1].marked.unwrap().end, 3);
}

#[test]
fn invalid_characters_are_reported_and_skipped() {
    let (c, tokens) = tokens("a ? \u{1F602} $b");
    let kinds: Vec<TokenType> = tokens.iter().map(|t| t.t).collect();
    assert_eq!(kinds, vec![TokenType::Identifier, TokenType::Identifier, TokenType::EndOfFile]);
    assert_eq!(c.errors().len(), 3);
    for error in c.errors() {
        assert_eq!(error.reason, "invalid character");
    }
    assert_eq!(c.errors()[1].marked.unwrap().start, 4);
    assert_eq!(c.errors()[1].marked.unwrap().end, 8);
    let (_, raw) = raw_tokens("?");
    assert_eq!(raw[0].t, TokenType::Invalid);
}

#[test]
fn raw_tokens_cover_the_text() {
    let text = "fun main() { # note\n  x += 1.5; \u{e9}\u{1F602} }";
    let (c, tokens) = raw_tokens(text);
    let mut at = 0;
    for token in &tokens {
        assert_eq!(token.source.start, at);
        at = token.source.end;
        if token.t != TokenType::EndOfFile {
            assert_eq!(c.strings.get(token.content), &text[token.source.start..token.source.end]);
        }
    }
    assert_eq!(at, text.len());
}

#[test]
fn token_display_names_the_token() {
    let (c, tokens) = tokens("while");
    assert_eq!(tokens[0].display(&c), "`while`");
    assert_eq!(tokens[1].display(&c), "end of file");
}
