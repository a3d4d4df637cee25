use tolac::{Compiler, Error, Source};

fn compiler_with(text: &str) -> Compiler {
    let mut c = Compiler::new();
    c.parse("main.tola", text.to_string());
    c
}

#[test]
fn constructors() {
    let at = Source::new(tolac::StringIdx(0), 1, 2);
    assert_eq!(
        Error::dynamic("a".to_string(), at),
        Error { reason: "a".to_string(), marked: Some(at) }
    );
    assert_eq!(Error::fixed("b", at), Error { reason: "b".to_string(), marked: Some(at) });
    assert_eq!(Error::message("c".to_string()), Error { reason: "c".to_string(), marked: None });
}

#[test]
fn a_message_is_one_line() {
    let c = Compiler::new();
    let error = Error::message("the file 'x' could not be read".to_string());
    assert_eq!(error.display(&c, false), "error: the file 'x' could not be read\n");
    assert_eq!(
        error.display(&c, true),
        "\x1b[91m\x1b[1merror: \x1b[0mthe file 'x' could not be read\n"
    );
}

#[test]
fn one_line_with_carets() {
    let c = compiler_with("var x u8;");
    assert_eq!(c.errors().len(), 1);
    assert_eq!(
        c.errors()[0].display(&c, false),
        "main.tola:1:9: error: unexpected `;` after `u8`\n 1 | var x u8;\n   |         ^\n"
    );
    assert_eq!(
        c.errors()[0].display(&c, true),
        "main.tola:1:9: \x1b[91m\x1b[1merror: \x1b[0munexpected `;` after `u8`\n\x1b[90m 1 | \x1b[0mvar x u8;\n\x1b[90m   | \x1b[91m\x1b[1m        ^\x1b[0m\n"
    );
}

#[test]
fn several_lines_with_carets() {
    let c = compiler_with("ab\ncdef\ngh");
    let error = Error::fixed("boom", Source::new(c.files[0].path, 1, 9));
    assert_eq!(
        error.display(&c, false),
        "main.tola:1:2: error: boom\n 1 | ab\n   |  ^\n 2 | cdef\n   | ^^^^\n 3 | gh\n   | ^\n"
    );
}

#[test]
fn line_numbers_are_right_aligned() {
    let c = compiler_with("#1\n#2\n#3\n#4\n#5\n#6\n#7\n#8\n#9 \u{e9}\n#10\n");
    let error = Error::fixed("wide", Source::new(c.files[0].path, 27, 32));
    assert_eq!(
        error.display(&c, false),
        "main.tola:9:4: error: wide\n  9 | #9 \u{e9}\n    |    ^^\n 10 | #10\n    | ^^\n"
    );
}
