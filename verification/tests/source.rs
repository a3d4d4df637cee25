use tolac::{Compiler, GridPos, Source, StringIdx};

fn compiler_with(text: &str) -> Compiler {
    let mut c = Compiler::new();
    c.parse("main.tola", text.to_string());
    c
}

fn position(c: &Compiler, offset: usize) -> GridPos {
    Source::new(c.files[0].path, offset, offset).compute_grid_pos(c).start
}

#[test]
fn across_takes_the_start_of_one_and_the_end_of_the_other() {
    let a = Source::new(StringIdx(3), 4, 9);
    let b = Source::new(StringIdx(5), 20, 31);
    assert_eq!(Source::across(a, b), Source { file: StringIdx(3), start: 4, end: 31 });
    assert_eq!(GridPos::new(2, 7), GridPos { line: 2, column: 7 });
}

#[test]
fn grid_positions_count_lines_and_bytes() {
    let c = compiler_with("ab\ncd\n# \u{e9}x");
    assert_eq!(position(&c, 0), GridPos::new(0, 0));
    assert_eq!(position(&c, 2), GridPos::new(0, 2));
    assert_eq!(position(&c, 3), GridPos::new(1, 0));
    assert_eq!(position(&c, 5), GridPos::new(1, 2));
    assert_eq!(position(&c, 6), GridPos::new(2, 0));
    assert_eq!(position(&c, 8), GridPos::new(2, 2));
    assert_eq!(position(&c, 9), GridPos::new(2, 3));
    assert_eq!(position(&c, 10), GridPos::new(2, 4));
    assert_eq!(position(&c, 11), GridPos::new(2, 5));
    assert_eq!(position(&c, 500), GridPos::new(2, 5));
}

#[test]
fn grid_position_of_a_range_has_both_ends() {
    let c = compiler_with("fun a() {\n}\n");
    let range = Source::new(c.files[0].path, 4, 10).compute_grid_pos(&c);
    assert_eq!(range.start, GridPos::new(0, 4));
    assert_eq!(range.end, GridPos::new(1, 0));
}

#[test]
fn later_offsets_have_later_grid_positions() {
    let c = compiler_with("x\n\ny # \u{1F602}\nvar\n");
    for start in 0..20 {
        for end in start..20 {
            let range = Source::new(c.files[0].path, start, end).compute_grid_pos(&c);
            assert!(
                range.start.line < range.end.line
                    || (range.start.line == range.end.line
                        && range.start.column <= range.end.column)
            );
        }
    }
}
