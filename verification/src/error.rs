//! Diagnostics: a reason and, where known, the source range it is about.

use vstd::prelude::*;
use vstd::string::*;
use std::ops::Range;
use crate::frontend::lexer::{CharClass, lemma_run_end_bounds, run_end};
use crate::source::{GridPos, Source, grid_pos};
use crate::strings::text_at;
use crate::text::{
    byte_len, char_width, decimal, decimal_chars, offset_of, push_chars, push_repeated, repeated,
};
use crate::Compiler;

verus! {

/// A diagnostic.
#[derive(Debug, Clone, PartialEq, Eq, Hash)]
pub struct Error {
    pub reason: String,
    pub marked: Option<Source>,
}

/// What a diagnostic says, as plain values.
pub struct ErrorView {
    pub reason: Seq<char>,
    pub marked: Option<Source>,
}

impl View for Error {
    type V = ErrorView;

    open spec fn view(&self) -> ErrorView {
        ErrorView { reason: self.reason@, marked: self.marked }
    }
}

/// The views of a list of diagnostics.
pub open spec fn error_views(errors: Seq<Error>) -> Seq<ErrorView> {
    Seq::new(errors.len(), |i: int| errors[i]@)
}

impl Error {
    /// A diagnostic about `marked` with a reason built at run time.
    pub fn dynamic(reason: String, marked: Source) -> (r: Error)
        ensures
            r@ == (ErrorView { reason: reason@, marked: Some(marked) }),
    {
        Error { reason, marked: Some(marked) }
    }

    /// A diagnostic about `marked` with a fixed reason.
    pub fn fixed(reason: &str, marked: Source) -> (r: Error)
        ensures
            r@ == (ErrorView { reason: reason@, marked: Some(marked) }),
    {
        Error { reason: reason.to_string(), marked: Some(marked) }
    }

    /// A diagnostic that is about no place in any file.
    pub fn message(reason: String) -> (r: Error)
        ensures
            r@ == (ErrorView { reason: reason@, marked: None }),
    {
        Error { reason, marked: None }
    }

    /// The diagnostic as text: the place, the reason, and the lines of the
    /// source that it is about, each with a row of carets under what is
    /// marked. `colored` adds ANSI colours.
    pub fn display(&self, c: &Compiler, colored: bool) -> (r: String)
        requires
            c.wf(),
            self.marked matches Some(marked) ==> c.has_file(marked.file),
        ensures
            r@ == match self.marked {
                Some(marked) => rendered(
                    styles(colored),
                    text_at(c.strings@, marked.file),
                    c.file_text(marked.file),
                    self.reason@,
                    grid_pos(c.file_text(marked.file), marked.start as int),
                    grid_pos(c.file_text(marked.file), marked.end as int),
                ),
                None => rendered_message(styles(colored), self.reason@),
            },
    {
        let style_red: &'static str = if colored {
            "\x1b[91m"
        } else {
            ""
        };
        let style_gray: &'static str = if colored {
            "\x1b[90m"
        } else {
            ""
        };
        let style_bold: &'static str = if colored {
            "\x1b[1m"
        } else {
            ""
        };
        let style_reset: &'static str = if colored {
            "\x1b[0m"
        } else {
            ""
        };
        let ghost st = styles(colored);
        let mut r: String = String::new();
        match self.marked {
            Some(marked) => {
                let marked_gp: Range<GridPos> = marked.compute_grid_pos(c);
                let file: &Vec<char> = c.file_chars(marked.file);
                let ghost start = (marked_gp.start.line as int, marked_gp.start.column as int);
                let ghost end = (marked_gp.end.line as int, marked_gp.end.column as int);
                proof {
                    crate::source::lemma_locate_bounds(file@, 0, 0, 0, 0, marked.start as int);
                    crate::source::lemma_locate_bounds(file@, 0, 0, 0, 0, marked.end as int);
                }
                r.append(c.strings.text(marked.file));
                r.push(':');
                r.append(crate::text::text_of(&decimal_chars(marked_gp.start.line + 1)).as_str());
                r.push(':');
                r.append(
                    crate::text::text_of(&decimal_chars(marked_gp.start.column + 1)).as_str(),
                );
                r.append(": ");
                r.append(style_red);
                r.append(style_bold);
                r.append("error: ");
                r.append(style_reset);
                r.append(self.reason.as_str());
                r.push('\n');
                assert(r@ =~= header(
                    st,
                    text_at(c.strings@, marked.file),
                    self.reason@,
                    start,
                ));
                let number_width: usize = decimal_chars(marked_gp.end.line + 1).len();
                let mut line: usize = marked_gp.start.line;
                let mut at: usize = skip_lines_in(file, marked_gp.start.line);
                while line <= marked_gp.end.line
                    invariant
                        4 * file.len() <= usize::MAX,
                        marked_gp.end.line <= file.len(),
                        marked_gp.start.line <= line,
                        line <= file.len() + 1,
                        at <= file.len(),
                        at == skip_lines(file@, 0, line as int),
                        number_width == decimal((end.0 + 1) as nat).len(),
                        st == styles(colored),
                        style_red@ == st.red,
                        style_gray@ == st.gray,
                        style_bold@ == st.bold,
                        style_reset@ == st.reset,
                        start == (marked_gp.start.line as int, marked_gp.start.column as int),
                        end == (marked_gp.end.line as int, marked_gp.end.column as int),
                        rendered_lines(r@, st, file@, line as int, start, end) == rendered_lines(
                            header(st, text_at(c.strings@, marked.file), self.reason@, start),
                            st,
                            file@,
                            start.0,
                            start,
                            end,
                        ),
                    decreases marked_gp.end.line + 1 - line,
                {
                    let ghost before = r@;
                    let line_n: Vec<char> = decimal_chars(line + 1);
                    proof {
                        crate::text::lemma_decimal_len_monotone(
                            (line + 1) as nat,
                            (end.0 + 1) as nat,
                        );
                        lemma_run_end_bounds(file@, at as int, CharClass::NotLineFeed);
                    }
                    let stop: usize = line_end_in(file, at);
                    r.append(style_gray);
                    r.push(' ');
                    push_repeated(&mut r, ' ', number_width - line_n.len());
                    push_chars(&mut r, &line_n, 0, line_n.len());
                    r.append(" | ");
                    r.append(style_reset);
                    push_chars(&mut r, file, at, stop);
                    r.push('\n');
                    r.append(style_gray);
                    r.push(' ');
                    push_repeated(&mut r, ' ', number_width);
                    r.append(" | ");
                    r.append(style_red);
                    r.append(style_bold);
                    let length: usize = byte_length(file, at, stop);
                    let shown: usize = if line == marked_gp.end.line && marked_gp.end.column
                        < length {
                        marked_gp.end.column
                    } else {
                        length
                    };
                    let blank: usize = if line == marked_gp.start.line {
                        if marked_gp.start.column < shown {
                            marked_gp.start.column
                        } else {
                            shown
                        }
                    } else {
                        0
                    };
                    push_repeated(&mut r, ' ', blank);
                    push_repeated(&mut r, '^', shown - blank);
                    r.append(style_reset);
                    r.push('\n');
                    proof {
                        assert(line_n@.subrange(0, line_n.len() as int) =~= line_n@);
                        assert(repeated(' ', blank as nat) + repeated('^', (shown - blank) as nat)
                            =~= carets(
                            byte_len(file@.subrange(at as int, stop as int)),
                            line as int,
                            start,
                            end,
                        ));
                        assert(r@ =~= rendered_line(before, st, file@, line as int, start, end));
                    }
                    at = if stop < file.len() {
                        stop + 1
                    } else {
                        stop
                    };
                    proof {
                        lemma_skip_lines_next(file@, line as int);
                    }
                    line = line + 1;
                }
            },
            None => {
                r.append(style_red);
                r.append(style_bold);
                r.append("error: ");
                r.append(style_reset);
                r.append(self.reason.as_str());
                r.push('\n');
                assert(r@ =~= rendered_message(st, self.reason@));
            },
        }
        r
    }
}

/// The escape sequences that set off parts of a rendered diagnostic; all
/// empty where no colour is wanted.
pub struct Styles {
    pub red: Seq<char>,
    pub gray: Seq<char>,
    pub bold: Seq<char>,
    pub reset: Seq<char>,
}

/// The styles with or without colour.
pub open spec fn styles(colored: bool) -> Styles {
    if colored {
        Styles { red: "\x1b[91m"@, gray: "\x1b[90m"@, bold: "\x1b[1m"@, reset: "\x1b[0m"@ }
    } else {
        Styles { red: ""@, gray: ""@, bold: ""@, reset: ""@ }
    }
}

/// A diagnostic that is about no place: `error: ` and the reason.
pub open spec fn rendered_message(st: Styles, reason: Seq<char>) -> Seq<char> {
    (st.red + st.bold + "error: "@ + st.reset + reason).push('\n')
}

/// The first line of a diagnostic: file, line and column, counted from one,
/// then `error: ` and the reason.
pub open spec fn header(st: Styles, file: Seq<char>, reason: Seq<char>, start: (int, int)) -> Seq<
    char,
> {
    ((file.push(':') + decimal((start.0 + 1) as nat)).push(':') + decimal((start.1 + 1) as nat)
        + ": "@ + st.red + st.bold + "error: "@ + st.reset + reason).push('\n')
}

/// The index of the character at which the line `count` lines after the
/// character `from` starts; the end of the text if there are fewer lines.
pub open spec fn skip_lines(text: Seq<char>, from: int, count: int) -> int
    decreases count,
{
    if count <= 0 {
        from
    } else {
        let before = skip_lines(text, from, count - 1);
        let end = run_end(text, before, CharClass::NotLineFeed);
        if 0 <= end < text.len() {
            end + 1
        } else {
            end
        }
    }
}

/// The text of the line `line`, counted from zero, without its line feed.
pub open spec fn line_text(text: Seq<char>, line: int) -> Seq<char> {
    text.subrange(
        skip_lines(text, 0, line),
        run_end(text, skip_lines(text, 0, line), CharClass::NotLineFeed),
    )
}

/// The row of carets under a line of `length` bytes: a caret under every
/// byte that is marked, blanks before the first of them, nothing after the
/// last. A byte is marked if it lies at or after the start column on the
/// first line, before the end column on the last line, and anywhere on the
/// lines between.
pub open spec fn carets(length: int, line: int, start: (int, int), end: (int, int)) -> Seq<char> {
    let shown = if line == end.0 && end.1 < length {
        end.1
    } else {
        length
    };
    Seq::new(
        shown as nat,
        |b: int|
            if line == start.0 && b < start.1 {
                ' '
            } else {
                '^'
            },
    )
}

/// `out` followed by the line `line` and the row of carets under it, each
/// behind a margin: the line number, right-aligned, before the line, blanks
/// before the carets.
pub open spec fn rendered_line(
    out: Seq<char>,
    st: Styles,
    text: Seq<char>,
    line: int,
    start: (int, int),
    end: (int, int),
) -> Seq<char> {
    let number = decimal((line + 1) as nat);
    let number_width = decimal((end.0 + 1) as nat).len();
    (((out + st.gray).push(' ') + repeated(' ', (number_width - number.len()) as nat) + number
        + " | "@ + st.reset + line_text(text, line)).push('\n') + st.gray).push(' ') + repeated(
        ' ',
        number_width,
    ) + " | "@ + st.red + st.bold + carets(byte_len(line_text(text, line)), line, start, end)
        + st.reset.push('\n')
}

/// `out` followed by the lines from `line` to the last marked line.
pub open spec fn rendered_lines(
    out: Seq<char>,
    st: Styles,
    text: Seq<char>,
    line: int,
    start: (int, int),
    end: (int, int),
) -> Seq<char>
    decreases end.0 + 1 - line,
{
    if line > end.0 {
        out
    } else {
        rendered_lines(rendered_line(out, st, text, line, start, end), st, text, line + 1, start, end)
    }
}

/// A diagnostic about the bytes between the grid positions `start` and
/// `end` of the file `file` with the text `text`.
pub open spec fn rendered(
    st: Styles,
    file: Seq<char>,
    text: Seq<char>,
    reason: Seq<char>,
    start: (int, int),
    end: (int, int),
) -> Seq<char> {
    rendered_lines(header(st, file, reason, start), st, text, start.0, start, end)
}

proof fn lemma_skip_lines_next(text: Seq<char>, line: int)
    requires
        0 <= line,
    ensures
        skip_lines(text, 0, line + 1) == ({
            let end = run_end(text, skip_lines(text, 0, line), CharClass::NotLineFeed);
            if 0 <= end < text.len() {
                end + 1
            } else {
                end
            }
        }),
{
}

fn line_end_in(chars: &Vec<char>, from: usize) -> (r: usize)
    requires
        from <= chars.len(),
    ensures
        r == run_end(chars@, from as int, CharClass::NotLineFeed),
        from <= r <= chars.len(),
{
    let mut i: usize = from;
    while i < chars.len() && chars[i] != '\n'
        invariant
            from <= i <= chars.len(),
            run_end(chars@, i as int, CharClass::NotLineFeed) == run_end(
                chars@,
                from as int,
                CharClass::NotLineFeed,
            ),
        decreases chars.len() - i,
    {
        i = i + 1;
    }
    i
}

fn skip_lines_in(chars: &Vec<char>, count: usize) -> (r: usize)
    ensures
        r == skip_lines(chars@, 0, count as int),
        r <= chars.len(),
{
    let mut at: usize = 0;
    let mut line: usize = 0;
    while line < count
        invariant
            line <= count,
            at <= chars.len(),
            at == skip_lines(chars@, 0, line as int),
        decreases count - line,
    {
        let stop = line_end_in(chars, at);
        at = if stop < chars.len() {
            stop + 1
        } else {
            stop
        };
        proof {
            lemma_skip_lines_next(chars@, line as int);
        }
        line = line + 1;
    }
    at
}

fn byte_length(chars: &Vec<char>, from: usize, to: usize) -> (r: usize)
    requires
        from <= to <= chars.len(),
        4 * chars.len() <= usize::MAX,
    ensures
        r == byte_len(chars@.subrange(from as int, to as int)),
{
    let ghost part = chars@.subrange(from as int, to as int);
    let mut total: usize = 0;
    let mut i: usize = from;
    while i < to
        invariant
            from <= i <= to <= chars.len(),
            4 * chars.len() <= usize::MAX,
            part == chars@.subrange(from as int, to as int),
            total == offset_of(part, i - from),
            total <= 4 * (i - from),
        decreases to - i,
    {
        total = total + char_width(chars[i]);
        i = i + 1;
    }
    total
}

} // verus!
