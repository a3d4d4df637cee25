//! Source ranges as byte offsets, and their line and column on demand.

use vstd::prelude::*;
use std::ops::Range;
use crate::strings::StringIdx;
use crate::text::{width, char_width};
use crate::Compiler;

verus! {

/// A line and a column, both counted from zero. The column counts bytes.
#[derive(Debug, Copy, Clone, PartialEq, Eq, Hash, Structural)]
pub struct GridPos {
    pub line: usize,
    pub column: usize,
}

impl GridPos {
    /// The grid position at `line` and `column`.
    pub fn new(line: usize, column: usize) -> (r: GridPos)
        ensures
            r.line == line,
            r.column == column,
    {
        GridPos { line, column }
    }
}

/// A range of bytes `start..end` in the file `file`.
#[derive(Debug, Copy, Clone, PartialEq, Eq, Hash, Structural)]
pub struct Source {
    pub file: StringIdx,
    pub start: usize,
    pub end: usize,
}

/// Line and column of the byte offset `target`, found by scanning `text`
/// forward from its character `k`, which starts at byte `b` and stands at
/// `(line, column)`. A line feed starts a new line; every other byte
/// advances the column by one. Offsets past the end resolve to the end.
pub open spec fn locate(
    text: Seq<char>,
    k: int,
    b: int,
    line: int,
    column: int,
    target: int,
) -> (int, int)
    decreases text.len() - k,
{
    if k < 0 || k >= text.len() {
        (line, column)
    } else if target < b + width(text[k]) {
        (line, column + (target - b))
    } else if text[k] == '\n' {
        locate(text, k + 1, b + 1, line + 1, 0, target)
    } else {
        locate(text, k + 1, b + width(text[k]), line, column + width(text[k]), target)
    }
}

/// Line and column of the byte offset `target` in `text`.
pub open spec fn grid_pos(text: Seq<char>, target: int) -> (int, int) {
    locate(text, 0, 0, 0, 0, target)
}

/// Lexicographic order on lines and columns.
pub open spec fn grid_le(a: (int, int), b: (int, int)) -> bool {
    a.0 < b.0 || (a.0 == b.0 && a.1 <= b.1)
}

/// A scan never yields a position before the one it starts from, and stays
/// within the bytes that are left.
pub proof fn lemma_locate_bounds(
    text: Seq<char>,
    k: int,
    b: int,
    line: int,
    column: int,
    target: int,
)
    requires
        0 <= k <= text.len(),
        b <= target,
        0 <= line,
        0 <= column,
    ensures
        grid_le((line, column), locate(text, k, b, line, column, target)),
        locate(text, k, b, line, column, target).0 <= line + (text.len() - k),
        locate(text, k, b, line, column, target).1 <= column + 4 * (text.len() - k),
    decreases text.len() - k,
{
    if k < text.len() {
        let w = width(text[k]);
        if target < b + w {
        } else if text[k] == '\n' {
            lemma_locate_bounds(text, k + 1, b + 1, line + 1, 0, target);
        } else {
            lemma_locate_bounds(text, k + 1, b + w, line, column + w, target);
        }
    }
}

proof fn lemma_locate_monotone(
    text: Seq<char>,
    k: int,
    b: int,
    line: int,
    column: int,
    first: int,
    second: int,
)
    requires
        0 <= k <= text.len(),
        b <= first <= second,
        0 <= line,
        0 <= column,
    ensures
        grid_le(
            locate(text, k, b, line, column, first),
            locate(text, k, b, line, column, second),
        ),
    decreases text.len() - k,
{
    if k < text.len() {
        let w = width(text[k]);
        if first < b + w {
            if second < b + w {
            } else if text[k] == '\n' {
                lemma_locate_bounds(text, k + 1, b + 1, line + 1, 0, second);
            } else {
                lemma_locate_bounds(text, k + 1, b + w, line, column + w, second);
            }
        } else if text[k] == '\n' {
            lemma_locate_monotone(text, k + 1, b + 1, line + 1, 0, first, second);
        } else {
            lemma_locate_monotone(text, k + 1, b + w, line, column + w, first, second);
        }
    }
}

/// Grid positions are monotone: of two offsets into one text, the later one
/// never lies on an earlier line, nor on the same line at an earlier column.
pub proof fn lemma_grid_pos_monotone(text: Seq<char>, start: int, end: int)
    requires
        0 <= start <= end,
    ensures
        grid_le(grid_pos(text, start), grid_pos(text, end)),
{
    lemma_locate_monotone(text, 0, 0, 0, 0, start, end);
}

/// Line and column of `target` in `chars`.
pub fn grid_pos_in(chars: &Vec<char>, target: usize) -> (r: GridPos)
    requires
        4 * chars.len() <= usize::MAX,
    ensures
        (r.line as int, r.column as int) == grid_pos(chars@, target as int),
{
    let mut k: usize = 0;
    let mut b: usize = 0;
    let mut line: usize = 0;
    let mut column: usize = 0;
    while k < chars.len()
        invariant
            4 * chars.len() <= usize::MAX,
            k <= chars.len(),
            b <= target,
            b <= 4 * k,
            line <= k,
            column <= 4 * k,
            grid_pos(chars@, target as int) == locate(
                chars@,
                k as int,
                b as int,
                line as int,
                column as int,
                target as int,
            ),
        decreases chars.len() - k,
    {
        let w: usize = char_width(chars[k]);
        if target - b < w {
            return GridPos { line, column: column + (target - b) };
        }
        if chars[k] == '\n' {
            line = line + 1;
            column = 0;
        } else {
            column = column + w;
        }
        b = b + w;
        k = k + 1;
    }
    GridPos { line, column }
}

impl Source {
    /// The bytes `start..end` of the file `file`.
    pub fn new(file: StringIdx, start: usize, end: usize) -> (r: Source)
        ensures
            r.file == file,
            r.start == start,
            r.end == end,
    {
        Source { file, start, end }
    }

    /// The range from the start of `start` to the end of `end`, in the file
    /// of `start`.
    pub fn across(start: Source, end: Source) -> (r: Source)
        ensures
            r.file == start.file,
            r.start == start.start,
            r.end == end.end,
    {
        Source { file: start.file, start: start.start, end: end.end }
    }

    /// Line and column of both ends of the range, in the contents that `c`
    /// holds for its file.
    pub fn compute_grid_pos(&self, c: &Compiler) -> (r: Range<GridPos>)
        requires
            c.wf(),
            c.has_file(self.file),
        ensures
            (r.start.line as int, r.start.column as int) == grid_pos(
                c.file_text(self.file),
                self.start as int,
            ),
            (r.end.line as int, r.end.column as int) == grid_pos(
                c.file_text(self.file),
                self.end as int,
            ),
    {
        let chars = c.file_chars(self.file);
        let start = grid_pos_in(chars, self.start);
        let end = grid_pos_in(chars, self.end);
        start..end
    }
}

} // verus!
