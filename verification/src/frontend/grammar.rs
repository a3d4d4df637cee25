//! The grammar: what the parser yields, as a function of its state.
//!
//! A state holds the text, the place of the lexer in it, the current and the
//! last token, and the strings, paths and diagnostics of the compiler. Every
//! function here takes a state and gives the state after parsing together
//! with what was parsed. The executable parser is proved to compute these
//! functions.
//!
//! The functions recur only on states with less input left. Where that has
//! to be said before it is known, a function compares `left` of the two
//! states and gives up (`stuck`) if the input did not shrink; the parser's
//! proofs show that this never happens on a well-formed state.

use vstd::prelude::*;
use crate::error::ErrorView;
use crate::frontend::ast::{NodeType, NodeValue, Tree, leaf};
use crate::frontend::lexer::{Token, TokenType, next_from, token_text, lemma_next_from};
use crate::interning::{index_after, pool_after, lemma_intern_sound};
use crate::paths::PathIdx;
use crate::source::Source;
use crate::strings::{StringIdx, text_at};
use crate::types::TypeIdx;

verus! {

/// The state of the parser.
pub struct Parsing {
    pub file: StringIdx,
    pub text: Seq<char>,
    pub cursor: int,
    pub last: Option<Token>,
    pub current: Token,
    pub unknown: TypeIdx,
    pub strings: Seq<Seq<char>>,
    pub paths: Seq<Seq<StringIdx>>,
    pub errors: Seq<ErrorView>,
}

/// A state and what was parsed on the way to it: a value, or the invalid
/// node that stands for what could not be parsed.
pub type Parsed<T> = (Parsing, Result<T, Tree>);

/// Binding strength of what is no infix operator. A smaller number binds
/// tighter.
pub const PREC_NONE: usize = 0;

/// Binding strength of `-x`, `!x`, `&x` and `*x`.
pub const PREC_UNARY: usize = 2;

/// Binding strength of `as`.
pub const PREC_TYPE_CAST: usize = 3;

/// Binding strength of `*`, `/` and `%`.
pub const PREC_MULTIPLY: usize = 4;

/// Binding strength of `+` and `-`.
pub const PREC_ADD: usize = 5;

/// Binding strength of `<`, `<=`, `>` and `>=`.
pub const PREC_COMPARE: usize = 6;

/// Binding strength of `==` and `!=`.
pub const PREC_EQUAL: usize = 7;

/// Binding strength of `&&` and `||`.
pub const PREC_LOGIC: usize = 8;

/// The limit under which every operator binds.
pub const PREC_FULL: usize = usize::MAX;

impl Parsing {
    /// The lexer stands within the text, at its end once the end of the file
    /// was read, and the interners hold nothing twice.
    #[verifier::opaque]
    pub open spec fn wf(self) -> bool {
        &&& 0 <= self.cursor <= self.text.len()
        &&& self.current.t == TokenType::EndOfFile ==> self.cursor == self.text.len()
        &&& self.strings.no_duplicates()
        &&& self.paths.no_duplicates()
    }
}

/// How much input is left: the characters not yet read, and the current
/// token unless it is the end of the file.
pub open spec fn left(s: Parsing) -> nat {
    let unread = if 0 <= s.cursor <= s.text.len() {
        s.text.len() - s.cursor
    } else {
        0
    };
    if s.current.t == TokenType::EndOfFile {
        unread as nat
    } else {
        (unread + 1) as nat
    }
}

/// Makes the next significant token the current one.
#[verifier::opaque]
pub open spec fn next(s: Parsing) -> Parsing {
    let step = next_from(s.file, s.text, s.cursor, s.strings, s.errors);
    Parsing {
        cursor: step.cursor,
        last: Some(s.current),
        current: step.token,
        strings: step.strings,
        errors: step.errors,
        ..s
    }
}

/// The state of a parser that starts at the character `cursor` of `text`:
/// the first significant token from there on is the current one.
#[verifier::opaque]
pub open spec fn begin(
    file: StringIdx,
    text: Seq<char>,
    cursor: int,
    unknown: TypeIdx,
    strings: Seq<Seq<char>>,
    paths: Seq<Seq<StringIdx>>,
    errors: Seq<ErrorView>,
) -> Parsing {
    let step = next_from(file, text, cursor, strings, errors);
    Parsing {
        file,
        text,
        cursor: step.cursor,
        last: None,
        current: step.token,
        unknown,
        strings: step.strings,
        paths,
        errors: step.errors,
    }
}

/// Whether the state `after` can follow `before`: it is well-formed, reads
/// the same text, and has no more input left.
pub open spec fn follows(after: Parsing, before: Parsing) -> bool {
    &&& after.wf()
    &&& after.file == before.file
    &&& after.text == before.text
    &&& after.unknown == before.unknown
    &&& left(after) <= left(before)
}

/// Reading a token leaves less input, unless the end of the file was read
/// before. The token that was the current one is then the last one.
pub proof fn lemma_next(s: Parsing)
    requires
        s.wf(),
    ensures
        follows(next(s), s),
        next(s).last == Some(s.current),
        next(s).paths == s.paths,
        s.current.t != TokenType::EndOfFile ==> left(next(s)) < left(s),
{
    reveal(next);
    reveal(Parsing::wf);
    lemma_next_from(s.file, s.text, s.cursor, s.strings, s.errors);
}

/// A diagnostic more leaves a state well-formed, and as much input.
pub proof fn lemma_with_error(s: Parsing, reason: Seq<char>, marked: Source)
    requires
        s.wf(),
    ensures
        follows(with_error(s, reason, marked), s),
        left(with_error(s, reason, marked)) == left(s),
{
    reveal(Parsing::wf);
}

/// Interning a path leaves a state well-formed, and as much input.
pub proof fn lemma_with_path(s: Parsing, segments: Seq<StringIdx>)
    requires
        s.wf(),
    ensures
        follows(with_path(s, segments).0, s),
        left(with_path(s, segments).0) == left(s),
{
    reveal(Parsing::wf);
    lemma_intern_sound(s.paths, segments);
}

/// The range from the start of `a` to the end of `b`.
pub open spec fn span(a: Source, b: Source) -> Source {
    Source { file: a.file, start: a.start, end: b.end }
}

/// The range of the token read last, or of the current one if none was.
pub open spec fn last_source(s: Parsing) -> Source {
    match s.last {
        Some(token) => token.source,
        None => s.current.source,
    }
}

/// A node that no type was found for yet.
pub open spec fn tree(
    s: Parsing,
    t: NodeType,
    source: Source,
    value: NodeValue,
    children: Seq<Tree>,
) -> Tree {
    Tree { t, source, value, children, result_type: s.unknown }
}

/// The state with one more diagnostic.
pub open spec fn with_error(s: Parsing, reason: Seq<char>, marked: Source) -> Parsing {
    Parsing { errors: s.errors.push(ErrorView { reason, marked: Some(marked) }), ..s }
}

/// The state after interning the path `segments`, and the index of the path.
pub open spec fn with_path(s: Parsing, segments: Seq<StringIdx>) -> (Parsing, PathIdx) {
    (
        Parsing { paths: pool_after(s.paths, segments), ..s },
        PathIdx(index_after(s.paths, segments) as usize),
    )
}

/// Tokens at which recovery from an error ends.
pub open spec fn is_sync(t: TokenType) -> bool {
    t == TokenType::Semicolon || t == TokenType::BraceClose || t == TokenType::EndOfFile
}

/// Skips tokens up to and including the next `;`, `}` or end of the file.
#[verifier::opaque]
pub open spec fn recover(s: Parsing) -> Parsing
    decreases left(s),
{
    let s1 = next(s);
    if is_sync(s.current.t) {
        s1
    } else if left(s1) < left(s) {
        recover(s1)
    } else {
        s1
    }
}

/// The reason given for an unexpected token.
pub open spec fn unexpected_text(s: Parsing) -> Seq<char> {
    "unexpected "@ + token_text(s.strings, s.current) + match s.last {
        Some(token) => " after "@ + token_text(s.strings, token),
        None => Seq::empty(),
    }
}

/// Where an unexpected token is reported: at the token, or at the token
/// before it if the file ended.
pub open spec fn unexpected_source(s: Parsing) -> Source {
    if s.current.t == TokenType::EndOfFile {
        last_source(s)
    } else {
        s.current.source
    }
}

/// The invalid node at the current token.
pub open spec fn invalid(s: Parsing) -> Tree {
    leaf(NodeType::Invalid, s.current.source, s.unknown)
}

/// Reports the current token as unexpected, recovers, and yields an invalid
/// node.
#[verifier::opaque]
pub open spec fn unexpected(s: Parsing) -> (Parsing, Tree) {
    let s1 = if s.current.t != TokenType::Invalid {
        with_error(s, unexpected_text(s), unexpected_source(s))
    } else {
        s
    };
    let s2 = recover(s1);
    (s2, invalid(s2))
}

/// Fails on the current token.
pub open spec fn fail<T>(s: Parsing) -> Parsed<T> {
    (unexpected(s).0, Err(unexpected(s).1))
}

/// Reports at `marked` that something is not implemented yet, recovers, and
/// fails.
#[verifier::opaque]
pub open spec fn unsupported<T>(s: Parsing, marked: Source) -> Parsed<T> {
    let s1 = recover(with_error(s, "not yet implemented"@, marked));
    (s1, Err(invalid(s1)))
}

/// Gives up where the input did not shrink.
pub open spec fn stuck<T>(s: Parsing) -> Parsed<T> {
    (s, Err(invalid(s)))
}

/// Passes if the current token is of one of `kinds`, else fails on it.
pub open spec fn expect(s: Parsing, kinds: Seq<TokenType>) -> Parsed<()> {
    if kinds.contains(s.current.t) {
        (s, Ok(()))
    } else {
        fail(s)
    }
}

/// Passes if the current token is of none of `kinds`, else fails on it.
pub open spec fn expect_not(s: Parsing, kinds: Seq<TokenType>) -> Parsed<()> {
    if !kinds.contains(s.current.t) {
        (s, Ok(()))
    } else {
        fail(s)
    }
}

/// The current token if it is a comma, which is then passed over.
pub open spec fn past_comma(s: Parsing) -> Parsing {
    if s.current.t == TokenType::Comma {
        next(s)
    } else {
        s
    }
}

// ---------------------------------------------------------------- paths

/// The rest of a path `a::b::c` after the segments `segments`.
pub open spec fn path_rest(s: Parsing, segments: Seq<StringIdx>) -> Parsed<PathIdx>
    decreases left(s),
{
    if s.current.t != TokenType::DoubleColon {
        (with_path(s, segments).0, Ok(with_path(s, segments).1))
    } else {
        let s1 = next(s);
        if s1.current.t != TokenType::Identifier {
            fail(s1)
        } else {
            let s2 = next(s1);
            if left(s2) < left(s) {
                path_rest(s2, segments.push(s1.current.content))
            } else {
                stuck(s2)
            }
        }
    }
}

/// A path: identifiers separated by `::`.
pub open spec fn parse_path(s: Parsing) -> Parsed<PathIdx> {
    if s.current.t != TokenType::Identifier {
        fail(s)
    } else {
        path_rest(next(s), seq![s.current.content])
    }
}

// ------------------------------------------------- template parameters

/// The rest of a list of template parameters that was opened at `start`.
pub open spec fn t_args_def_rest(s: Parsing, start: Source, args: Seq<Tree>) -> Parsed<Tree>
    decreases left(s),
{
    if s.current.t == TokenType::BracketClose {
        (
            next(s),
            Ok(tree(s, NodeType::ArgumentList, span(start, s.current.source), NodeValue::Empty, args)),
        )
    } else if s.current.t != TokenType::Identifier {
        fail(s)
    } else {
        let arg = tree(
            s,
            NodeType::ArgumentDecl,
            s.current.source,
            NodeValue::String(s.current.content),
            Seq::empty(),
        );
        let s1 = next(s);
        if !(s1.current.t == TokenType::Comma || s1.current.t == TokenType::BracketClose) {
            fail(s1)
        } else {
            let s2 = past_comma(s1);
            if left(s2) < left(s) {
                t_args_def_rest(s2, start, args.push(arg))
            } else {
                stuck(s2)
            }
        }
    }
}

/// Template parameters `[T, U]`, or an empty list if none are given.
pub open spec fn parse_t_args_def(s: Parsing) -> Parsed<Tree> {
    if s.current.t != TokenType::BracketOpen {
        (
            s,
            Ok(tree(s, NodeType::ArgumentList, s.current.source, NodeValue::Empty, Seq::empty())),
        )
    } else {
        t_args_def_rest(next(s), s.current.source, Seq::empty())
    }
}

// ---------------------------------------------------------------- types

/// The node kind of the primitive type that the keyword `t` names.
pub open spec fn primitive_type(t: TokenType) -> Option<NodeType> {
    match t {
        TokenType::KeywordU8 => Some(NodeType::U8Type),
        TokenType::KeywordU16 => Some(NodeType::U16Type),
        TokenType::KeywordU32 => Some(NodeType::U32Type),
        TokenType::KeywordU64 => Some(NodeType::U64Type),
        TokenType::KeywordS8 => Some(NodeType::S8Type),
        TokenType::KeywordS16 => Some(NodeType::S16Type),
        TokenType::KeywordS32 => Some(NodeType::S32Type),
        TokenType::KeywordS64 => Some(NodeType::S64Type),
        TokenType::KeywordF32 => Some(NodeType::F32Type),
        TokenType::KeywordF64 => Some(NodeType::F64Type),
        TokenType::KeywordUsize => Some(NodeType::UsizeType),
        TokenType::KeywordUnit => Some(NodeType::UnitType),
        TokenType::KeywordBool => Some(NodeType::BoolType),
        _ => None,
    }
}

/// A type: a pointer `*T` or `*const T`, a primitive type, or a name with
/// template arguments.
pub open spec fn parse_type(s: Parsing) -> Parsed<Tree>
    decreases left(s), 0nat,
{
    let start = s.current.source;
    if s.current.t == TokenType::Asterisk {
        let s1 = next(s);
        let marked = s1.current.t == TokenType::KeywordConst;
        let s2 = if marked {
            next(s1)
        } else {
            s1
        };
        let marks = if marked {
            Seq::<Tree>::empty().push(leaf(NodeType::IsConstant, s1.current.source, s.unknown))
        } else {
            Seq::<Tree>::empty()
        };
        if left(s2) < left(s) {
            match parse_type(s2) {
                (s3, Err(e)) => (s3, Err(e)),
                (s3, Ok(pointee)) => (
                    s3,
                    Ok(
                        tree(
                            s,
                            NodeType::PointerType,
                            span(start, pointee.source),
                            NodeValue::Empty,
                            marks.push(pointee),
                        ),
                    ),
                ),
            }
        } else {
            stuck(s2)
        }
    } else if primitive_type(s.current.t) is Some {
        (next(s), Ok(leaf(primitive_type(s.current.t)->0, start, s.unknown)))
    } else if s.current.t == TokenType::KeywordFun {
        unsupported(s, start)
    } else if s.current.t == TokenType::Identifier {
        let s1 = next(s);
        if left(s1) < left(s) {
            match parse_t_args(s1) {
                (s2, Err(e)) => (s2, Err(e)),
                (s2, Ok(t_args)) => (
                    s2,
                    Ok(
                        tree(
                            s,
                            NodeType::NamespaceAccess,
                            span(start, last_source(s2)),
                            NodeValue::String(s.current.content),
                            Seq::empty().push(t_args),
                        ),
                    ),
                ),
            }
        } else {
            stuck(s1)
        }
    } else {
        fail(s)
    }
}

/// The rest of a list of template arguments that was opened at `start`.
pub open spec fn t_args_rest(s: Parsing, start: Source, args: Seq<Tree>) -> Parsed<Tree>
    decreases left(s), 1nat,
{
    if s.current.t == TokenType::BracketClose {
        (
            next(s),
            Ok(tree(s, NodeType::ArgumentList, span(start, s.current.source), NodeValue::Empty, args)),
        )
    } else {
        match parse_type(s) {
            (s1, Err(e)) => (s1, Err(e)),
            (s1, Ok(arg)) => {
                if !(s1.current.t == TokenType::Comma || s1.current.t == TokenType::BracketClose) {
                    fail(s1)
                } else {
                    let s2 = past_comma(s1);
                    if left(s2) < left(s) {
                        t_args_rest(s2, start, args.push(arg))
                    } else {
                        stuck(s2)
                    }
                }
            },
        }
    }
}

/// Template arguments `[T, U]`, or an empty list if none are given.
pub open spec fn parse_t_args(s: Parsing) -> Parsed<Tree>
    decreases left(s), 0nat,
{
    if s.current.t != TokenType::BracketOpen {
        (
            s,
            Ok(tree(s, NodeType::ArgumentList, s.current.source, NodeValue::Empty, Seq::empty())),
        )
    } else {
        let s1 = next(s);
        if left(s1) < left(s) {
            t_args_rest(s1, s.current.source, Seq::empty())
        } else {
            stuck(s1)
        }
    }
}

// ----------------------------------------------------------- parameters

/// The rest of a list of parameters that was opened at `start`.
pub open spec fn args_def_rest(s: Parsing, start: Source, args: Seq<Tree>) -> Parsed<Tree>
    decreases left(s),
{
    if s.current.t == TokenType::ParenClose {
        (
            next(s),
            Ok(tree(s, NodeType::ArgumentList, span(start, s.current.source), NodeValue::Empty, args)),
        )
    } else {
        let marked = s.current.t == TokenType::KeywordConst;
        let s1 = if marked {
            next(s)
        } else {
            s
        };
        let marks = if marked {
            Seq::<Tree>::empty().push(leaf(NodeType::IsConstant, s.current.source, s.unknown))
        } else {
            Seq::<Tree>::empty()
        };
        if s1.current.t != TokenType::Identifier {
            fail(s1)
        } else {
            match parse_type(next(s1)) {
                (s3, Err(e)) => (s3, Err(e)),
                (s3, Ok(arg_type)) => {
                    let arg = tree(
                        s,
                        NodeType::ArgumentDecl,
                        span(s.current.source, arg_type.source),
                        NodeValue::String(s1.current.content),
                        marks.push(arg_type),
                    );
                    if !(s3.current.t == TokenType::Comma || s3.current.t
                        == TokenType::ParenClose) {
                        fail(s3)
                    } else {
                        let s4 = past_comma(s3);
                        if left(s4) < left(s) {
                            args_def_rest(s4, start, args.push(arg))
                        } else {
                            stuck(s4)
                        }
                    }
                },
            }
        }
    }
}

/// Parameters `(a T, const b U)`.
pub open spec fn parse_args_def(s: Parsing) -> Parsed<Tree> {
    if s.current.t != TokenType::ParenOpen {
        fail(s)
    } else {
        args_def_rest(next(s), s.current.source, Seq::empty())
    }
}

// ----------------------------------------------------------- used paths

/// Every path of `paths` with `segment` appended; the path of `segment`
/// alone if there is none.
pub open spec fn extend_all(paths: Seq<Seq<StringIdx>>, segment: StringIdx) -> Seq<
    Seq<StringIdx>,
> {
    if paths.len() == 0 {
        seq![seq![segment]]
    } else {
        Seq::new(paths.len(), |i: int| paths[i].push(segment))
    }
}

/// `base` followed by each path of `added`.
pub open spec fn each_after(base: Seq<StringIdx>, added: Seq<Seq<StringIdx>>) -> Seq<
    Seq<StringIdx>,
> {
    Seq::new(added.len(), |i: int| base + added[i])
}

/// Each path of `bases` followed by each path of `added`, base by base.
pub open spec fn product(bases: Seq<Seq<StringIdx>>, added: Seq<Seq<StringIdx>>) -> Seq<
    Seq<StringIdx>,
>
    decreases bases.len(),
{
    if bases.len() == 0 {
        Seq::empty()
    } else {
        product(bases.drop_last(), added) + each_after(bases.last(), added)
    }
}

/// Used paths from the current token on, given the paths `paths` that the
/// segments read so far stand for.
pub open spec fn used_paths_from(s: Parsing, paths: Seq<Seq<StringIdx>>) -> Parsed<
    Seq<Seq<StringIdx>>,
>
    decreases left(s), 1nat,
{
    if s.current.t == TokenType::Asterisk || s.current.t == TokenType::Identifier {
        used_paths_more(s, next(s), extend_all(paths, s.current.content))
    } else if s.current.t == TokenType::ParenOpen {
        let s1 = next(s);
        if left(s1) < left(s) {
            match used_group(s1, paths, Seq::empty()) {
                (s2, Err(e)) => (s2, Err(e)),
                (s2, Ok(grouped)) => used_paths_more(s, s2, grouped),
            }
        } else {
            stuck(s1)
        }
    } else {
        fail(s)
    }
}

/// Goes on after a segment or a group if `::` follows. `before` is the state
/// in which the segment or group started.
pub open spec fn used_paths_more(
    before: Parsing,
    s: Parsing,
    paths: Seq<Seq<StringIdx>>,
) -> Parsed<Seq<Seq<StringIdx>>>
    decreases left(before), 0nat,
{
    if s.current.t != TokenType::DoubleColon {
        (s, Ok(paths))
    } else {
        let s1 = next(s);
        if left(s1) < left(before) {
            used_paths_from(s1, paths)
        } else {
            stuck(s1)
        }
    }
}

/// The rest of a group `(a, b::c)` of used paths, after the alternatives
/// `alternatives`: at its end each of `bases` is followed by each
/// alternative.
pub open spec fn used_group(
    s: Parsing,
    bases: Seq<Seq<StringIdx>>,
    alternatives: Seq<Seq<StringIdx>>,
) -> Parsed<Seq<Seq<StringIdx>>>
    decreases left(s), 2nat,
{
    if s.current.t == TokenType::ParenClose {
        (next(s), Ok(product(bases, alternatives)))
    } else {
        match used_paths_from(s, Seq::empty()) {
            (s1, Err(e)) => (s1, Err(e)),
            (s1, Ok(added)) => {
                if !(s1.current.t == TokenType::Comma || s1.current.t == TokenType::ParenClose) {
                    fail(s1)
                } else {
                    let s2 = past_comma(s1);
                    if left(s2) < left(s) {
                        used_group(s2, bases, alternatives + added)
                    } else {
                        stuck(s2)
                    }
                }
            },
        }
    }
}

/// The paths that a `use` names: `a::b`, `a::*`, or with groups
/// `a::(b, c)::d`.
pub open spec fn parse_used_paths(s: Parsing) -> Parsed<Seq<Seq<StringIdx>>> {
    used_paths_from(s, Seq::empty())
}

/// The nodes for the used paths `paths`, all at `source`, and the state
/// after interning the paths.
pub open spec fn used_nodes(s: Parsing, paths: Seq<Seq<StringIdx>>, source: Source) -> (
    Parsing,
    Seq<Tree>,
)
    decreases paths.len(),
{
    if paths.len() == 0 {
        (s, Seq::empty())
    } else {
        let (s1, nodes) = used_nodes(s, paths.drop_last(), source);
        let (s2, path) = with_path(s1, paths.last());
        (
            s2,
            nodes.push(
                tree(s, NodeType::UsedPath, source, NodeValue::Path(path), Seq::empty()),
            ),
        )
    }
}

// ---------------------------------------------------------- expressions

/// Binding strength of the infix operator `t`, or `PREC_NONE` if `t` is
/// none.
pub open spec fn infix_precedence(t: TokenType) -> usize {
    match t {
        TokenType::KeywordAs => PREC_TYPE_CAST,
        TokenType::Asterisk => PREC_MULTIPLY,
        TokenType::Slash => PREC_MULTIPLY,
        TokenType::Percent => PREC_MULTIPLY,
        TokenType::Plus => PREC_ADD,
        TokenType::Minus => PREC_ADD,
        TokenType::LessThan => PREC_COMPARE,
        TokenType::LessThanEqual => PREC_COMPARE,
        TokenType::GreaterThan => PREC_COMPARE,
        TokenType::GreaterThanEqual => PREC_COMPARE,
        TokenType::DoubleEqual => PREC_EQUAL,
        TokenType::NotEqual => PREC_EQUAL,
        TokenType::DoubleAmpersand => PREC_LOGIC,
        TokenType::DoublePipe => PREC_LOGIC,
        _ => PREC_NONE,
    }
}

/// The node kind of the literal that a token of kind `t` is.
pub open spec fn literal_node(t: TokenType) -> Option<NodeType> {
    match t {
        TokenType::KeywordTrue => Some(NodeType::BooleanLiteral),
        TokenType::KeywordFalse => Some(NodeType::BooleanLiteral),
        TokenType::Integer => Some(NodeType::IntegerLiteral),
        TokenType::Float => Some(NodeType::FloatLiteral),
        TokenType::String => Some(NodeType::StringLiteral),
        TokenType::CString => Some(NodeType::CStringLiteral),
        _ => None,
    }
}

/// The node kind of the prefix operator `t`.
pub open spec fn unary_node(t: TokenType) -> Option<NodeType> {
    match t {
        TokenType::Ampersand => Some(NodeType::AddressOf),
        TokenType::Asterisk => Some(NodeType::Deref),
        TokenType::ExclamationMark => Some(NodeType::LogicalNot),
        TokenType::Minus => Some(NodeType::Negate),
        _ => None,
    }
}

/// The node kind of the binary operator `t`.
pub open spec fn binary_node(t: TokenType) -> Option<NodeType> {
    match t {
        TokenType::Plus => Some(NodeType::Add),
        TokenType::Minus => Some(NodeType::Subtract),
        TokenType::Asterisk => Some(NodeType::Multiply),
        TokenType::Slash => Some(NodeType::Divide),
        TokenType::Percent => Some(NodeType::Remainder),
        TokenType::LessThan => Some(NodeType::LessThan),
        TokenType::LessThanEqual => Some(NodeType::LessThanEqual),
        TokenType::GreaterThan => Some(NodeType::GreaterThan),
        TokenType::GreaterThanEqual => Some(NodeType::GreaterThanEqual),
        TokenType::DoubleEqual => Some(NodeType::Equal),
        TokenType::NotEqual => Some(NodeType::NotEqual),
        TokenType::DoublePipe => Some(NodeType::LogicalOr),
        TokenType::DoubleAmpersand => Some(NodeType::LogicalAnd),
        _ => None,
    }
}

/// The node kind of the assignment operator `t`.
pub open spec fn assign_node(t: TokenType) -> Option<NodeType> {
    match t {
        TokenType::Equal => Some(NodeType::Assign),
        TokenType::PlusEqual => Some(NodeType::AssignAdd),
        TokenType::MinusEqual => Some(NodeType::AssignSubtract),
        TokenType::AsteriskEqual => Some(NodeType::AssignMultiply),
        TokenType::SlashEqual => Some(NodeType::AssignDivide),
        TokenType::PercentEqual => Some(NodeType::AssignRemainder),
        _ => None,
    }
}

/// An expression made of operators that bind tighter than `precedence`:
/// an operand, followed by calls, member accesses, casts and binary
/// operators.
pub open spec fn parse_expression(s: Parsing, precedence: usize) -> Parsed<Tree>
    decreases left(s), 1nat,
{
    let start = s.current.source;
    if s.current.t == TokenType::Identifier {
        match parse_t_args(next(s)) {
            (s2, Err(e)) => (s2, Err(e)),
            (s2, Ok(t_args)) => operators(
                s,
                s2,
                tree(
                    s,
                    NodeType::NamespaceAccess,
                    span(start, last_source(s2)),
                    NodeValue::String(s.current.content),
                    Seq::empty().push(t_args),
                ),
                precedence,
            ),
        }
    } else if s.current.t == TokenType::KeywordUnit {
        operators(s, next(s), leaf(NodeType::UnitLiteral, start, s.unknown), precedence)
    } else if s.current.t == TokenType::KeywordSizeof {
        match parse_type(next(s)) {
            (s2, Err(e)) => (s2, Err(e)),
            (s2, Ok(sized)) => operators(
                s,
                s2,
                tree(
                    s,
                    NodeType::SizeOf,
                    span(start, sized.source),
                    NodeValue::Empty,
                    Seq::empty().push(sized),
                ),
                precedence,
            ),
        }
    } else if literal_node(s.current.t) is Some {
        operators(
            s,
            next(s),
            tree(
                s,
                literal_node(s.current.t)->0,
                start,
                NodeValue::String(s.current.content),
                Seq::empty(),
            ),
            precedence,
        )
    } else if unary_node(s.current.t) is Some {
        let s1 = next(s);
        if left(s1) < left(s) {
            match parse_expression(s1, PREC_UNARY) {
                (s2, Err(e)) => (s2, Err(e)),
                (s2, Ok(value)) => operators(
                    s,
                    s2,
                    tree(
                        s,
                        unary_node(s.current.t)->0,
                        span(start, value.source),
                        NodeValue::Empty,
                        Seq::empty().push(value),
                    ),
                    precedence,
                ),
            }
        } else {
            stuck(s1)
        }
    } else if s.current.t == TokenType::ParenOpen {
        let s1 = next(s);
        if left(s1) < left(s) {
            match parse_expression(s1, PREC_FULL) {
                (s2, Err(e)) => (s2, Err(e)),
                (s2, Ok(content)) => {
                    if s2.current.t != TokenType::ParenClose {
                        fail(s2)
                    } else {
                        operators(s, next(s2), content, precedence)
                    }
                },
            }
        } else {
            stuck(s1)
        }
    } else {
        fail(s)
    }
}

/// Goes on with the operators that follow the operand `operand`, which was
/// read between the states `before` and `s`.
pub open spec fn operators(before: Parsing, s: Parsing, operand: Tree, precedence: usize) -> Parsed<
    Tree,
>
    decreases left(before), 0nat,
{
    if left(s) < left(before) {
        infix_rest(s, operand, precedence)
    } else {
        stuck(s)
    }
}

/// Where input was read for the operand, the operators follow.
pub proof fn lemma_operators(before: Parsing, s: Parsing, operand: Tree, precedence: usize)
    requires
        left(s) < left(before),
    ensures
        operators(before, s, operand, precedence) == infix_rest(s, operand, precedence),
{
}

/// The operators that follow the operand `lhs`, as far as they bind tighter
/// than `precedence`.
pub open spec fn infix_rest(s: Parsing, lhs: Tree, precedence: usize) -> Parsed<Tree>
    decreases left(s), 1nat,
{
    if infix_precedence(s.current.t) >= precedence {
        (s, Ok(lhs))
    } else if s.current.t == TokenType::ParenOpen {
        let s1 = next(s);
        if left(s1) < left(s) {
            match call_args_rest(s1, Seq::empty()) {
                (s2, Err(e)) => (s2, Err(e)),
                (s2, Ok(args)) => operators(
                    s,
                    next(s2),
                    tree(
                        s,
                        NodeType::Call,
                        span(lhs.source, s2.current.source),
                        NodeValue::Empty,
                        Seq::empty().push(lhs).push(
                            tree(
                                s,
                                NodeType::ArgumentList,
                                span(s.current.source, s2.current.source),
                                NodeValue::Empty,
                                args,
                            ),
                        ),
                    ),
                    precedence,
                ),
            }
        } else {
            stuck(s1)
        }
    } else if s.current.t == TokenType::Dot {
        let s1 = next(s);
        if s1.current.t != TokenType::Identifier {
            fail(s1)
        } else {
            operators(
                s,
                next(s1),
                tree(
                    s,
                    NodeType::MemberAccess,
                    span(lhs.source, s1.current.source),
                    NodeValue::String(s1.current.content),
                    Seq::empty().push(lhs),
                ),
                precedence,
            )
        }
    } else if s.current.t == TokenType::KeywordAs {
        match parse_type(next(s)) {
            (s2, Err(e)) => (s2, Err(e)),
            (s2, Ok(target)) => operators(
                s,
                s2,
                tree(
                    s,
                    NodeType::TypeCast,
                    span(lhs.source, target.source),
                    NodeValue::Empty,
                    Seq::empty().push(lhs).push(target),
                ),
                precedence,
            ),
        }
    } else if binary_node(s.current.t) is Some {
        let s1 = next(s);
        if left(s1) < left(s) {
            match parse_expression(s1, infix_precedence(s.current.t)) {
                (s2, Err(e)) => (s2, Err(e)),
                (s2, Ok(rhs)) => operators(
                    s,
                    s2,
                    tree(
                        s,
                        binary_node(s.current.t)->0,
                        span(lhs.source, rhs.source),
                        NodeValue::Empty,
                        Seq::empty().push(lhs).push(rhs),
                    ),
                    precedence,
                ),
            }
        } else {
            stuck(s1)
        }
    } else {
        (s, Ok(lhs))
    }
}

/// The rest of the arguments of a call, up to the closing parenthesis.
pub open spec fn call_args_rest(s: Parsing, args: Seq<Tree>) -> Parsed<Seq<Tree>>
    decreases left(s), 2nat,
{
    if s.current.t == TokenType::ParenClose {
        (s, Ok(args))
    } else {
        match parse_expression(s, PREC_FULL) {
            (s1, Err(e)) => (s1, Err(e)),
            (s1, Ok(arg)) => {
                if !(s1.current.t == TokenType::ParenClose || s1.current.t == TokenType::Comma) {
                    fail(s1)
                } else {
                    let s2 = past_comma(s1);
                    if left(s2) < left(s) {
                        call_args_rest(s2, args.push(arg))
                    } else {
                        stuck(s2)
                    }
                }
            },
        }
    }
}

/// An expression of any operators.
pub open spec fn parse_full_expression(s: Parsing) -> Parsed<Tree> {
    parse_expression(s, PREC_FULL)
}

// ----------------------------------------------------------- statements

/// The modifiers before a declaration.
pub struct Modifiers {
    pub is_public: bool,
    pub is_external: bool,
    pub is_exported: bool,
}

/// What may follow `pub`.
pub open spec fn after_pub() -> Seq<TokenType> {
    seq![
        TokenType::KeywordStruct,
        TokenType::KeywordEnum,
        TokenType::KeywordInterface,
        TokenType::KeywordFun,
        TokenType::KeywordVar,
        TokenType::KeywordConst,
        TokenType::KeywordExt,
        TokenType::KeywordExp,
    ]
}

/// What may follow `ext` or `exp`.
pub open spec fn after_ext() -> Seq<TokenType> {
    seq![TokenType::KeywordFun, TokenType::KeywordVar, TokenType::KeywordConst]
}

/// What a statement at module scope starts with, after its modifiers.
pub open spec fn global_start() -> Seq<TokenType> {
    seq![
        TokenType::KeywordMod,
        TokenType::KeywordUse,
        TokenType::KeywordStruct,
        TokenType::KeywordEnum,
        TokenType::KeywordInterface,
        TokenType::KeywordFun,
        TokenType::KeywordVar,
        TokenType::KeywordConst,
    ]
}

/// What no statement in a block starts with.
pub open spec fn local_forbidden() -> Seq<TokenType> {
    seq![
        TokenType::KeywordMod,
        TokenType::KeywordUse,
        TokenType::KeywordStruct,
        TokenType::KeywordEnum,
        TokenType::KeywordInterface,
        TokenType::KeywordFun,
    ]
}

/// The marker nodes for the modifiers `m`, all at `at`.
pub open spec fn modifier_marks(s: Parsing, at: Source, m: Modifiers) -> Seq<Tree> {
    let m0 = Seq::<Tree>::empty();
    let m1 = if m.is_public {
        m0.push(leaf(NodeType::IsPublic, at, s.unknown))
    } else {
        m0
    };
    let m2 = if m.is_external {
        m1.push(leaf(NodeType::IsExternal, at, s.unknown))
    } else {
        m1
    };
    if m.is_exported {
        m2.push(leaf(NodeType::IsExported, at, s.unknown))
    } else {
        m2
    }
}

/// The reason given for template parameters on an exported function.
pub open spec fn exported_text(strings: Seq<Seq<char>>, name: StringIdx) -> Seq<char> {
    seq!['\''] + text_at(strings, name)
        + "' is exported and may therefore not specify any template arguments"@
}

/// `mod a::b`.
pub open spec fn module_decl(s: Parsing, start: Source) -> Parsed<Tree> {
    match parse_path(next(s)) {
        (s2, Err(e)) => (s2, Err(e)),
        (s2, Ok(path)) => (
            s2,
            Ok(
                tree(
                    s,
                    NodeType::ModuleDecl,
                    span(start, last_source(s2)),
                    NodeValue::Path(path),
                    Seq::empty(),
                ),
            ),
        ),
    }
}

/// `use a::b`, with one child for each path that is named.
pub open spec fn usage_decl(s: Parsing, start: Source) -> Parsed<Tree> {
    let s1 = next(s);
    match parse_used_paths(s1) {
        (s2, Err(e)) => (s2, Err(e)),
        (s2, Ok(paths)) => {
            let (s3, nodes) = used_nodes(s2, paths, s1.current.source);
            (
                s3,
                Ok(
                    tree(
                        s,
                        NodeType::UsageDecl,
                        span(start, last_source(s3)),
                        NodeValue::Empty,
                        nodes,
                    ),
                ),
            )
        },
    }
}

/// `struct Name[T](a A, b B)`. A list of interfaces after it is not
/// implemented yet.
pub open spec fn struct_decl(s: Parsing, start: Source, m: Modifiers) -> Parsed<Tree> {
    let marks = if m.is_public {
        Seq::<Tree>::empty().push(leaf(NodeType::IsPublic, s.current.source, s.unknown))
    } else {
        Seq::<Tree>::empty()
    };
    let s1 = next(s);
    if s1.current.t != TokenType::Identifier {
        fail(s1)
    } else {
        match parse_t_args_def(next(s1)) {
            (s3, Err(e)) => (s3, Err(e)),
            (s3, Ok(t_args)) => match parse_args_def(s3) {
                (s4, Err(e)) => (s4, Err(e)),
                (s4, Ok(args)) => {
                    if s4.current.t == TokenType::Colon {
                        unsupported(s4, span(start, args.source))
                    } else {
                        (
                            s4,
                            Ok(
                                tree(
                                    s,
                                    NodeType::StructDecl,
                                    span(start, args.source),
                                    NodeValue::String(s1.current.content),
                                    marks.push(t_args).push(args),
                                ),
                            ),
                        )
                    }
                },
            },
        }
    }
}

/// `var name T = value` or `const name T = value`. At module scope the
/// value is required unless the variable is external.
pub open spec fn variable_decl(
    s: Parsing,
    start: Source,
    global: bool,
    m: Modifiers,
    constant: bool,
) -> Parsed<Tree> {
    let marks = modifier_marks(s, s.current.source, m);
    let s1 = next(s);
    if s1.current.t != TokenType::Identifier {
        fail(s1)
    } else {
        match parse_type(next(s1)) {
            (s3, Err(e)) => (s3, Err(e)),
            (s3, Ok(value_type)) => {
                let c1 = if constant {
                    marks.push(leaf(NodeType::IsConstant, start, s.unknown))
                } else {
                    marks
                };
                let c2 = c1.push(value_type);
                if s3.current.t == TokenType::Equal || (global && !m.is_external) {
                    if s3.current.t != TokenType::Equal {
                        fail(s3)
                    } else {
                        match parse_full_expression(next(s3)) {
                            (s5, Err(e)) => (s5, Err(e)),
                            (s5, Ok(value)) => (
                                s5,
                                Ok(
                                    tree(
                                        s,
                                        NodeType::VariableDecl,
                                        span(start, value.source),
                                        NodeValue::String(s1.current.content),
                                        c2.push(value),
                                    ),
                                ),
                            ),
                        }
                    }
                } else {
                    (
                        s3,
                        Ok(
                            tree(
                                s,
                                NodeType::VariableDecl,
                                span(start, value_type.source),
                                NodeValue::String(s1.current.content),
                                c2,
                            ),
                        ),
                    )
                }
            },
        }
    }
}

/// The return type after the parameters: `: T`, or the unit type if none is
/// given.
pub open spec fn return_type(s: Parsing) -> Parsed<Tree> {
    if s.current.t == TokenType::Colon {
        parse_type(next(s))
    } else {
        (s, Ok(leaf(NodeType::UnitType, s.current.source, s.unknown)))
    }
}

/// An expression, or an assignment `target = value`.
pub open spec fn expression_statement(s: Parsing, start: Source) -> Parsed<Tree> {
    match parse_full_expression(s) {
        (s1, Err(e)) => (s1, Err(e)),
        (s1, Ok(target)) => match assign_node(s1.current.t) {
            None => (s1, Ok(target)),
            Some(nt) => match parse_full_expression(next(s1)) {
                (s3, Err(e)) => (s3, Err(e)),
                (s3, Ok(value)) => (
                    s3,
                    Ok(
                        tree(
                            s,
                            nt,
                            span(start, value.source),
                            NodeValue::Empty,
                            Seq::empty().push(target).push(value),
                        ),
                    ),
                ),
            },
        },
    }
}

/// `return value`.
pub open spec fn return_statement(s: Parsing, start: Source) -> Parsed<Tree> {
    match parse_full_expression(next(s)) {
        (s2, Err(e)) => (s2, Err(e)),
        (s2, Ok(value)) => (
            s2,
            Ok(
                tree(
                    s,
                    NodeType::Return,
                    span(start, value.source),
                    NodeValue::Empty,
                    Seq::empty().push(value),
                ),
            ),
        ),
    }
}

/// `fun name[T](a A): R { .. }`. An external function has no body; an
/// exported one may have no template parameters.
pub open spec fn function_decl(s: Parsing, start: Source, m: Modifiers) -> Parsed<Tree>
    decreases left(s), 0nat,
{
    let marks = modifier_marks(s, s.current.source, m);
    let s1 = next(s);
    if s1.current.t != TokenType::Identifier {
        fail(s1)
    } else {
        let name = s1.current.content;
        match parse_t_args_def(next(s1)) {
            (s3, Err(e)) => (s3, Err(e)),
            (s3, Ok(t_args)) => {
                let s4 = if m.is_exported && t_args.children.len() > 0 {
                    with_error(s3, exported_text(s3.strings, name), t_args.source)
                } else {
                    s3
                };
                match parse_args_def(s4) {
                    (s5, Err(e)) => (s5, Err(e)),
                    (s5, Ok(args)) => match return_type(s5) {
                        (s6, Err(e)) => (s6, Err(e)),
                        (s6, Ok(returned)) => {
                            let children = marks.push(t_args).push(args).push(returned);
                            if m.is_external {
                                (
                                    s6,
                                    Ok(
                                        tree(
                                            s,
                                            NodeType::FunctionDecl,
                                            span(start, last_source(s6)),
                                            NodeValue::String(name),
                                            children,
                                        ),
                                    ),
                                )
                            } else if left(s6) < left(s) {
                                match parse_block(s6) {
                                    (s7, Err(e)) => (s7, Err(e)),
                                    (s7, Ok(body)) => (
                                        s7,
                                        Ok(
                                            tree(
                                                s,
                                                NodeType::FunctionDecl,
                                                span(start, last_source(s7)),
                                                NodeValue::String(name),
                                                children.push(body),
                                            ),
                                        ),
                                    ),
                                }
                            } else {
                                stuck(s6)
                            }
                        },
                    },
                }
            },
        }
    }
}

/// `if condition { .. }`, with `else { .. }` or `else if ..` if given. The
/// node always has three children: where no `else` is given the third is an
/// empty block, and an `else if` is wrapped into a block of its own.
pub open spec fn if_statement(s: Parsing, start: Source) -> Parsed<Tree>
    decreases left(s), 0nat,
{
    match parse_full_expression(next(s)) {
        (s2, Err(e)) => (s2, Err(e)),
        (s2, Ok(condition)) => {
            if left(s2) < left(s) {
                match parse_block(s2) {
                    (s3, Err(e)) => (s3, Err(e)),
                    (s3, Ok(then)) => {
                        let first = Seq::<Tree>::empty().push(condition).push(then);
                        if s3.current.t != TokenType::KeywordElse {
                            (
                                s3,
                                Ok(
                                    tree(
                                        s,
                                        NodeType::If,
                                        span(start, last_source(s3)),
                                        NodeValue::Empty,
                                        first.push(
                                            leaf(NodeType::Block, last_source(s3), s.unknown),
                                        ),
                                    ),
                                ),
                            )
                        } else {
                            let s4 = next(s3);
                            if !(s4.current.t == TokenType::KeywordIf || s4.current.t
                                == TokenType::BraceOpen) {
                                fail(s4)
                            } else if !(left(s4) < left(s)) {
                                stuck(s4)
                            } else if s4.current.t == TokenType::BraceOpen {
                                match parse_block(s4) {
                                    (s5, Err(e)) => (s5, Err(e)),
                                    (s5, Ok(otherwise)) => (
                                        s5,
                                        Ok(
                                            tree(
                                                s,
                                                NodeType::If,
                                                span(start, last_source(s5)),
                                                NodeValue::Empty,
                                                first.push(otherwise),
                                            ),
                                        ),
                                    ),
                                }
                            } else {
                                match parse_statement(s4, false) {
                                    (s5, Err(e)) => (s5, Err(e)),
                                    (s5, Ok(nested)) => (
                                        s5,
                                        Ok(
                                            tree(
                                                s,
                                                NodeType::If,
                                                span(start, last_source(s5)),
                                                NodeValue::Empty,
                                                first.push(
                                                    tree(
                                                        s,
                                                        NodeType::Block,
                                                        nested.source,
                                                        NodeValue::Empty,
                                                        Seq::empty().push(nested),
                                                    ),
                                                ),
                                            ),
                                        ),
                                    ),
                                }
                            }
                        }
                    },
                }
            } else {
                stuck(s2)
            }
        },
    }
}

/// `loop { .. }`.
pub open spec fn loop_statement(s: Parsing, start: Source) -> Parsed<Tree>
    decreases left(s), 0nat,
{
    let s1 = next(s);
    if left(s1) < left(s) {
        match parse_block(s1) {
            (s2, Err(e)) => (s2, Err(e)),
            (s2, Ok(body)) => (
                s2,
                Ok(
                    tree(
                        s,
                        NodeType::Loop,
                        span(start, body.source),
                        NodeValue::Empty,
                        Seq::empty().push(body),
                    ),
                ),
            ),
        }
    } else {
        stuck(s1)
    }
}

/// `while condition { .. }`.
pub open spec fn while_statement(s: Parsing, start: Source) -> Parsed<Tree>
    decreases left(s), 0nat,
{
    match parse_full_expression(next(s)) {
        (s2, Err(e)) => (s2, Err(e)),
        (s2, Ok(condition)) => {
            if left(s2) < left(s) {
                match parse_block(s2) {
                    (s3, Err(e)) => (s3, Err(e)),
                    (s3, Ok(body)) => (
                        s3,
                        Ok(
                            tree(
                                s,
                                NodeType::While,
                                span(start, body.source),
                                NodeValue::Empty,
                                Seq::empty().push(condition).push(body),
                            ),
                        ),
                    ),
                }
            } else {
                stuck(s2)
            }
        },
    }
}

/// The statement that starts at the current token, its modifiers `m` read.
/// `start` is where the statement started.
pub open spec fn statement_body(s: Parsing, start: Source, global: bool, m: Modifiers) -> Parsed<
    Tree,
>
    decreases left(s), 1nat,
{
    match s.current.t {
        TokenType::KeywordMod => module_decl(s, start),
        TokenType::KeywordUse => usage_decl(s, start),
        TokenType::KeywordStruct => struct_decl(s, start, m),
        TokenType::KeywordEnum => unsupported(s, span(start, s.current.source)),
        TokenType::KeywordInterface => unsupported(s, span(start, s.current.source)),
        TokenType::KeywordFun => function_decl(s, start, m),
        TokenType::KeywordVar => variable_decl(s, start, global, m, false),
        TokenType::KeywordConst => variable_decl(s, start, global, m, true),
        TokenType::KeywordReturn => return_statement(s, start),
        TokenType::KeywordContinue => (next(s), Ok(leaf(NodeType::Continue, start, s.unknown))),
        TokenType::KeywordBreak => (next(s), Ok(leaf(NodeType::Break, start, s.unknown))),
        TokenType::KeywordIf => if_statement(s, start),
        TokenType::KeywordLoop => loop_statement(s, start),
        TokenType::KeywordWhile => while_statement(s, start),
        _ => expression_statement(s, start),
    }
}

/// A statement. At module scope (`global`) it is `mod`, `use` or a
/// declaration, which `pub`, `ext` and `exp` may precede; in a block it is
/// anything but `mod`, `use` and declarations of types and functions.
pub open spec fn parse_statement(s: Parsing, global: bool) -> Parsed<Tree>
    decreases left(s), 2nat,
{
    let start = s.current.source;
    let is_public = s.current.t == TokenType::KeywordPub;
    let (s1, r1) = if is_public && global {
        expect(next(s), after_pub())
    } else {
        (s, Ok(()))
    };
    match r1 {
        Err(e) => (s1, Err(e)),
        Ok(_) => {
            let is_external = s1.current.t == TokenType::KeywordExt;
            let is_exported = s1.current.t == TokenType::KeywordExp;
            let (s2, r2) = if (is_external || is_exported) && global {
                expect(next(s1), after_ext())
            } else {
                (s1, Ok(()))
            };
            match r2 {
                Err(e) => (s2, Err(e)),
                Ok(_) => {
                    let (s3, r3) = if global {
                        expect(s2, global_start())
                    } else {
                        expect_not(s2, local_forbidden())
                    };
                    match r3 {
                        Err(e) => (s3, Err(e)),
                        Ok(_) => {
                            if left(s3) <= left(s) {
                                statement_body(
                                    s3,
                                    start,
                                    global,
                                    Modifiers { is_public, is_external, is_exported },
                                )
                            } else {
                                stuck(s3)
                            }
                        },
                    }
                },
            }
        },
    }
}

/// A block `{ .. }` of statements.
pub open spec fn parse_block(s: Parsing) -> Parsed<Tree>
    decreases left(s), 0nat,
{
    if s.current.t != TokenType::BraceOpen {
        fail(s)
    } else {
        let s1 = next(s);
        if left(s1) < left(s) {
            let (s2, body) = statements_rest(s1, false, Seq::empty());
            if s2.current.t != TokenType::BraceClose {
                fail(s2)
            } else {
                (
                    next(s2),
                    Ok(
                        tree(
                            s,
                            NodeType::Block,
                            span(s.current.source, s2.current.source),
                            NodeValue::Empty,
                            body,
                        ),
                    ),
                )
            }
        } else {
            stuck(s1)
        }
    }
}

/// The statements up to the next `}` or the end of the file, after the
/// statements `nodes`. Semicolons between statements are passed over; what
/// could not be parsed leaves an invalid node among the statements.
pub open spec fn statements_rest(s: Parsing, global: bool, nodes: Seq<Tree>) -> (
    Parsing,
    Seq<Tree>,
)
    decreases left(s), 3nat,
{
    if s.current.t == TokenType::Semicolon {
        let s1 = next(s);
        if left(s1) < left(s) {
            statements_rest(s1, global, nodes)
        } else {
            (s1, nodes)
        }
    } else if s.current.t == TokenType::BraceClose || s.current.t == TokenType::EndOfFile {
        (s, nodes)
    } else {
        let (s1, r) = parse_statement(s, global);
        let node = match r {
            Ok(n) => n,
            Err(n) => n,
        };
        if left(s1) < left(s) {
            statements_rest(s1, global, nodes.push(node))
        } else {
            (s1, nodes.push(node))
        }
    }
}

/// The statements up to the next `}` or the end of the file.
pub open spec fn parse_statements(s: Parsing, global: bool) -> (Parsing, Seq<Tree>) {
    statements_rest(s, global, Seq::empty())
}

/// The statements of a file.
pub open spec fn parse_file(s: Parsing) -> (Parsing, Seq<Tree>) {
    parse_statements(s, true)
}

} // verus!
