//! The parser: from tokens to the syntax tree, by recursive descent with
//! one token of lookahead and operator precedence for expressions.
//!
//! What is parsed is defined in the grammar; every function here is proved
//! to compute its counterpart there, and to end.

use vstd::prelude::*;
use vstd::string::*;
use crate::error::Error;
use crate::frontend::ast::{
    AstNode, NodeType, NodeValue, Tree, add_node, lemma_tree_children, no_nodes, tree_result,
    trees_of, value_result,
};
use crate::frontend::grammar;
use crate::frontend::grammar::{Modifiers, Parsing, follows, left};
use crate::frontend::lexer::{Lexer, Token, TokenType};
use crate::interning::{index_after, pool_after};
use crate::paths::{PathIdx, copy_segments};
use crate::source::Source;
use crate::strings::StringIdx;
use crate::types::{Type, TypeIdx};
use crate::Compiler;

verus! {

/// Binding strength of the infix operator `t`, or `PREC_NONE` if `t` is
/// none.
pub fn get_infix_precedence(t: TokenType) -> (r: usize)
    ensures
        r == grammar::infix_precedence(t),
{
    match t {
        TokenType::KeywordAs => grammar::PREC_TYPE_CAST,
        TokenType::Asterisk => grammar::PREC_MULTIPLY,
        TokenType::Slash => grammar::PREC_MULTIPLY,
        TokenType::Percent => grammar::PREC_MULTIPLY,
        TokenType::Plus => grammar::PREC_ADD,
        TokenType::Minus => grammar::PREC_ADD,
        TokenType::LessThan => grammar::PREC_COMPARE,
        TokenType::LessThanEqual => grammar::PREC_COMPARE,
        TokenType::GreaterThan => grammar::PREC_COMPARE,
        TokenType::GreaterThanEqual => grammar::PREC_COMPARE,
        TokenType::DoubleEqual => grammar::PREC_EQUAL,
        TokenType::NotEqual => grammar::PREC_EQUAL,
        TokenType::DoubleAmpersand => grammar::PREC_LOGIC,
        TokenType::DoublePipe => grammar::PREC_LOGIC,
        _ => grammar::PREC_NONE,
    }
}

/// Whether `t` is among `kinds`.
pub fn holds(kinds: &[TokenType], t: TokenType) -> (r: bool)
    ensures
        r == kinds@.contains(t),
{
    let mut i: usize = 0;
    while i < kinds.len()
        invariant
            i <= kinds.len(),
            forall|k: int| 0 <= k < i ==> kinds@[k] != t,
        decreases kinds.len() - i,
    {
        if kinds[i] == t {
            return true;
        }
        i = i + 1;
    }
    false
}

/// The segment lists that a list of vectors stands for.
pub open spec fn segment_lists(paths: Seq<Vec<StringIdx>>) -> Seq<Seq<StringIdx>> {
    Seq::new(paths.len(), |i: int| paths[i]@)
}

/// Parsed nodes or the invalid node in their place, as trees.
pub open spec fn nodes_result(r: Result<Vec<AstNode>, AstNode>) -> Result<Seq<Tree>, Tree> {
    match r {
        Ok(v) => Ok(trees_of(v@)),
        Err(e) => Err(e@),
    }
}

/// Parsed paths or the invalid node in their place, as plain values.
pub open spec fn paths_result(r: Result<Vec<Vec<StringIdx>>, AstNode>) -> Result<
    Seq<Seq<StringIdx>>,
    Tree,
> {
    match r {
        Ok(v) => Ok(segment_lists(v@)),
        Err(e) => Err(e@),
    }
}

fn add_path(paths: &mut Vec<Vec<StringIdx>>, path: Vec<StringIdx>)
    ensures
        segment_lists(final(paths)@) == segment_lists(old(paths)@).push(path@),
{
    paths.push(path);
    assert(segment_lists(paths@) =~= segment_lists(old(paths)@).push(path@));
}

fn add_paths(paths: &mut Vec<Vec<StringIdx>>, added: &Vec<Vec<StringIdx>>)
    ensures
        segment_lists(final(paths)@) == segment_lists(old(paths)@) + segment_lists(added@),
{
    let mut i: usize = 0;
    assert(segment_lists(paths@) =~= segment_lists(old(paths)@) + segment_lists(added@).take(0));
    while i < added.len()
        invariant
            i <= added.len(),
            segment_lists(paths@) == segment_lists(old(paths)@) + segment_lists(added@).take(
                i as int,
            ),
        decreases added.len() - i,
    {
        add_path(paths, copy_segments(added[i].as_slice()));
        i = i + 1;
        assert(segment_lists(paths@) =~= segment_lists(old(paths)@) + segment_lists(added@).take(
            i as int,
        ));
    }
    assert(segment_lists(added@).take(added.len() as int) =~= segment_lists(added@));
}

fn extend_paths(paths: &mut Vec<Vec<StringIdx>>, segment: StringIdx)
    ensures
        segment_lists(final(paths)@) == grammar::extend_all(segment_lists(old(paths)@), segment),
{
    if paths.len() == 0 {
        let mut path: Vec<StringIdx> = Vec::new();
        path.push(segment);
        assert(path@ =~= seq![segment]);
        paths.push(path);
        assert(segment_lists(paths@) =~= seq![seq![segment]]);
    } else {
        let mut i: usize = 0;
        while i < paths.len()
            invariant
                i <= paths.len(),
                paths.len() == old(paths).len(),
                forall|k: int| 0 <= k < i ==> (#[trigger] paths[k])@ == old(paths)[k]@.push(segment),
                forall|k: int| i <= k < paths.len() ==> (#[trigger] paths[k])@ == old(paths)[k]@,
            decreases paths.len() - i,
        {
            let mut path: Vec<StringIdx> = copy_segments(paths[i].as_slice());
            path.push(segment);
            paths[i] = path;
            i = i + 1;
        }
        assert(segment_lists(paths@) =~= grammar::extend_all(
            segment_lists(old(paths)@),
            segment,
        ));
    }
}

fn add_product(
    grouped: &mut Vec<Vec<StringIdx>>,
    bases: &Vec<Vec<StringIdx>>,
    added: &Vec<Vec<StringIdx>>,
)
    ensures
        segment_lists(final(grouped)@) == segment_lists(old(grouped)@) + grammar::product(
            segment_lists(bases@),
            segment_lists(added@),
        ),
{
    let ghost all_bases = segment_lists(bases@);
    let ghost all_added = segment_lists(added@);
    let mut b: usize = 0;
    assert(segment_lists(grouped@) =~= segment_lists(old(grouped)@) + grammar::product(
        all_bases.take(0),
        all_added,
    ));
    while b < bases.len()
        invariant
            b <= bases.len(),
            all_bases == segment_lists(bases@),
            all_added == segment_lists(added@),
            segment_lists(grouped@) == segment_lists(old(grouped)@) + grammar::product(
                all_bases.take(b as int),
                all_added,
            ),
        decreases bases.len() - b,
    {
        let ghost before = segment_lists(grouped@);
        let mut a: usize = 0;
        assert(segment_lists(grouped@) =~= before + grammar::each_after(
            all_bases[b as int],
            all_added,
        ).take(0));
        while a < added.len()
            invariant
                b < bases.len(),
                a <= added.len(),
                all_bases == segment_lists(bases@),
                all_added == segment_lists(added@),
                segment_lists(grouped@) == before + grammar::each_after(
                    all_bases[b as int],
                    all_added,
                ).take(a as int),
            decreases added.len() - a,
        {
            let mut path: Vec<StringIdx> = copy_segments(bases[b].as_slice());
            let mut k: usize = 0;
            while k < added[a].len()
                invariant
                    a < added.len(),
                    k <= added[a as int].len(),
                    path@ == bases[b as int]@ + added[a as int]@.take(k as int),
                decreases added[a as int].len() - k,
            {
                path.push(added[a][k]);
                k = k + 1;
                assert(path@ =~= bases[b as int]@ + added[a as int]@.take(k as int));
            }
            assert(added[a as int]@.take(k as int) =~= added[a as int]@);
            add_path(grouped, path);
            a = a + 1;
            assert(segment_lists(grouped@) =~= before + grammar::each_after(
                all_bases[b as int],
                all_added,
            ).take(a as int));
        }
        b = b + 1;
        proof {
            let now = all_bases.take(b as int);
            assert(now.drop_last() =~= all_bases.take(b as int - 1));
            assert(now.last() == all_bases[b as int - 1]);
            assert(grammar::each_after(all_bases[b as int - 1], all_added).take(
                added.len() as int,
            ) =~= grammar::each_after(all_bases[b as int - 1], all_added));
            assert(segment_lists(grouped@) =~= segment_lists(old(grouped)@) + grammar::product(
                now,
                all_added,
            ));
        }
    }
    assert(all_bases.take(bases.len() as int) =~= all_bases);
}

/// The parser of one file.
pub struct Parser {
    lexer: Lexer,
    last: Option<Token>,
    current: Token,
    unknown: TypeIdx,
    advances: Ghost<nat>,
}

impl Parser {
    /// The state of the parser within the compiler `c`.
    pub closed spec fn state(&self, c: &Compiler) -> Parsing {
        Parsing {
            file: self.lexer.file(),
            text: self.lexer.text(),
            cursor: self.lexer.cursor(),
            last: self.last,
            current: self.current,
            unknown: self.unknown,
            strings: c.strings@,
            paths: c.paths@,
            errors: c.error_list(),
        }
    }

    /// How many tokens the parser has passed over so far, the end of the
    /// file not counted.
    pub closed spec fn advances(&self) -> nat {
        self.advances@
    }

    /// The lexer, the compiler and the state are well-formed.
    #[verifier::opaque]
    pub closed spec fn wf(&self, c: &Compiler) -> bool {
        &&& self.lexer.wf()
        &&& c.wf()
        &&& self.state(c).wf()
    }

    /// Whether the parser `after` within `c1` can have come from the parser
    /// `before` within `c0`: both are well-formed, only strings, paths and
    /// diagnostics of the compiler differ, no more input is left, and no
    /// more tokens were passed over than input was used up.
    pub open spec fn went(before: Parser, c0: Compiler, after: Parser, c1: Compiler) -> bool {
        &&& after.wf(&c1)
        &&& c1.same_program(&c0)
        &&& follows(after.state(&c1), before.state(&c0))
        &&& before.advances() <= after.advances()
        &&& after.advances() - before.advances() <= left(before.state(&c0)) - left(
            after.state(&c1),
        )
    }

    /// Whether less input is left to `after` than to `before`.
    pub open spec fn advanced(before: Parser, c0: Compiler, after: Parser, c1: Compiler) -> bool {
        left(after.state(&c1)) < left(before.state(&c0))
    }

    /// Whether the current token of the parser is not the end of the file.
    pub open spec fn has_token(self, c: Compiler) -> bool {
        self.state(&c).current.t != TokenType::EndOfFile
    }

    /// A well-formed parser works within a well-formed compiler.
    pub proof fn lemma_wf(&self, c: &Compiler)
        requires
            self.wf(c),
        ensures
            c.wf(),
            self.state(c).wf(),
            self.state(c).strings == c.strings@,
            self.state(c).paths == c.paths@,
            self.state(c).errors == c.error_list(),
    {
        reveal(Parser::wf);
    }

    /// A parser that reads from `lexer`, with the first token read.
    pub fn new(c: &mut Compiler, lexer: Lexer) -> (r: Parser)
        requires
            old(c).wf(),
            lexer.wf(),
        ensures
            r.wf(final(c)),
            r.advances() == 0,
            final(c).files == old(c).files,
            final(c).symbols == old(c).symbols,
            final(c).scopes == old(c).scopes,
            final(c).error_stage == old(c).error_stage,
            final(c).types@ == pool_after(old(c).types@, Type::Unknown),
            r.state(final(c)) == grammar::begin(
                lexer.file(),
                lexer.text(),
                lexer.cursor(),
                TypeIdx(index_after(old(c).types@, Type::Unknown) as usize),
                old(c).strings@,
                old(c).paths@,
                old(c).error_list(),
            ),
    {
        let mut lexer = lexer;
        proof {
            reveal(Parser::wf);
            reveal(Parsing::wf);
            reveal(grammar::begin);
            lexer.lemma_cursor_bounds();
            crate::frontend::lexer::lemma_next_from(
                lexer.file(),
                lexer.text(),
                lexer.cursor(),
                c.strings@,
                c.error_list(),
            );
        }
        let unknown = c.types.insert(Type::Unknown);
        let current: Token = lexer.next(c);
        Parser { lexer, last: None, current, unknown, advances: Ghost(0) }
    }

    fn next(&mut self, c: &mut Compiler)
        requires
            old(self).wf(old(c)),
        ensures
            Self::went(*old(self), *old(c), *final(self), *final(c)),
            final(self).state(final(c)) == grammar::next(old(self).state(old(c))),
            old(self).has_token(*old(c)) ==> Self::advanced(
                *old(self),
                *old(c),
                *final(self),
                *final(c),
            ),
    {
        proof {
            reveal(Parser::wf);
            reveal(grammar::next);
            grammar::lemma_next(self.state(c));
            if self.current.t != TokenType::EndOfFile {
                self.advances@ = self.advances@ + 1;
            }
        }
        self.last = Some(self.current);
        self.current = self.lexer.next(c);
    }

    fn complain(&self, c: &mut Compiler, reason: String, marked: Source)
        requires
            self.wf(old(c)),
        ensures
            Self::went(*self, *old(c), *self, *final(c)),
            self.state(final(c)) == grammar::with_error(self.state(old(c)), reason@, marked),
            left(self.state(final(c))) == left(self.state(old(c))),
    {
        proof {
            reveal(Parser::wf);
            grammar::lemma_with_error(self.state(c), reason@, marked);
        }
        c.report(Error::dynamic(reason, marked));
    }

    fn intern(&self, c: &mut Compiler, path: &Vec<StringIdx>) -> (idx: PathIdx)
        requires
            self.wf(old(c)),
        ensures
            Self::went(*self, *old(c), *self, *final(c)),
            (self.state(final(c)), idx) == grammar::with_path(self.state(old(c)), path@),
            left(self.state(final(c))) == left(self.state(old(c))),
    {
        proof {
            reveal(Parser::wf);
            grammar::lemma_with_path(self.state(c), path@);
        }
        c.paths.insert(path.as_slice())
    }

    fn last_source(&self) -> (r: Source)
        ensures
            forall|c: &Compiler| r == grammar::last_source(#[trigger] self.state(c)),
    {
        match self.last {
            Some(t) => t.source,
            None => self.current.source,
        }
    }

    fn recover(&mut self, c: &mut Compiler)
        requires
            old(self).wf(old(c)),
        ensures
            Self::went(*old(self), *old(c), *final(self), *final(c)),
            final(self).state(final(c)) == grammar::recover(old(self).state(old(c))),
            old(self).has_token(*old(c)) ==> Self::advanced(
                *old(self),
                *old(c),
                *final(self),
                *final(c),
            ),
    {
        proof {
            reveal(Parser::wf);
        }
        loop
            invariant
                Self::went(*old(self), *old(c), *self, *c),
                grammar::recover(self.state(c)) == grammar::recover(old(self).state(old(c))),
                left(self.state(c)) == left(old(self).state(old(c))) ==> self.state(c).current.t
                    == old(self).state(old(c)).current.t,
            decreases left(self.state(c)),
        {
            proof {
                reveal(grammar::recover);
            }
            let recovered: bool = match self.current.t {
                TokenType::Semicolon | TokenType::BraceClose | TokenType::EndOfFile => true,
                _ => false,
            };
            self.next(c);
            if recovered {
                return ;
            }
        }
    }

    fn report_unexpected(&mut self, c: &mut Compiler) -> (node: AstNode)
        requires
            old(self).wf(old(c)),
        ensures
            Self::went(*old(self), *old(c), *final(self), *final(c)),
            (final(self).state(final(c)), node@) == grammar::unexpected(old(self).state(old(c))),
            old(self).has_token(*old(c)) ==> Self::advanced(
                *old(self),
                *old(c),
                *final(self),
                *final(c),
            ),
    {
        proof {
            reveal(grammar::unexpected);
        }
        if self.current.t != TokenType::Invalid {
            let mut e: String = "unexpected ".to_string();
            e.append(self.current.display(c).as_str());
            match self.last {
                Some(t) => {
                    e.append(" after ");
                    e.append(t.display(c).as_str());
                },
                None => {},
            }
            let s: Source = if self.current.t == TokenType::EndOfFile {
                self.last_source()
            } else {
                self.current.source
            };
            assert(e@ =~= grammar::unexpected_text(self.state(c)));
            self.complain(c, e, s);
        }
        self.recover(c);
        AstNode::empty(NodeType::Invalid, self.current.source, self.unknown)
    }

    fn unsupported(&mut self, c: &mut Compiler, marked: Source) -> (node: AstNode)
        requires
            old(self).wf(old(c)),
        ensures
            Self::went(*old(self), *old(c), *final(self), *final(c)),
            (final(self).state(final(c)), Err::<Tree, Tree>(node@)) == grammar::unsupported::<Tree>(
                old(self).state(old(c)),
                marked,
            ),
            old(self).has_token(*old(c)) ==> Self::advanced(
                *old(self),
                *old(c),
                *final(self),
                *final(c),
            ),
    {
        proof {
            reveal(grammar::unsupported);
        }
        self.complain(c, "not yet implemented".to_string(), marked);
        self.recover(c);
        AstNode::empty(NodeType::Invalid, self.current.source, self.unknown)
    }

    fn expect(&mut self, c: &mut Compiler, tt: &[TokenType]) -> (r: Result<(), AstNode>)
        requires
            old(self).wf(old(c)),
        ensures
            Self::went(*old(self), *old(c), *final(self), *final(c)),
            r is Ok <==> tt@.contains(old(self).state(old(c)).current.t),
            r is Ok ==> final(self).state(final(c)) == old(self).state(old(c)),
            r matches Err(e) ==> (final(self).state(final(c)), e@) == grammar::unexpected(
                old(self).state(old(c)),
            ),
            r is Err && old(self).has_token(*old(c)) ==> Self::advanced(
                *old(self),
                *old(c),
                *final(self),
                *final(c),
            ),
    {
        if holds(tt, self.current.t) {
            proof {
                self.lemma_wf(c);
            }
            return Ok(());
        }
        Err(self.report_unexpected(c))
    }

    fn expect_not(&mut self, c: &mut Compiler, tt: &[TokenType]) -> (r: Result<(), AstNode>)
        requires
            old(self).wf(old(c)),
        ensures
            Self::went(*old(self), *old(c), *final(self), *final(c)),
            r is Ok <==> !tt@.contains(old(self).state(old(c)).current.t),
            r is Ok ==> final(self).state(final(c)) == old(self).state(old(c)),
            r matches Err(e) ==> (final(self).state(final(c)), e@) == grammar::unexpected(
                old(self).state(old(c)),
            ),
            r is Err && old(self).has_token(*old(c)) ==> Self::advanced(
                *old(self),
                *old(c),
                *final(self),
                *final(c),
            ),
    {
        if !holds(tt, self.current.t) {
            proof {
                self.lemma_wf(c);
            }
            return Ok(());
        }
        Err(self.report_unexpected(c))
    }

    fn past_comma(&mut self, c: &mut Compiler)
        requires
            old(self).wf(old(c)),
        ensures
            Self::went(*old(self), *old(c), *final(self), *final(c)),
            final(self).state(final(c)) == grammar::past_comma(old(self).state(old(c))),
    {
        proof {
            self.lemma_wf(c);
        }
        if self.current.t == TokenType::Comma {
            self.next(c);
        }
    }

    fn parse_path(&mut self, c: &mut Compiler) -> (r: Result<PathIdx, AstNode>)
        requires
            old(self).wf(old(c)),
        ensures
            Self::went(*old(self), *old(c), *final(self), *final(c)),
            (final(self).state(final(c)), value_result(r)) == grammar::parse_path(
                old(self).state(old(c)),
            ),
            old(self).has_token(*old(c)) ==> Self::advanced(
                *old(self),
                *old(c),
                *final(self),
                *final(c),
            ),
    {
        let mut p: Vec<StringIdx> = Vec::new();
        match self.expect(c, &[TokenType::Identifier]) {
            Err(e) => {
                return Err(e);
            },
            Ok(_) => {},
        }
        p.push(self.current.content);
        self.next(c);
        assert(p@ =~= seq![old(self).state(old(c)).current.content]);
        while self.current.t == TokenType::DoubleColon
            invariant
                Self::went(*old(self), *old(c), *self, *c),
                Self::advanced(*old(self), *old(c), *self, *c),
                grammar::path_rest(self.state(c), p@) == grammar::parse_path(
                    old(self).state(old(c)),
                ),
            decreases left(self.state(c)),
        {
            self.next(c);
            match self.expect(c, &[TokenType::Identifier]) {
                Err(e) => {
                    return Err(e);
                },
                Ok(_) => {},
            }
            p.push(self.current.content);
            self.next(c);
        }
        Ok(self.intern(c, &p))
    }

    fn parse_t_args_def(&mut self, c: &mut Compiler) -> (r: Result<AstNode, AstNode>)
        requires
            old(self).wf(old(c)),
        ensures
            Self::went(*old(self), *old(c), *final(self), *final(c)),
            (final(self).state(final(c)), tree_result(r)) == grammar::parse_t_args_def(
                old(self).state(old(c)),
            ),
    {
        proof {
            self.lemma_wf(c);
        }
        if self.current.t != TokenType::BracketOpen {
            return Ok(
                AstNode::new(
                    NodeType::ArgumentList,
                    self.current.source,
                    NodeValue::Empty,
                    no_nodes(),
                    self.unknown,
                ),
            );
        }
        let start: Source = self.current.source;
        self.next(c);
        let mut args: Vec<AstNode> = no_nodes();
        while self.current.t != TokenType::BracketClose
            invariant
                Self::went(*old(self), *old(c), *self, *c),
                grammar::t_args_def_rest(self.state(c), start, trees_of(args@))
                    == grammar::parse_t_args_def(old(self).state(old(c))),
            decreases left(self.state(c)),
        {
            match self.expect(c, &[TokenType::Identifier]) {
                Err(e) => {
                    return Err(e);
                },
                Ok(_) => {},
            }
            let arg = AstNode::new(
                NodeType::ArgumentDecl,
                self.current.source,
                NodeValue::String(self.current.content),
                no_nodes(),
                self.unknown,
            );
            self.next(c);
            match self.expect(c, &[TokenType::Comma, TokenType::BracketClose]) {
                Err(e) => {
                    return Err(e);
                },
                Ok(_) => {},
            }
            add_node(&mut args, arg);
            self.past_comma(c);
        }
        let end: Source = self.current.source;
        self.next(c);
        Ok(
            AstNode::new(
                NodeType::ArgumentList,
                Source::across(start, end),
                NodeValue::Empty,
                args,
                self.unknown,
            ),
        )
    }

    fn primitive(t: TokenType) -> (r: Option<NodeType>)
        ensures
            r == grammar::primitive_type(t),
    {
        match t {
            TokenType::KeywordU8 => Some(NodeType::U8Type),
            TokenType::KeywordU16 => Some(NodeType::U16Type),
            TokenType::KeywordU32 => Some(NodeType::U32Type),
            TokenType::KeywordU64 => Some(NodeType::U64Type),
            TokenType::KeywordS8 => Some(NodeType::S8Type),
            TokenType::KeywordS16 => Some(NodeType::S16Type),
            TokenType::KeywordS32 => Some(NodeType::S32Type),
            TokenType::KeywordS64 => Some(NodeType::S64Type),
            TokenType::KeywordF32 => Some(NodeType::F32Type),
            TokenType::KeywordF64 => Some(NodeType::F64Type),
            TokenType::KeywordUsize => Some(NodeType::UsizeType),
            TokenType::KeywordUnit => Some(NodeType::UnitType),
            TokenType::KeywordBool => Some(NodeType::BoolType),
            _ => None,
        }
    }

    fn parse_type(&mut self, c: &mut Compiler) -> (r: Result<AstNode, AstNode>)
        requires
            old(self).wf(old(c)),
        ensures
            Self::went(*old(self), *old(c), *final(self), *final(c)),
            (final(self).state(final(c)), tree_result(r)) == grammar::parse_type(
                old(self).state(old(c)),
            ),
            r is Ok || old(self).has_token(*old(c)) ==> Self::advanced(
                *old(self),
                *old(c),
                *final(self),
                *final(c),
            ),
        decreases left(old(self).state(old(c))), 0nat,
    {
        let start: Source = self.current.source;
        if self.current.t == TokenType::Asterisk {
            self.next(c);
            let mut children: Vec<AstNode> = no_nodes();
            if self.current.t == TokenType::KeywordConst {
                add_node(
                    &mut children,
                    AstNode::empty(NodeType::IsConstant, self.current.source, self.unknown),
                );
                self.next(c);
            }
            let ptr_type: AstNode = match self.parse_type(c) {
                Err(e) => {
                    return Err(e);
                },
                Ok(t) => t,
            };
            let end: Source = ptr_type.source;
            add_node(&mut children, ptr_type);
            return Ok(
                AstNode::new(
                    NodeType::PointerType,
                    Source::across(start, end),
                    NodeValue::Empty,
                    children,
                    self.unknown,
                ),
            );
        }
        match Self::primitive(self.current.t) {
            Some(nt) => {
                self.next(c);
                return Ok(AstNode::empty(nt, start, self.unknown));
            },
            None => {},
        }
        if self.current.t == TokenType::KeywordFun {
            return Err(self.unsupported(c, start));
        }
        if self.current.t == TokenType::Identifier {
            let name: StringIdx = self.current.content;
            self.next(c);
            let t_args: AstNode = match self.parse_t_args(c) {
                Err(e) => {
                    return Err(e);
                },
                Ok(t) => t,
            };
            let end: Source = self.last_source();
            let mut children: Vec<AstNode> = no_nodes();
            add_node(&mut children, t_args);
            return Ok(
                AstNode::new(
                    NodeType::NamespaceAccess,
                    Source::across(start, end),
                    NodeValue::String(name),
                    children,
                    self.unknown,
                ),
            );
        }
        Err(self.report_unexpected(c))
    }

    fn parse_t_args(&mut self, c: &mut Compiler) -> (r: Result<AstNode, AstNode>)
        requires
            old(self).wf(old(c)),
        ensures
            Self::went(*old(self), *old(c), *final(self), *final(c)),
            (final(self).state(final(c)), tree_result(r)) == grammar::parse_t_args(
                old(self).state(old(c)),
            ),
        decreases left(old(self).state(old(c))), 2nat,
    {
        proof {
            self.lemma_wf(c);
        }
        if self.current.t != TokenType::BracketOpen {
            return Ok(
                AstNode::new(
                    NodeType::ArgumentList,
                    self.current.source,
                    NodeValue::Empty,
                    no_nodes(),
                    self.unknown,
                ),
            );
        }
        let start: Source = self.current.source;
        self.next(c);
        let mut args: Vec<AstNode> = no_nodes();
        while self.current.t != TokenType::BracketClose
            invariant
                Self::went(*old(self), *old(c), *self, *c),
                Self::advanced(*old(self), *old(c), *self, *c),
                grammar::t_args_rest(self.state(c), start, trees_of(args@))
                    == grammar::parse_t_args(old(self).state(old(c))),
            decreases left(self.state(c)),
        {
            let arg: AstNode = match self.parse_type(c) {
                Err(e) => {
                    return Err(e);
                },
                Ok(t) => t,
            };
            match self.expect(c, &[TokenType::Comma, TokenType::BracketClose]) {
                Err(e) => {
                    return Err(e);
                },
                Ok(_) => {},
            }
            add_node(&mut args, arg);
            self.past_comma(c);
        }
        let end: Source = self.current.source;
        self.next(c);
        Ok(
            AstNode::new(
                NodeType::ArgumentList,
                Source::across(start, end),
                NodeValue::Empty,
                args,
                self.unknown,
            ),
        )
    }

    fn parse_args_def(&mut self, c: &mut Compiler) -> (r: Result<AstNode, AstNode>)
        requires
            old(self).wf(old(c)),
        ensures
            Self::went(*old(self), *old(c), *final(self), *final(c)),
            (final(self).state(final(c)), tree_result(r)) == grammar::parse_args_def(
                old(self).state(old(c)),
            ),
            old(self).has_token(*old(c)) ==> Self::advanced(
                *old(self),
                *old(c),
                *final(self),
                *final(c),
            ),
    {
        match self.expect(c, &[TokenType::ParenOpen]) {
            Err(e) => {
                return Err(e);
            },
            Ok(_) => {},
        }
        let start: Source = self.current.source;
        self.next(c);
        let mut args: Vec<AstNode> = no_nodes();
        while self.current.t != TokenType::ParenClose
            invariant
                Self::went(*old(self), *old(c), *self, *c),
                Self::advanced(*old(self), *old(c), *self, *c),
                grammar::args_def_rest(self.state(c), start, trees_of(args@))
                    == grammar::parse_args_def(old(self).state(old(c))),
            decreases left(self.state(c)),
        {
            let mut arg_children: Vec<AstNode> = no_nodes();
            let arg_start: Source = self.current.source;
            if self.current.t == TokenType::KeywordConst {
                add_node(
                    &mut arg_children,
                    AstNode::empty(NodeType::IsConstant, self.current.source, self.unknown),
                );
                self.next(c);
            }
            match self.expect(c, &[TokenType::Identifier]) {
                Err(e) => {
                    return Err(e);
                },
                Ok(_) => {},
            }
            let arg_name: StringIdx = self.current.content;
            self.next(c);
            let arg_type: AstNode = match self.parse_type(c) {
                Err(e) => {
                    return Err(e);
                },
                Ok(t) => t,
            };
            let arg_end: Source = arg_type.source;
            add_node(&mut arg_children, arg_type);
            let arg = AstNode::new(
                NodeType::ArgumentDecl,
                Source::across(arg_start, arg_end),
                NodeValue::String(arg_name),
                arg_children,
                self.unknown,
            );
            match self.expect(c, &[TokenType::Comma, TokenType::ParenClose]) {
                Err(e) => {
                    return Err(e);
                },
                Ok(_) => {},
            }
            add_node(&mut args, arg);
            self.past_comma(c);
        }
        let end: Source = self.current.source;
        self.next(c);
        Ok(
            AstNode::new(
                NodeType::ArgumentList,
                Source::across(start, end),
                NodeValue::Empty,
                args,
                self.unknown,
            ),
        )
    }

    fn parse_used_group(
        &mut self,
        c: &mut Compiler,
        bases: &Vec<Vec<StringIdx>>,
    ) -> (r: Result<Vec<Vec<StringIdx>>, AstNode>)
        requires
            old(self).wf(old(c)),
        ensures
            Self::went(*old(self), *old(c), *final(self), *final(c)),
            (final(self).state(final(c)), paths_result(r)) == grammar::used_group(
                old(self).state(old(c)),
                segment_lists(bases@),
                Seq::empty(),
            ),
            old(self).has_token(*old(c)) ==> Self::advanced(
                *old(self),
                *old(c),
                *final(self),
                *final(c),
            ),
        decreases left(old(self).state(old(c))), 2nat,
    {
        let mut alternatives: Vec<Vec<StringIdx>> = Vec::new();
        assert(segment_lists(alternatives@) =~= Seq::<Seq<StringIdx>>::empty());
        proof {
            self.lemma_wf(c);
        }
        while self.current.t != TokenType::ParenClose
            invariant
                Self::went(*old(self), *old(c), *self, *c),
                grammar::used_group(
                    self.state(c),
                    segment_lists(bases@),
                    segment_lists(alternatives@),
                ) == grammar::used_group(
                    old(self).state(old(c)),
                    segment_lists(bases@),
                    Seq::empty(),
                ),
                left(self.state(c)) == left(old(self).state(old(c))) ==> self.state(c) == old(
                    self,
                ).state(old(c)),
            decreases left(self.state(c)),
        {
            let added: Vec<Vec<StringIdx>> = match self.parse_used_paths(c) {
                Err(e) => {
                    return Err(e);
                },
                Ok(a) => a,
            };
            add_paths(&mut alternatives, &added);
            match self.expect(c, &[TokenType::Comma, TokenType::ParenClose]) {
                Err(e) => {
                    return Err(e);
                },
                Ok(_) => {},
            }
            self.past_comma(c);
        }
        self.next(c);
        let mut grouped: Vec<Vec<StringIdx>> = Vec::new();
        assert(segment_lists(grouped@) =~= Seq::<Seq<StringIdx>>::empty());
        add_product(&mut grouped, bases, &alternatives);
        assert(Seq::<Seq<StringIdx>>::empty() + grammar::product(
            segment_lists(bases@),
            segment_lists(alternatives@),
        ) =~= grammar::product(segment_lists(bases@), segment_lists(alternatives@)));
        Ok(grouped)
    }

    fn parse_used_paths(&mut self, c: &mut Compiler) -> (r: Result<Vec<Vec<StringIdx>>, AstNode>)
        requires
            old(self).wf(old(c)),
        ensures
            Self::went(*old(self), *old(c), *final(self), *final(c)),
            (final(self).state(final(c)), paths_result(r)) == grammar::parse_used_paths(
                old(self).state(old(c)),
            ),
            r is Ok || old(self).has_token(*old(c)) ==> Self::advanced(
                *old(self),
                *old(c),
                *final(self),
                *final(c),
            ),
        decreases left(old(self).state(old(c))), 1nat,
    {
        let mut paths: Vec<Vec<StringIdx>> = Vec::new();
        assert(segment_lists(paths@) =~= Seq::<Seq<StringIdx>>::empty());
        proof {
            self.lemma_wf(c);
        }
        loop
            invariant
                Self::went(*old(self), *old(c), *self, *c),
                grammar::used_paths_from(self.state(c), segment_lists(paths@))
                    == grammar::parse_used_paths(old(self).state(old(c))),
                left(self.state(c)) == left(old(self).state(old(c))) ==> self.state(c) == old(
                    self,
                ).state(old(c)),
            decreases left(self.state(c)),
        {
            if self.current.t == TokenType::Asterisk || self.current.t == TokenType::Identifier {
                extend_paths(&mut paths, self.current.content);
                self.next(c);
            } else if self.current.t == TokenType::ParenOpen {
                self.next(c);
                paths = match self.parse_used_group(c, &paths) {
                    Err(e) => {
                        return Err(e);
                    },
                    Ok(grouped) => grouped,
                };
            } else {
                return Err(self.report_unexpected(c));
            }
            if self.current.t != TokenType::DoubleColon {
                return Ok(paths);
            }
            self.next(c);
        }
    }

    fn literal(t: TokenType) -> (r: Option<NodeType>)
        ensures
            r == grammar::literal_node(t),
    {
        match t {
            TokenType::KeywordTrue => Some(NodeType::BooleanLiteral),
            TokenType::KeywordFalse => Some(NodeType::BooleanLiteral),
            TokenType::Integer => Some(NodeType::IntegerLiteral),
            TokenType::Float => Some(NodeType::FloatLiteral),
            TokenType::String => Some(NodeType::StringLiteral),
            TokenType::CString => Some(NodeType::CStringLiteral),
            _ => None,
        }
    }

    fn unary(t: TokenType) -> (r: Option<NodeType>)
        ensures
            r == grammar::unary_node(t),
    {
        match t {
            TokenType::Ampersand => Some(NodeType::AddressOf),
            TokenType::Asterisk => Some(NodeType::Deref),
            TokenType::ExclamationMark => Some(NodeType::LogicalNot),
            TokenType::Minus => Some(NodeType::Negate),
            _ => None,
        }
    }

    fn binary(t: TokenType) -> (r: Option<NodeType>)
        ensures
            r == grammar::binary_node(t),
    {
        match t {
            TokenType::Plus => Some(NodeType::Add),
            TokenType::Minus => Some(NodeType::Subtract),
            TokenType::Asterisk => Some(NodeType::Multiply),
            TokenType::Slash => Some(NodeType::Divide),
            TokenType::Percent => Some(NodeType::Remainder),
            TokenType::LessThan => Some(NodeType::LessThan),
            TokenType::LessThanEqual => Some(NodeType::LessThanEqual),
            TokenType::GreaterThan => Some(NodeType::GreaterThan),
            TokenType::GreaterThanEqual => Some(NodeType::GreaterThanEqual),
            TokenType::DoubleEqual => Some(NodeType::Equal),
            TokenType::NotEqual => Some(NodeType::NotEqual),
            TokenType::DoublePipe => Some(NodeType::LogicalOr),
            TokenType::DoubleAmpersand => Some(NodeType::LogicalAnd),
            _ => None,
        }
    }

    fn assignment(t: TokenType) -> (r: Option<NodeType>)
        ensures
            r == grammar::assign_node(t),
    {
        match t {
            TokenType::Equal => Some(NodeType::Assign),
            TokenType::PlusEqual => Some(NodeType::AssignAdd),
            TokenType::MinusEqual => Some(NodeType::AssignSubtract),
            TokenType::AsteriskEqual => Some(NodeType::AssignMultiply),
            TokenType::SlashEqual => Some(NodeType::AssignDivide),
            TokenType::PercentEqual => Some(NodeType::AssignRemainder),
            _ => None,
        }
    }

    fn parse_full_expression(&mut self, c: &mut Compiler) -> (r: Result<AstNode, AstNode>)
        requires
            old(self).wf(old(c)),
        ensures
            Self::went(*old(self), *old(c), *final(self), *final(c)),
            (final(self).state(final(c)), tree_result(r)) == grammar::parse_full_expression(
                old(self).state(old(c)),
            ),
            r is Ok || old(self).has_token(*old(c)) ==> Self::advanced(
                *old(self),
                *old(c),
                *final(self),
                *final(c),
            ),
    {
        self.parse_expression(c, grammar::PREC_FULL)
    }

    fn parse_expression(&mut self, c: &mut Compiler, precedence: usize) -> (r: Result<
        AstNode,
        AstNode,
    >)
        requires
            old(self).wf(old(c)),
        ensures
            Self::went(*old(self), *old(c), *final(self), *final(c)),
            (final(self).state(final(c)), tree_result(r)) == grammar::parse_expression(
                old(self).state(old(c)),
                precedence,
            ),
            r is Ok || old(self).has_token(*old(c)) ==> Self::advanced(
                *old(self),
                *old(c),
                *final(self),
                *final(c),
            ),
        decreases left(old(self).state(old(c))), 1nat,
    {
        let start: Source = self.current.source;
        if self.current.t == TokenType::Identifier {
            let name: StringIdx = self.current.content;
            self.next(c);
            let t_args: AstNode = match self.parse_t_args(c) {
                Err(e) => {
                    return Err(e);
                },
                Ok(t) => t,
            };
            let mut children: Vec<AstNode> = no_nodes();
            add_node(&mut children, t_args);
            let operand = AstNode::new(
                NodeType::NamespaceAccess,
                Source::across(start, self.last_source()),
                NodeValue::String(name),
                children,
                self.unknown,
            );
            proof {
                grammar::lemma_operators(
                    old(self).state(old(c)),
                    self.state(c),
                    operand@,
                    precedence,
                );
            }
            return self.parse_operators(c, operand, precedence);
        } else if self.current.t == TokenType::KeywordUnit {
            self.next(c);
            let operand = AstNode::empty(NodeType::UnitLiteral, start, self.unknown);
            proof {
                grammar::lemma_operators(
                    old(self).state(old(c)),
                    self.state(c),
                    operand@,
                    precedence,
                );
            }
            return self.parse_operators(c, operand, precedence);
        } else if self.current.t == TokenType::KeywordSizeof {
            self.next(c);
            let sized: AstNode = match self.parse_type(c) {
                Err(e) => {
                    return Err(e);
                },
                Ok(t) => t,
            };
            let end: Source = sized.source;
            let mut children: Vec<AstNode> = no_nodes();
            add_node(&mut children, sized);
            let operand = AstNode::new(
                NodeType::SizeOf,
                Source::across(start, end),
                NodeValue::Empty,
                children,
                self.unknown,
            );
            proof {
                grammar::lemma_operators(
                    old(self).state(old(c)),
                    self.state(c),
                    operand@,
                    precedence,
                );
            }
            return self.parse_operators(c, operand, precedence);
        } else {
            match Self::literal(self.current.t) {
                Some(nt) => {
                    let value: StringIdx = self.current.content;
                    self.next(c);
                    let operand = AstNode::new(nt, start, NodeValue::String(value), no_nodes(), self.unknown);
                    proof {
                        grammar::lemma_operators(
                            old(self).state(old(c)),
                            self.state(c),
                            operand@,
                            precedence,
                        );
                    }
                    return self.parse_operators(c, operand, precedence);
                },
                None => match Self::unary(self.current.t) {
                    Some(nt) => {
                        self.next(c);
                        let value: AstNode = match self.parse_expression(c, grammar::PREC_UNARY) {
                            Err(e) => {
                                return Err(e);
                            },
                            Ok(v) => v,
                        };
                        let end: Source = value.source;
                        let mut children: Vec<AstNode> = no_nodes();
                        add_node(&mut children, value);
                        let operand = AstNode::new(
                            nt,
                            Source::across(start, end),
                            NodeValue::Empty,
                            children,
                            self.unknown,
                        );
                        proof {
                            grammar::lemma_operators(
                                old(self).state(old(c)),
                                self.state(c),
                                operand@,
                                precedence,
                            );
                        }
                        return self.parse_operators(c, operand, precedence);
                    },
                    None => {
                        if self.current.t == TokenType::ParenOpen {
                            self.next(c);
                            let content: AstNode = match self.parse_expression(
                                c,
                                grammar::PREC_FULL,
                            ) {
                                Err(e) => {
                                    return Err(e);
                                },
                                Ok(v) => v,
                            };
                            match self.expect(c, &[TokenType::ParenClose]) {
                                Err(e) => {
                                    return Err(e);
                                },
                                Ok(_) => {},
                            }
                            self.next(c);
                            let operand = content;
                            proof {
                                grammar::lemma_operators(
                                    old(self).state(old(c)),
                                    self.state(c),
                                    operand@,
                                    precedence,
                                );
                            }
                            return self.parse_operators(c, operand, precedence);
                        } else {
                            return Err(self.report_unexpected(c));
                        }
                    },
                },
            }
        }
    }

    fn parse_operators(&mut self, c: &mut Compiler, operand: AstNode, precedence: usize) -> (r:
        Result<AstNode, AstNode>)
        requires
            old(self).wf(old(c)),
        ensures
            Self::went(*old(self), *old(c), *final(self), *final(c)),
            (final(self).state(final(c)), tree_result(r)) == grammar::infix_rest(
                old(self).state(old(c)),
                operand@,
                precedence,
            ),
        decreases left(old(self).state(old(c))), 1nat,
    {
        let mut lhs: AstNode = operand;
        proof {
            self.lemma_wf(c);
        }
        loop
            invariant
                Self::went(*old(self), *old(c), *self, *c),
                grammar::infix_rest(self.state(c), lhs@, precedence) == grammar::infix_rest(
                    old(self).state(old(c)),
                    operand@,
                    precedence,
                ),
            decreases left(self.state(c)),
        {
            let start: Source = self.current.source;
            let operator: TokenType = self.current.t;
            if get_infix_precedence(operator) >= precedence {
                return Ok(lhs);
            }
            if operator == TokenType::ParenOpen {
                self.next(c);
                let args: Vec<AstNode> = match self.parse_call_args(c) {
                    Err(e) => {
                        return Err(e);
                    },
                    Ok(a) => a,
                };
                let end: Source = self.current.source;
                self.next(c);
                let whole: Source = Source::across(lhs.source, end);
                let mut children: Vec<AstNode> = no_nodes();
                add_node(&mut children, lhs);
                add_node(
                    &mut children,
                    AstNode::new(
                        NodeType::ArgumentList,
                        Source::across(start, end),
                        NodeValue::Empty,
                        args,
                        self.unknown,
                    ),
                );
                lhs = AstNode::new(NodeType::Call, whole, NodeValue::Empty, children, self.unknown);
            } else if operator == TokenType::Dot {
                self.next(c);
                match self.expect(c, &[TokenType::Identifier]) {
                    Err(e) => {
                        return Err(e);
                    },
                    Ok(_) => {},
                }
                let name: StringIdx = self.current.content;
                let end: Source = self.current.source;
                self.next(c);
                let whole: Source = Source::across(lhs.source, end);
                let mut children: Vec<AstNode> = no_nodes();
                add_node(&mut children, lhs);
                lhs =
                AstNode::new(
                    NodeType::MemberAccess,
                    whole,
                    NodeValue::String(name),
                    children,
                    self.unknown,
                );
            } else if operator == TokenType::KeywordAs {
                self.next(c);
                let target: AstNode = match self.parse_type(c) {
                    Err(e) => {
                        return Err(e);
                    },
                    Ok(t) => t,
                };
                let whole: Source = Source::across(lhs.source, target.source);
                let mut children: Vec<AstNode> = no_nodes();
                add_node(&mut children, lhs);
                add_node(&mut children, target);
                lhs =
                AstNode::new(
                    NodeType::TypeCast,
                    whole,
                    NodeValue::Empty,
                    children,
                    self.unknown,
                );
            } else {
                match Self::binary(operator) {
                    Some(nt) => {
                        let pr: usize = get_infix_precedence(operator);
                        self.next(c);
                        let rhs: AstNode = match self.parse_expression(c, pr) {
                            Err(e) => {
                                return Err(e);
                            },
                            Ok(v) => v,
                        };
                        let whole: Source = Source::across(lhs.source, rhs.source);
                        let mut children: Vec<AstNode> = no_nodes();
                        add_node(&mut children, lhs);
                        add_node(&mut children, rhs);
                        lhs = AstNode::new(nt, whole, NodeValue::Empty, children, self.unknown);
                    },
                    None => {
                        return Ok(lhs);
                    },
                }
            }
        }
    }

    fn parse_call_args(&mut self, c: &mut Compiler) -> (r: Result<Vec<AstNode>, AstNode>)
        requires
            old(self).wf(old(c)),
        ensures
            Self::went(*old(self), *old(c), *final(self), *final(c)),
            (final(self).state(final(c)), nodes_result(r)) == grammar::call_args_rest(
                old(self).state(old(c)),
                Seq::empty(),
            ),
            r is Ok ==> final(self).state(final(c)).current.t == TokenType::ParenClose,
        decreases left(old(self).state(old(c))), 2nat,
    {
        let mut args: Vec<AstNode> = no_nodes();
        proof {
            self.lemma_wf(c);
        }
        while self.current.t != TokenType::ParenClose
            invariant
                Self::went(*old(self), *old(c), *self, *c),
                grammar::call_args_rest(self.state(c), trees_of(args@)) == grammar::call_args_rest(
                    old(self).state(old(c)),
                    Seq::empty(),
                ),
            decreases left(self.state(c)),
        {
            let arg: AstNode = match self.parse_expression(c, grammar::PREC_FULL) {
                Err(e) => {
                    return Err(e);
                },
                Ok(v) => v,
            };
            match self.expect(c, &[TokenType::ParenClose, TokenType::Comma]) {
                Err(e) => {
                    return Err(e);
                },
                Ok(_) => {},
            }
            add_node(&mut args, arg);
            self.past_comma(c);
        }
        Ok(args)
    }

    fn marks(&self, at: Source, is_public: bool, is_external: bool, is_exported: bool) -> (r: Vec<
        AstNode,
    >)
        ensures
            forall|c: &Compiler|
                trees_of(r@) == grammar::modifier_marks(
                    #[trigger] self.state(c),
                    at,
                    Modifiers { is_public, is_external, is_exported },
                ),
    {
        let mut r: Vec<AstNode> = no_nodes();
        if is_public {
            add_node(&mut r, AstNode::empty(NodeType::IsPublic, at, self.unknown));
        }
        if is_external {
            add_node(&mut r, AstNode::empty(NodeType::IsExternal, at, self.unknown));
        }
        if is_exported {
            add_node(&mut r, AstNode::empty(NodeType::IsExported, at, self.unknown));
        }
        r
    }

    fn parse_module_decl(&mut self, c: &mut Compiler, start: Source) -> (r: Result<
        AstNode,
        AstNode,
    >)
        requires
            old(self).wf(old(c)),
            old(self).has_token(*old(c)),
        ensures
            Self::went(*old(self), *old(c), *final(self), *final(c)),
            Self::advanced(*old(self), *old(c), *final(self), *final(c)),
            (final(self).state(final(c)), tree_result(r)) == grammar::module_decl(
                old(self).state(old(c)),
                start,
            ),
    {
        self.next(c);
        let name: PathIdx = match self.parse_path(c) {
            Err(e) => {
                return Err(e);
            },
            Ok(p) => p,
        };
        Ok(
            AstNode::new(
                NodeType::ModuleDecl,
                Source::across(start, self.last_source()),
                NodeValue::Path(name),
                no_nodes(),
                self.unknown,
            ),
        )
    }

    fn used_nodes(&self, c: &mut Compiler, paths: &Vec<Vec<StringIdx>>, source: Source) -> (r: Vec<
        AstNode,
    >)
        requires
            self.wf(old(c)),
        ensures
            Self::went(*self, *old(c), *self, *final(c)),
            left(self.state(final(c))) == left(self.state(old(c))),
            (self.state(final(c)), trees_of(r@)) == grammar::used_nodes(
                self.state(old(c)),
                segment_lists(paths@),
                source,
            ),
    {
        let mut nodes: Vec<AstNode> = no_nodes();
        let ghost all = segment_lists(paths@);
        let mut i: usize = 0;
        proof {
            self.lemma_wf(c);
            assert(all.take(0) =~= Seq::<Seq<StringIdx>>::empty());
        }
        while i < paths.len()
            invariant
                i <= paths.len(),
                all == segment_lists(paths@),
                Self::went(*self, *old(c), *self, *c),
                left(self.state(c)) == left(self.state(old(c))),
                (self.state(c), trees_of(nodes@)) == grammar::used_nodes(
                    self.state(old(c)),
                    all.take(i as int),
                    source,
                ),
            decreases paths.len() - i,
        {
            proof {
                assert(all.take(i as int + 1).drop_last() =~= all.take(i as int));
                assert(all.take(i as int + 1).last() == paths[i as int]@);
            }
            let path: PathIdx = self.intern(c, &paths[i]);
            add_node(
                &mut nodes,
                AstNode::new(
                    NodeType::UsedPath,
                    source,
                    NodeValue::Path(path),
                    no_nodes(),
                    self.unknown,
                ),
            );
            i = i + 1;
        }
        proof {
            assert(all.take(paths.len() as int) =~= all);
        }
        nodes
    }

    fn parse_usage_decl(&mut self, c: &mut Compiler, start: Source) -> (r: Result<
        AstNode,
        AstNode,
    >)
        requires
            old(self).wf(old(c)),
            old(self).has_token(*old(c)),
        ensures
            Self::went(*old(self), *old(c), *final(self), *final(c)),
            Self::advanced(*old(self), *old(c), *final(self), *final(c)),
            (final(self).state(final(c)), tree_result(r)) == grammar::usage_decl(
                old(self).state(old(c)),
                start,
            ),
    {
        self.next(c);
        let p_source: Source = self.current.source;
        let paths: Vec<Vec<StringIdx>> = match self.parse_used_paths(c) {
            Err(e) => {
                return Err(e);
            },
            Ok(p) => p,
        };
        let children: Vec<AstNode> = self.used_nodes(c, &paths, p_source);
        Ok(
            AstNode::new(
                NodeType::UsageDecl,
                Source::across(start, self.last_source()),
                NodeValue::Empty,
                children,
                self.unknown,
            ),
        )
    }

    fn parse_struct_decl(&mut self, c: &mut Compiler, start: Source, is_public: bool) -> (r: Result<
        AstNode,
        AstNode,
    >)
        requires
            old(self).wf(old(c)),
            old(self).has_token(*old(c)),
        ensures
            Self::went(*old(self), *old(c), *final(self), *final(c)),
            Self::advanced(*old(self), *old(c), *final(self), *final(c)),
            forall|is_external: bool, is_exported: bool|
                (final(self).state(final(c)), tree_result(r)) == #[trigger] grammar::struct_decl(
                    old(self).state(old(c)),
                    start,
                    Modifiers { is_public, is_external, is_exported },
                ),
    {
        let mut children: Vec<AstNode> = no_nodes();
        if is_public {
            add_node(
                &mut children,
                AstNode::empty(NodeType::IsPublic, self.current.source, self.unknown),
            );
        }
        self.next(c);
        match self.expect(c, &[TokenType::Identifier]) {
            Err(e) => {
                return Err(e);
            },
            Ok(_) => {},
        }
        let name: StringIdx = self.current.content;
        self.next(c);
        let t_args: AstNode = match self.parse_t_args_def(c) {
            Err(e) => {
                return Err(e);
            },
            Ok(t) => t,
        };
        add_node(&mut children, t_args);
        let args: AstNode = match self.parse_args_def(c) {
            Err(e) => {
                return Err(e);
            },
            Ok(a) => a,
        };
        let end: Source = args.source;
        add_node(&mut children, args);
        if self.current.t == TokenType::Colon {
            return Err(self.unsupported(c, Source::across(start, end)));
        }
        Ok(
            AstNode::new(
                NodeType::StructDecl,
                Source::across(start, end),
                NodeValue::String(name),
                children,
                self.unknown,
            ),
        )
    }

    fn parse_variable_decl(
        &mut self,
        c: &mut Compiler,
        start: Source,
        global: bool,
        is_public: bool,
        is_external: bool,
        is_exported: bool,
        constant: bool,
    ) -> (r: Result<AstNode, AstNode>)
        requires
            old(self).wf(old(c)),
            old(self).has_token(*old(c)),
        ensures
            Self::went(*old(self), *old(c), *final(self), *final(c)),
            Self::advanced(*old(self), *old(c), *final(self), *final(c)),
            (final(self).state(final(c)), tree_result(r)) == grammar::variable_decl(
                old(self).state(old(c)),
                start,
                global,
                Modifiers { is_public, is_external, is_exported },
                constant,
            ),
    {
        let mut children: Vec<AstNode> = self.marks(
            self.current.source,
            is_public,
            is_external,
            is_exported,
        );
        self.next(c);
        match self.expect(c, &[TokenType::Identifier]) {
            Err(e) => {
                return Err(e);
            },
            Ok(_) => {},
        }
        let name: StringIdx = self.current.content;
        self.next(c);
        let value_type: AstNode = match self.parse_type(c) {
            Err(e) => {
                return Err(e);
            },
            Ok(t) => t,
        };
        let mut end: Source = value_type.source;
        if constant {
            add_node(&mut children, AstNode::empty(NodeType::IsConstant, start, self.unknown));
        }
        add_node(&mut children, value_type);
        if self.current.t == TokenType::Equal || (global && !is_external) {
            match self.expect(c, &[TokenType::Equal]) {
                Err(e) => {
                    return Err(e);
                },
                Ok(_) => {},
            }
            self.next(c);
            let value: AstNode = match self.parse_full_expression(c) {
                Err(e) => {
                    return Err(e);
                },
                Ok(v) => v,
            };
            end = value.source;
            add_node(&mut children, value);
        }
        Ok(
            AstNode::new(
                NodeType::VariableDecl,
                Source::across(start, end),
                NodeValue::String(name),
                children,
                self.unknown,
            ),
        )
    }

    fn parse_return_type(&mut self, c: &mut Compiler) -> (r: Result<AstNode, AstNode>)
        requires
            old(self).wf(old(c)),
        ensures
            Self::went(*old(self), *old(c), *final(self), *final(c)),
            (final(self).state(final(c)), tree_result(r)) == grammar::return_type(
                old(self).state(old(c)),
            ),
    {
        if self.current.t == TokenType::Colon {
            self.next(c);
            self.parse_type(c)
        } else {
            proof {
                self.lemma_wf(c);
            }
            Ok(AstNode::empty(NodeType::UnitType, self.current.source, self.unknown))
        }
    }

    fn parse_expression_statement(&mut self, c: &mut Compiler, start: Source) -> (r: Result<
        AstNode,
        AstNode,
    >)
        requires
            old(self).wf(old(c)),
        ensures
            Self::went(*old(self), *old(c), *final(self), *final(c)),
            old(self).has_token(*old(c)) ==> Self::advanced(
                *old(self),
                *old(c),
                *final(self),
                *final(c),
            ),
            (final(self).state(final(c)), tree_result(r)) == grammar::expression_statement(
                old(self).state(old(c)),
                start,
            ),
    {
        let expr: AstNode = match self.parse_full_expression(c) {
            Err(e) => {
                return Err(e);
            },
            Ok(v) => v,
        };
        match Self::assignment(self.current.t) {
            None => Ok(expr),
            Some(nt) => {
                self.next(c);
                let value: AstNode = match self.parse_full_expression(c) {
                    Err(e) => {
                        return Err(e);
                    },
                    Ok(v) => v,
                };
                let whole: Source = Source::across(start, value.source);
                let mut children: Vec<AstNode> = no_nodes();
                add_node(&mut children, expr);
                add_node(&mut children, value);
                Ok(AstNode::new(nt, whole, NodeValue::Empty, children, self.unknown))
            },
        }
    }

    fn parse_return_statement(&mut self, c: &mut Compiler, start: Source) -> (r: Result<
        AstNode,
        AstNode,
    >)
        requires
            old(self).wf(old(c)),
            old(self).has_token(*old(c)),
        ensures
            Self::went(*old(self), *old(c), *final(self), *final(c)),
            Self::advanced(*old(self), *old(c), *final(self), *final(c)),
            (final(self).state(final(c)), tree_result(r)) == grammar::return_statement(
                old(self).state(old(c)),
                start,
            ),
    {
        self.next(c);
        let returned: AstNode = match self.parse_full_expression(c) {
            Err(e) => {
                return Err(e);
            },
            Ok(v) => v,
        };
        let whole: Source = Source::across(start, returned.source);
        let mut children: Vec<AstNode> = no_nodes();
        add_node(&mut children, returned);
        Ok(AstNode::new(NodeType::Return, whole, NodeValue::Empty, children, self.unknown))
    }

    fn parse_function_decl(
        &mut self,
        c: &mut Compiler,
        start: Source,
        is_public: bool,
        is_external: bool,
        is_exported: bool,
    ) -> (r: Result<AstNode, AstNode>)
        requires
            old(self).wf(old(c)),
            old(self).has_token(*old(c)),
        ensures
            Self::went(*old(self), *old(c), *final(self), *final(c)),
            Self::advanced(*old(self), *old(c), *final(self), *final(c)),
            (final(self).state(final(c)), tree_result(r)) == grammar::function_decl(
                old(self).state(old(c)),
                start,
                Modifiers { is_public, is_external, is_exported },
            ),
        decreases left(old(self).state(old(c))), 0nat,
    {
        let mut children: Vec<AstNode> = self.marks(
            self.current.source,
            is_public,
            is_external,
            is_exported,
        );
        self.next(c);
        match self.expect(c, &[TokenType::Identifier]) {
            Err(e) => {
                return Err(e);
            },
            Ok(_) => {},
        }
        let name: StringIdx = self.current.content;
        self.next(c);
        let t_args: AstNode = match self.parse_t_args_def(c) {
            Err(e) => {
                return Err(e);
            },
            Ok(t) => t,
        };
        proof {
            lemma_tree_children(t_args);
        }
        if is_exported && t_args.children.len() > 0 {
            let mut e: String = String::new();
            e.push('\'');
            e.append(c.strings.text(name));
            e.append("' is exported and may therefore not specify any template arguments");
            assert(e@ =~= grammar::exported_text(self.state(c).strings, name));
            self.complain(c, e, t_args.source);
        }
        add_node(&mut children, t_args);
        let args: AstNode = match self.parse_args_def(c) {
            Err(e) => {
                return Err(e);
            },
            Ok(a) => a,
        };
        add_node(&mut children, args);
        let returned: AstNode = match self.parse_return_type(c) {
            Err(e) => {
                return Err(e);
            },
            Ok(t) => t,
        };
        add_node(&mut children, returned);
        if !is_external {
            let body: AstNode = match self.parse_block(c) {
                Err(e) => {
                    return Err(e);
                },
                Ok(b) => b,
            };
            add_node(&mut children, body);
        }
        Ok(
            AstNode::new(
                NodeType::FunctionDecl,
                Source::across(start, self.last_source()),
                NodeValue::String(name),
                children,
                self.unknown,
            ),
        )
    }

    fn parse_if_statement(&mut self, c: &mut Compiler, start: Source) -> (r: Result<
        AstNode,
        AstNode,
    >)
        requires
            old(self).wf(old(c)),
            old(self).has_token(*old(c)),
        ensures
            Self::went(*old(self), *old(c), *final(self), *final(c)),
            Self::advanced(*old(self), *old(c), *final(self), *final(c)),
            (final(self).state(final(c)), tree_result(r)) == grammar::if_statement(
                old(self).state(old(c)),
                start,
            ),
        decreases left(old(self).state(old(c))), 0nat,
    {
        self.next(c);
        let mut children: Vec<AstNode> = no_nodes();
        let condition: AstNode = match self.parse_full_expression(c) {
            Err(e) => {
                return Err(e);
            },
            Ok(v) => v,
        };
        add_node(&mut children, condition);
        let then: AstNode = match self.parse_block(c) {
            Err(e) => {
                return Err(e);
            },
            Ok(b) => b,
        };
        add_node(&mut children, then);
        if self.current.t == TokenType::KeywordElse {
            self.next(c);
            match self.expect(c, &[TokenType::KeywordIf, TokenType::BraceOpen]) {
                Err(e) => {
                    return Err(e);
                },
                Ok(_) => {},
            }
            if self.current.t == TokenType::BraceOpen {
                let otherwise: AstNode = match self.parse_block(c) {
                    Err(e) => {
                        return Err(e);
                    },
                    Ok(b) => b,
                };
                add_node(&mut children, otherwise);
            } else {
                let nested: AstNode = match self.parse_statement(c, false) {
                    Err(e) => {
                        return Err(e);
                    },
                    Ok(n) => n,
                };
                let at: Source = nested.source;
                let mut inner: Vec<AstNode> = no_nodes();
                add_node(&mut inner, nested);
                add_node(
                    &mut children,
                    AstNode::new(NodeType::Block, at, NodeValue::Empty, inner, self.unknown),
                );
            }
        } else {
            add_node(
                &mut children,
                AstNode::empty(NodeType::Block, self.last_source(), self.unknown),
            );
        }
        Ok(
            AstNode::new(
                NodeType::If,
                Source::across(start, self.last_source()),
                NodeValue::Empty,
                children,
                self.unknown,
            ),
        )
    }

    fn parse_loop_statement(&mut self, c: &mut Compiler, start: Source) -> (r: Result<
        AstNode,
        AstNode,
    >)
        requires
            old(self).wf(old(c)),
            old(self).has_token(*old(c)),
        ensures
            Self::went(*old(self), *old(c), *final(self), *final(c)),
            Self::advanced(*old(self), *old(c), *final(self), *final(c)),
            (final(self).state(final(c)), tree_result(r)) == grammar::loop_statement(
                old(self).state(old(c)),
                start,
            ),
        decreases left(old(self).state(old(c))), 0nat,
    {
        self.next(c);
        let body: AstNode = match self.parse_block(c) {
            Err(e) => {
                return Err(e);
            },
            Ok(b) => b,
        };
        let whole: Source = Source::across(start, body.source);
        let mut children: Vec<AstNode> = no_nodes();
        add_node(&mut children, body);
        Ok(AstNode::new(NodeType::Loop, whole, NodeValue::Empty, children, self.unknown))
    }

    fn parse_while_statement(&mut self, c: &mut Compiler, start: Source) -> (r: Result<
        AstNode,
        AstNode,
    >)
        requires
            old(self).wf(old(c)),
            old(self).has_token(*old(c)),
        ensures
            Self::went(*old(self), *old(c), *final(self), *final(c)),
            Self::advanced(*old(self), *old(c), *final(self), *final(c)),
            (final(self).state(final(c)), tree_result(r)) == grammar::while_statement(
                old(self).state(old(c)),
                start,
            ),
        decreases left(old(self).state(old(c))), 0nat,
    {
        self.next(c);
        let condition: AstNode = match self.parse_full_expression(c) {
            Err(e) => {
                return Err(e);
            },
            Ok(v) => v,
        };
        let body: AstNode = match self.parse_block(c) {
            Err(e) => {
                return Err(e);
            },
            Ok(b) => b,
        };
        let whole: Source = Source::across(start, body.source);
        let mut children: Vec<AstNode> = no_nodes();
        add_node(&mut children, condition);
        add_node(&mut children, body);
        Ok(AstNode::new(NodeType::While, whole, NodeValue::Empty, children, self.unknown))
    }

    fn parse_statement_body(
        &mut self,
        c: &mut Compiler,
        start: Source,
        global: bool,
        is_public: bool,
        is_external: bool,
        is_exported: bool,
    ) -> (r: Result<AstNode, AstNode>)
        requires
            old(self).wf(old(c)),
        ensures
            Self::went(*old(self), *old(c), *final(self), *final(c)),
            old(self).has_token(*old(c)) ==> Self::advanced(
                *old(self),
                *old(c),
                *final(self),
                *final(c),
            ),
            (final(self).state(final(c)), tree_result(r)) == grammar::statement_body(
                old(self).state(old(c)),
                start,
                global,
                Modifiers { is_public, is_external, is_exported },
            ),
        decreases left(old(self).state(old(c))), 1nat,
    {
        match self.current.t {
            TokenType::KeywordMod => self.parse_module_decl(c, start),
            TokenType::KeywordUse => self.parse_usage_decl(c, start),
            TokenType::KeywordStruct => self.parse_struct_decl(c, start, is_public),
            TokenType::KeywordEnum | TokenType::KeywordInterface => {
                let at: Source = Source::across(start, self.current.source);
                Err(self.unsupported(c, at))
            },
            TokenType::KeywordFun => self.parse_function_decl(
                c,
                start,
                is_public,
                is_external,
                is_exported,
            ),
            TokenType::KeywordVar => self.parse_variable_decl(
                c,
                start,
                global,
                is_public,
                is_external,
                is_exported,
                false,
            ),
            TokenType::KeywordConst => self.parse_variable_decl(
                c,
                start,
                global,
                is_public,
                is_external,
                is_exported,
                true,
            ),
            TokenType::KeywordReturn => self.parse_return_statement(c, start),
            TokenType::KeywordContinue => {
                self.next(c);
                Ok(AstNode::empty(NodeType::Continue, start, self.unknown))
            },
            TokenType::KeywordBreak => {
                self.next(c);
                Ok(AstNode::empty(NodeType::Break, start, self.unknown))
            },
            TokenType::KeywordIf => self.parse_if_statement(c, start),
            TokenType::KeywordLoop => self.parse_loop_statement(c, start),
            TokenType::KeywordWhile => self.parse_while_statement(c, start),
            _ => self.parse_expression_statement(c, start),
        }
    }

    fn parse_statement(&mut self, c: &mut Compiler, global: bool) -> (r: Result<AstNode, AstNode>)
        requires
            old(self).wf(old(c)),
        ensures
            Self::went(*old(self), *old(c), *final(self), *final(c)),
            old(self).has_token(*old(c)) ==> Self::advanced(
                *old(self),
                *old(c),
                *final(self),
                *final(c),
            ),
            (final(self).state(final(c)), tree_result(r)) == grammar::parse_statement(
                old(self).state(old(c)),
                global,
            ),
        decreases left(old(self).state(old(c))), 2nat,
    {
        let start: Source = self.current.source;
        let is_public: bool = self.current.t == TokenType::KeywordPub;
        proof {
            self.lemma_wf(c);
        }
        if is_public && global {
            self.next(c);
            match self.expect(
                c,
                &[
                    TokenType::KeywordStruct,
                    TokenType::KeywordEnum,
                    TokenType::KeywordInterface,
                    TokenType::KeywordFun,
                    TokenType::KeywordVar,
                    TokenType::KeywordConst,
                    TokenType::KeywordExt,
                    TokenType::KeywordExp,
                ],
            ) {
                Err(e) => {
                    return Err(e);
                },
                Ok(_) => {},
            }
        }
        let is_external: bool = self.current.t == TokenType::KeywordExt;
        let is_exported: bool = self.current.t == TokenType::KeywordExp;
        if (is_external || is_exported) && global {
            self.next(c);
            match self.expect(
                c,
                &[TokenType::KeywordFun, TokenType::KeywordVar, TokenType::KeywordConst],
            ) {
                Err(e) => {
                    return Err(e);
                },
                Ok(_) => {},
            }
        }
        if global {
            match self.expect(
                c,
                &[
                    TokenType::KeywordMod,
                    TokenType::KeywordUse,
                    TokenType::KeywordStruct,
                    TokenType::KeywordEnum,
                    TokenType::KeywordInterface,
                    TokenType::KeywordFun,
                    TokenType::KeywordVar,
                    TokenType::KeywordConst,
                ],
            ) {
                Err(e) => {
                    return Err(e);
                },
                Ok(_) => {},
            }
        } else {
            match self.expect_not(
                c,
                &[
                    TokenType::KeywordMod,
                    TokenType::KeywordUse,
                    TokenType::KeywordStruct,
                    TokenType::KeywordEnum,
                    TokenType::KeywordInterface,
                    TokenType::KeywordFun,
                ],
            ) {
                Err(e) => {
                    return Err(e);
                },
                Ok(_) => {},
            }
        }
        self.parse_statement_body(c, start, global, is_public, is_external, is_exported)
    }

    fn parse_block(&mut self, c: &mut Compiler) -> (r: Result<AstNode, AstNode>)
        requires
            old(self).wf(old(c)),
        ensures
            Self::went(*old(self), *old(c), *final(self), *final(c)),
            r is Ok || old(self).has_token(*old(c)) ==> Self::advanced(
                *old(self),
                *old(c),
                *final(self),
                *final(c),
            ),
            (final(self).state(final(c)), tree_result(r)) == grammar::parse_block(
                old(self).state(old(c)),
            ),
        decreases left(old(self).state(old(c))), 0nat,
    {
        match self.expect(c, &[TokenType::BraceOpen]) {
            Err(e) => {
                return Err(e);
            },
            Ok(_) => {},
        }
        let start: Source = self.current.source;
        self.next(c);
        let body: Vec<AstNode> = self.parse_statements(c, false);
        match self.expect(c, &[TokenType::BraceClose]) {
            Err(e) => {
                return Err(e);
            },
            Ok(_) => {},
        }
        let end: Source = self.current.source;
        self.next(c);
        Ok(
            AstNode::new(
                NodeType::Block,
                Source::across(start, end),
                NodeValue::Empty,
                body,
                self.unknown,
            ),
        )
    }

    fn parse_statements(&mut self, c: &mut Compiler, global: bool) -> (nodes: Vec<AstNode>)
        requires
            old(self).wf(old(c)),
        ensures
            Self::went(*old(self), *old(c), *final(self), *final(c)),
            (final(self).state(final(c)), trees_of(nodes@)) == grammar::parse_statements(
                old(self).state(old(c)),
                global,
            ),
        decreases left(old(self).state(old(c))), 3nat,
    {
        let mut nodes: Vec<AstNode> = no_nodes();
        proof {
            self.lemma_wf(c);
        }
        loop
            invariant
                Self::went(*old(self), *old(c), *self, *c),
                grammar::statements_rest(self.state(c), global, trees_of(nodes@))
                    == grammar::parse_statements(old(self).state(old(c)), global),
            decreases left(self.state(c)),
        {
            if self.current.t == TokenType::Semicolon {
                self.next(c);
                continue ;
            }
            if self.current.t == TokenType::BraceClose || self.current.t == TokenType::EndOfFile {
                return nodes;
            }
            match self.parse_statement(c, global) {
                Ok(n) => add_node(&mut nodes, n),
                Err(n) => add_node(&mut nodes, n),
            }
        }
    }

    /// Parses the file: its statements at module scope, up to the end of
    /// the file or a `}` that closes nothing.
    ///
    /// Parsing ends, and it passes over no more tokens than there is input
    /// left: at most one for each character that the lexer has not read,
    /// and the current token.
    pub fn parse_file(&mut self, c: &mut Compiler) -> (nodes: Vec<AstNode>)
        requires
            old(self).wf(old(c)),
        ensures
            Self::went(*old(self), *old(c), *final(self), *final(c)),
            (final(self).state(final(c)), trees_of(nodes@)) == grammar::parse_file(
                old(self).state(old(c)),
            ),
            final(self).advances() - old(self).advances() <= left(old(self).state(old(c))),
            left(old(self).state(old(c))) <= old(self).state(old(c)).text.len() + 1,
    {
        self.parse_statements(c, true)
    }
}

} // verus!
