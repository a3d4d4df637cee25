//! The lexer: from the characters of a file to tokens.
//!
//! What the lexer yields is defined here as a function of the text alone
//! (`lex_at`, `next_from`); the executable lexer is proved to compute it.

use vstd::prelude::*;
use vstd::string::*;
use crate::error::{Error, ErrorView};
use crate::interning::{index_after, pool_after, lemma_intern_sound};
use crate::source::Source;
use crate::strings::StringIdx;
use crate::text::{char_width, chars_of, offset_of, scalar_of, text_of, width, lemma_offset_bounds};
use crate::Compiler;

verus! {

/// The kind of a token.
#[derive(Debug, Copy, Clone, PartialEq, Eq, Hash, Structural)]
pub enum TokenType {
    EndOfFile,
    Invalid,
    Whitespace,
    Comment,
    Integer,
    Float,
    String,
    CString,
    Identifier,
    BraceOpen,
    BraceClose,
    BracketOpen,
    BracketClose,
    ParenOpen,
    ParenClose,
    Equal,
    Plus,
    Minus,
    Asterisk,
    Slash,
    Percent,
    PlusEqual,
    MinusEqual,
    AsteriskEqual,
    SlashEqual,
    PercentEqual,
    LessThan,
    GreaterThan,
    LessThanEqual,
    GreaterThanEqual,
    DoubleEqual,
    NotEqual,
    ExclamationMark,
    DoubleAmpersand,
    DoublePipe,
    Colon,
    DoubleColon,
    Comma,
    Semicolon,
    Dot,
    Ampersand,
    KeywordPub,
    KeywordExt,
    KeywordExp,
    KeywordMod,
    KeywordUse,
    KeywordStruct,
    KeywordFun,
    KeywordVar,
    KeywordEnum,
    KeywordInterface,
    KeywordIf,
    KeywordElse,
    KeywordLoop,
    KeywordWhile,
    KeywordReturn,
    KeywordContinue,
    KeywordBreak,
    KeywordAs,
    KeywordSizeof,
    KeywordConst,
    KeywordTrue,
    KeywordFalse,
    KeywordUnit,
    KeywordU8,
    KeywordU16,
    KeywordU32,
    KeywordU64,
    KeywordS8,
    KeywordS16,
    KeywordS32,
    KeywordS64,
    KeywordF32,
    KeywordF64,
    KeywordUsize,
    KeywordBool,
}

/// A token: its kind, its interned content and the bytes it covers. The
/// content of a string token is the decoded string; that of every other
/// token is the text it covers.
#[derive(Debug, Copy, Clone)]
pub struct Token {
    pub t: TokenType,
    pub content: StringIdx,
    pub source: Source,
}

/// A class of characters that a run is made of.
#[derive(Debug, Copy, Clone)]
pub enum CharClass {
    Space,
    Digit,
    Word,
    NotLineFeed,
    NotBraceClose,
}

/// What the lexer complains about.
#[derive(Debug, Copy, Clone)]
pub enum LexFault {
    InvalidCharacter,
    UnclosedString,
    UnclosedCodepoint,
    InvalidCodepoint,
}

/// A complaint of the lexer about the characters `start..end`.
pub struct Problem {
    pub fault: LexFault,
    pub start: int,
    pub end: int,
}

/// One token as a function of the text: its kind, the index of the
/// character after it, its content and the complaints it raises.
pub struct Lexeme {
    pub kind: TokenType,
    pub end: int,
    pub content: Seq<char>,
    pub problems: Seq<Problem>,
}

/// Unicode white space.
pub open spec fn is_space(c: char) -> bool {
    let cp = c as u32;
    (0x09 <= cp <= 0x0D) || cp == 0x20 || cp == 0x85 || cp == 0xA0 || cp == 0x1680 || (0x2000
        <= cp <= 0x200A) || cp == 0x2028 || cp == 0x2029 || cp == 0x202F || cp == 0x205F || cp
        == 0x3000
}

/// An ASCII digit.
pub open spec fn is_digit(c: char) -> bool {
    '0' <= c <= '9'
}

/// An ASCII letter.
pub open spec fn is_letter(c: char) -> bool {
    ('a' <= c <= 'z') || ('A' <= c <= 'Z')
}

/// A character that a word may start with.
pub open spec fn is_word_start(c: char) -> bool {
    is_letter(c) || c == '_'
}

/// A character that a word may go on with.
pub open spec fn is_word_char(c: char) -> bool {
    is_letter(c) || is_digit(c) || c == '_'
}

/// Whether `c` belongs to `class`.
pub open spec fn in_class(class: CharClass, c: char) -> bool {
    match class {
        CharClass::Space => is_space(c),
        CharClass::Digit => is_digit(c),
        CharClass::Word => is_word_char(c),
        CharClass::NotLineFeed => c != '\n',
        CharClass::NotBraceClose => c != '}',
    }
}

/// The character at `i`, or NUL past the end of the text.
pub open spec fn char_or_nul(text: Seq<char>, i: int) -> char {
    if 0 <= i < text.len() {
        text[i]
    } else {
        '\0'
    }
}

/// The end of the longest run of characters of `class` that starts at `i`.
pub open spec fn run_end(text: Seq<char>, i: int, class: CharClass) -> int
    decreases text.len() - i,
{
    if 0 <= i < text.len() && in_class(class, text[i]) {
        run_end(text, i + 1, class)
    } else {
        i
    }
}

/// A run ends where it starts or later, and within the text.
pub proof fn lemma_run_end_bounds(text: Seq<char>, i: int, class: CharClass)
    requires
        0 <= i <= text.len(),
    ensures
        i <= run_end(text, i, class) <= text.len(),
        0 <= i < text.len() && in_class(class, text[i]) ==> i < run_end(text, i, class),
    decreases text.len() - i,
{
    if i < text.len() && in_class(class, text[i]) {
        lemma_run_end_bounds(text, i + 1, class);
    }
}

/// The kind of the word `word`: that of the keyword it spells, else
/// `Identifier`.
pub open spec fn keyword_kind(word: Seq<char>) -> TokenType {
    if word == "pub"@ {
        TokenType::KeywordPub
    } else if word == "ext"@ {
        TokenType::KeywordExt
    } else if word == "exp"@ {
        TokenType::KeywordExp
    } else if word == "mod"@ {
        TokenType::KeywordMod
    } else if word == "use"@ {
        TokenType::KeywordUse
    } else if word == "struct"@ {
        TokenType::KeywordStruct
    } else if word == "fun"@ {
        TokenType::KeywordFun
    } else if word == "var"@ {
        TokenType::KeywordVar
    } else if word == "enum"@ {
        TokenType::KeywordEnum
    } else if word == "interface"@ {
        TokenType::KeywordInterface
    } else if word == "if"@ {
        TokenType::KeywordIf
    } else if word == "else"@ {
        TokenType::KeywordElse
    } else if word == "loop"@ {
        TokenType::KeywordLoop
    } else if word == "while"@ {
        TokenType::KeywordWhile
    } else if word == "return"@ {
        TokenType::KeywordReturn
    } else if word == "continue"@ {
        TokenType::KeywordContinue
    } else if word == "break"@ {
        TokenType::KeywordBreak
    } else if word == "as"@ {
        TokenType::KeywordAs
    } else if word == "sizeof"@ {
        TokenType::KeywordSizeof
    } else if word == "const"@ {
        TokenType::KeywordConst
    } else if word == "true"@ {
        TokenType::KeywordTrue
    } else if word == "false"@ {
        TokenType::KeywordFalse
    } else if word == "unit"@ {
        TokenType::KeywordUnit
    } else if word == "u8"@ {
        TokenType::KeywordU8
    } else if word == "u16"@ {
        TokenType::KeywordU16
    } else if word == "u32"@ {
        TokenType::KeywordU32
    } else if word == "u64"@ {
        TokenType::KeywordU64
    } else if word == "s8"@ {
        TokenType::KeywordS8
    } else if word == "s16"@ {
        TokenType::KeywordS16
    } else if word == "s32"@ {
        TokenType::KeywordS32
    } else if word == "s64"@ {
        TokenType::KeywordS64
    } else if word == "f32"@ {
        TokenType::KeywordF32
    } else if word == "f64"@ {
        TokenType::KeywordF64
    } else if word == "usize"@ {
        TokenType::KeywordUsize
    } else if word == "bool"@ {
        TokenType::KeywordBool
    } else {
        TokenType::Identifier
    }
}

/// The kind of the punctuation made of the two characters `a` and `b`.
pub open spec fn two_char_kind(a: char, b: char) -> Option<TokenType> {
    if b == '=' {
        if a == '+' {
            Some(TokenType::PlusEqual)
        } else if a == '-' {
            Some(TokenType::MinusEqual)
        } else if a == '*' {
            Some(TokenType::AsteriskEqual)
        } else if a == '/' {
            Some(TokenType::SlashEqual)
        } else if a == '%' {
            Some(TokenType::PercentEqual)
        } else if a == '<' {
            Some(TokenType::LessThanEqual)
        } else if a == '>' {
            Some(TokenType::GreaterThanEqual)
        } else if a == '=' {
            Some(TokenType::DoubleEqual)
        } else if a == '!' {
            Some(TokenType::NotEqual)
        } else {
            None
        }
    } else if a == '&' && b == '&' {
        Some(TokenType::DoubleAmpersand)
    } else if a == '|' && b == '|' {
        Some(TokenType::DoublePipe)
    } else if a == ':' && b == ':' {
        Some(TokenType::DoubleColon)
    } else {
        None
    }
}

/// The kind of the punctuation made of the character `a` alone.
pub open spec fn one_char_kind(a: char) -> Option<TokenType> {
    if a == '{' {
        Some(TokenType::BraceOpen)
    } else if a == '}' {
        Some(TokenType::BraceClose)
    } else if a == '[' {
        Some(TokenType::BracketOpen)
    } else if a == ']' {
        Some(TokenType::BracketClose)
    } else if a == '(' {
        Some(TokenType::ParenOpen)
    } else if a == ')' {
        Some(TokenType::ParenClose)
    } else if a == '=' {
        Some(TokenType::Equal)
    } else if a == '+' {
        Some(TokenType::Plus)
    } else if a == '-' {
        Some(TokenType::Minus)
    } else if a == '*' {
        Some(TokenType::Asterisk)
    } else if a == '/' {
        Some(TokenType::Slash)
    } else if a == '%' {
        Some(TokenType::Percent)
    } else if a == '<' {
        Some(TokenType::LessThan)
    } else if a == '>' {
        Some(TokenType::GreaterThan)
    } else if a == '!' {
        Some(TokenType::ExclamationMark)
    } else if a == ':' {
        Some(TokenType::Colon)
    } else if a == ',' {
        Some(TokenType::Comma)
    } else if a == ';' {
        Some(TokenType::Semicolon)
    } else if a == '.' {
        Some(TokenType::Dot)
    } else if a == '&' {
        Some(TokenType::Ampersand)
    } else {
        None
    }
}

/// The value of the hexadecimal digit `c`.
pub open spec fn hex_digit(c: char) -> Option<int> {
    if '0' <= c <= '9' {
        Some(c as int - '0' as int)
    } else if 'a' <= c <= 'f' {
        Some(c as int - 'a' as int + 10)
    } else if 'A' <= c <= 'F' {
        Some(c as int - 'A' as int + 10)
    } else {
        None
    }
}

/// The value of the hexadecimal digits `digits`, if they are all digits.
pub open spec fn hex_value(digits: Seq<char>) -> Option<int>
    decreases digits.len(),
{
    if digits.len() == 0 {
        Some(0)
    } else {
        match (hex_value(digits.drop_last()), hex_digit(digits.last())) {
            (Some(v), Some(d)) => Some(16 * v + d),
            _ => None,
        }
    }
}

/// The character that the payload of a `\u{..}` escape names: the payload
/// is one or more hexadecimal digits whose value is a Unicode scalar value.
pub open spec fn codepoint(payload: Seq<char>) -> Option<char> {
    if payload.len() == 0 {
        None
    } else {
        match hex_value(payload) {
            Some(v) => scalar_of(v),
            None => None,
        }
    }
}

/// The rest of a string literal that was opened at `open`, from the
/// character `j` on, given the content decoded and the complaints raised so
/// far. Escapes are decoded: `\0`, `\n`, `\r`, `\t`, a backslash before a
/// line feed (which yields nothing), and `\u{..}`; a backslash before any
/// other character yields that character.
pub open spec fn scan_string(
    text: Seq<char>,
    open: int,
    j: int,
    content: Seq<char>,
    problems: Seq<Problem>,
) -> Lexeme
    decreases text.len() - j,
{
    if j < 0 || j >= text.len() {
        Lexeme {
            kind: TokenType::String,
            end: j,
            content,
            problems: problems.push(
                Problem { fault: LexFault::UnclosedString, start: open, end: open + 1 },
            ),
        }
    } else if text[j] == '"' {
        Lexeme { kind: TokenType::String, end: j + 1, content, problems }
    } else if text[j] != '\\' {
        scan_string(text, open, j + 1, content.push(text[j]), problems)
    } else if j + 1 >= text.len() {
        scan_string(text, open, j + 1, content, problems)
    } else {
        let e = text[j + 1];
        if e == '\n' {
            scan_string(text, open, j + 2, content, problems)
        } else if e == '0' {
            scan_string(text, open, j + 2, content.push('\0'), problems)
        } else if e == 'n' {
            scan_string(text, open, j + 2, content.push('\n'), problems)
        } else if e == 'r' {
            scan_string(text, open, j + 2, content.push('\r'), problems)
        } else if e == 't' {
            scan_string(text, open, j + 2, content.push('\t'), problems)
        } else if e == 'u' && char_or_nul(text, j + 2) == '{' {
            let close = run_end(text, j + 3, CharClass::NotBraceClose);
            let after = if close < text.len() {
                close + 1
            } else {
                close
            };
            let problems1 = if close < text.len() {
                problems
            } else {
                problems.push(Problem { fault: LexFault::UnclosedCodepoint, start: j, end: close })
            };
            proof {
                lemma_run_end_bounds(text, j + 3, CharClass::NotBraceClose);
            }
            match codepoint(text.subrange(j + 3, close)) {
                Some(ch) => scan_string(text, open, after, content.push(ch), problems1),
                None => scan_string(
                    text,
                    open,
                    after,
                    content.push('\u{FFFD}'),
                    problems1.push(
                        Problem { fault: LexFault::InvalidCodepoint, start: j + 3, end: close },
                    ),
                ),
            }
        } else {
            scan_string(text, open, j + 2, content.push(e), problems)
        }
    }
}

/// A token whose content is the text `i..end` that it covers.
pub open spec fn plain(text: Seq<char>, i: int, end: int, kind: TokenType) -> Lexeme {
    Lexeme { kind, end, content: text.subrange(i, end), problems: Seq::empty() }
}

/// The token that starts at the character `i` of `text`.
pub open spec fn lex_at(text: Seq<char>, i: int) -> Lexeme {
    if i < 0 || i >= text.len() {
        Lexeme {
            kind: TokenType::EndOfFile,
            end: i,
            content: Seq::empty(),
            problems: Seq::empty(),
        }
    } else {
        let c = text[i];
        let d = char_or_nul(text, i + 1);
        if is_space(c) {
            plain(text, i, run_end(text, i, CharClass::Space), TokenType::Whitespace)
        } else if c == 'c' && d == '"' {
            Lexeme {
                kind: TokenType::CString,
                ..scan_string(text, i, i + 2, Seq::empty(), Seq::empty())
            }
        } else if c == '"' {
            scan_string(text, i, i + 1, Seq::empty(), Seq::empty())
        } else if is_digit(c) {
            let e = run_end(text, i, CharClass::Digit);
            if char_or_nul(text, e) == '.' {
                plain(text, i, run_end(text, e + 1, CharClass::Digit), TokenType::Float)
            } else {
                plain(text, i, e, TokenType::Integer)
            }
        } else if is_word_start(c) {
            let e = run_end(text, i, CharClass::Word);
            plain(text, i, e, keyword_kind(text.subrange(i, e)))
        } else if c == '#' {
            plain(text, i, run_end(text, i, CharClass::NotLineFeed), TokenType::Comment)
        } else if two_char_kind(c, d) is Some {
            plain(text, i, i + 2, two_char_kind(c, d)->0)
        } else if one_char_kind(c) is Some {
            plain(text, i, i + 1, one_char_kind(c)->0)
        } else {
            Lexeme {
                kind: TokenType::Invalid,
                end: i + 1,
                content: text.subrange(i, i + 1),
                problems: seq![Problem { fault: LexFault::InvalidCharacter, start: i, end: i + 1 }],
            }
        }
    }
}

/// The rest of a string literal ends after the place where it is taken up,
/// and within the text.
pub proof fn lemma_scan_string_bounds(
    text: Seq<char>,
    open: int,
    j: int,
    content: Seq<char>,
    problems: Seq<Problem>,
)
    requires
        0 <= j <= text.len(),
    ensures
        j <= scan_string(text, open, j, content, problems).end <= text.len(),
        scan_string(text, open, j, content, problems).kind == TokenType::String,
    decreases text.len() - j,
{
    if j >= text.len() {
    } else if text[j] == '"' {
    } else if text[j] != '\\' {
        lemma_scan_string_bounds(text, open, j + 1, content.push(text[j]), problems);
    } else if j + 1 >= text.len() {
        lemma_scan_string_bounds(text, open, j + 1, content, problems);
    } else {
        let e = text[j + 1];
        if e == '\n' {
            lemma_scan_string_bounds(text, open, j + 2, content, problems);
        } else if e == '0' {
            lemma_scan_string_bounds(text, open, j + 2, content.push('\0'), problems);
        } else if e == 'n' {
            lemma_scan_string_bounds(text, open, j + 2, content.push('\n'), problems);
        } else if e == 'r' {
            lemma_scan_string_bounds(text, open, j + 2, content.push('\r'), problems);
        } else if e == 't' {
            lemma_scan_string_bounds(text, open, j + 2, content.push('\t'), problems);
        } else if e == 'u' && char_or_nul(text, j + 2) == '{' {
            lemma_run_end_bounds(text, j + 3, CharClass::NotBraceClose);
            let close = run_end(text, j + 3, CharClass::NotBraceClose);
            let after = if close < text.len() {
                close + 1
            } else {
                close
            };
            let problems1 = if close < text.len() {
                problems
            } else {
                problems.push(Problem { fault: LexFault::UnclosedCodepoint, start: j, end: close })
            };
            match codepoint(text.subrange(j + 3, close)) {
                Some(ch) => lemma_scan_string_bounds(
                    text,
                    open,
                    after,
                    content.push(ch),
                    problems1,
                ),
                None => lemma_scan_string_bounds(
                    text,
                    open,
                    after,
                    content.push('\u{FFFD}'),
                    problems1.push(
                        Problem { fault: LexFault::InvalidCodepoint, start: j + 3, end: close },
                    ),
                ),
            }
        } else {
            lemma_scan_string_bounds(text, open, j + 2, content.push(e), problems);
        }
    }
}

/// Every token but the one at the end of the text covers at least one
/// character, and none reaches beyond the text.
pub proof fn lemma_lex_advances(text: Seq<char>, i: int)
    requires
        0 <= i <= text.len(),
    ensures
        i <= lex_at(text, i).end <= text.len(),
        i < text.len() ==> i < lex_at(text, i).end,
        lex_at(text, i).kind == TokenType::EndOfFile <==> i == text.len(),
{
    if i < text.len() {
        let c = text[i];
        let d = char_or_nul(text, i + 1);
        lemma_run_end_bounds(text, i, CharClass::Space);
        lemma_run_end_bounds(text, i, CharClass::Digit);
        lemma_run_end_bounds(text, i, CharClass::Word);
        lemma_run_end_bounds(text, i, CharClass::NotLineFeed);
        if is_space(c) {
        } else if c == 'c' && d == '"' {
            lemma_scan_string_bounds(text, i, i + 2, Seq::empty(), Seq::empty());
        } else if c == '"' {
            lemma_scan_string_bounds(text, i, i + 1, Seq::empty(), Seq::empty());
        } else if is_digit(c) {
            let e = run_end(text, i, CharClass::Digit);
            if char_or_nul(text, e) == '.' {
                lemma_run_end_bounds(text, e + 1, CharClass::Digit);
            }
        } else if is_word_start(c) {
            lemma_keyword_not_end(text.subrange(i, run_end(text, i, CharClass::Word)));
        } else if c == '#' {
        } else if two_char_kind(c, d) is Some {
            lemma_punctuation_not_end(c, d);
        } else if one_char_kind(c) is Some {
            lemma_punctuation_not_end(c, d);
        }
    }
}

/// No word is the end of the file.
pub proof fn lemma_keyword_not_end(word: Seq<char>)
    ensures
        keyword_kind(word) != TokenType::EndOfFile,
        keyword_kind(word) != TokenType::Invalid,
        keyword_kind(word) != TokenType::Whitespace,
        keyword_kind(word) != TokenType::Comment,
{
}

/// No punctuation is the end of the file, nor anything that is skipped.
pub proof fn lemma_punctuation_not_end(a: char, b: char)
    ensures
        two_char_kind(a, b) matches Some(k) ==> !is_trivia(k) && k != TokenType::EndOfFile,
        one_char_kind(a) matches Some(k) ==> !is_trivia(k) && k != TokenType::EndOfFile,
{
}

/// Kinds of tokens that `next` passes over.
pub open spec fn is_trivia(kind: TokenType) -> bool {
    kind == TokenType::Invalid || kind == TokenType::Comment || kind == TokenType::Whitespace
}

/// The texts `start..end` of all tokens from the character `i` on.
pub open spec fn lexemes(text: Seq<char>, i: int) -> Seq<Seq<char>>
    decreases text.len() - i,
{
    if i < 0 || i >= text.len() {
        Seq::empty()
    } else {
        proof {
            lemma_lex_advances(text, i);
        }
        seq![text.subrange(i, lex_at(text, i).end)] + lexemes(text, lex_at(text, i).end)
    }
}

/// Round trip: the texts that the tokens of `text` cover, white space and
/// comments included, put one after the other, are `text` again.
pub proof fn lemma_lexemes_cover(text: Seq<char>, i: int)
    requires
        0 <= i <= text.len(),
    ensures
        lexemes(text, i).flatten() == text.subrange(i, text.len() as int),
    decreases text.len() - i,
{
    lemma_lex_advances(text, i);
    if i >= text.len() {
        assert(lexemes(text, i).flatten() =~= text.subrange(i, text.len() as int));
    } else {
        let e = lex_at(text, i).end;
        lemma_lexemes_cover(text, e);
        let head = seq![text.subrange(i, e)];
        vstd::seq_lib::lemma_flatten_concat(head, lexemes(text, e));
        head.lemma_flatten_one_element();
        assert(text.subrange(i, e) + text.subrange(e, text.len() as int) =~= text.subrange(
            i,
            text.len() as int,
        ));
    }
}

/// The content of a token that is no string is the text that it covers.
pub proof fn lemma_content_is_lexeme(text: Seq<char>, i: int)
    requires
        0 <= i <= text.len(),
    ensures
        lex_at(text, i).kind != TokenType::String && lex_at(text, i).kind != TokenType::CString
            ==> lex_at(text, i).content == text.subrange(i, lex_at(text, i).end),
{
    lemma_lex_advances(text, i);
    if i < text.len() {
        let c = text[i];
        let d = char_or_nul(text, i + 1);
        if c == '"' {
            lemma_scan_string_bounds(text, i, i + 1, Seq::empty(), Seq::empty());
        }
    } else {
        assert(text.subrange(i, i) =~= Seq::<char>::empty());
    }
}

/// The reason given for a complaint of the lexer.
pub open spec fn fault_reason(fault: LexFault) -> Seq<char> {
    match fault {
        LexFault::InvalidCharacter => "invalid character"@,
        LexFault::UnclosedString => "unclosed string literal"@,
        LexFault::UnclosedCodepoint => "unclosed unicode codepoint sequence"@,
        LexFault::InvalidCodepoint => "invalid unicode codepoint sequence"@,
    }
}

/// The diagnostic for a complaint about the file `file` with text `text`.
pub open spec fn problem_error(file: StringIdx, text: Seq<char>, p: Problem) -> ErrorView {
    ErrorView {
        reason: fault_reason(p.fault),
        marked: Some(
            Source {
                file,
                start: offset_of(text, p.start) as usize,
                end: offset_of(text, p.end) as usize,
            },
        ),
    }
}

/// The diagnostics for a list of complaints.
pub open spec fn problem_errors(file: StringIdx, text: Seq<char>, problems: Seq<Problem>) -> Seq<
    ErrorView,
> {
    Seq::new(problems.len(), |k: int| problem_error(file, text, problems[k]))
}

/// The token that `lex_at` describes, once its content has the index
/// `content`.
pub open spec fn token_of(
    file: StringIdx,
    text: Seq<char>,
    i: int,
    lexeme: Lexeme,
    content: int,
) -> Token {
    Token {
        t: lexeme.kind,
        content: StringIdx(content as usize),
        source: Source {
            file,
            start: offset_of(text, i) as usize,
            end: offset_of(text, lexeme.end) as usize,
        },
    }
}

/// What reading the next significant token comes to: the token, where the
/// lexer stands after it, and the strings and diagnostics that exist then.
pub struct Step {
    pub token: Token,
    pub cursor: int,
    pub strings: Seq<Seq<char>>,
    pub errors: Seq<ErrorView>,
}

/// Reads tokens from the character `i` on until one is neither white space,
/// nor a comment, nor invalid. The content of every token read is interned,
/// and every complaint becomes a diagnostic.
pub open spec fn next_from(
    file: StringIdx,
    text: Seq<char>,
    i: int,
    strings: Seq<Seq<char>>,
    errors: Seq<ErrorView>,
) -> Step
    decreases text.len() - i,
{
    let lexeme = lex_at(text, i);
    let strings1 = pool_after(strings, lexeme.content);
    let errors1 = errors + problem_errors(file, text, lexeme.problems);
    if is_trivia(lexeme.kind) {
        proof {
            lemma_lex_advances(text, i);
        }
        next_from(file, text, lexeme.end, strings1, errors1)
    } else {
        Step {
            token: token_of(file, text, i, lexeme, index_after(strings, lexeme.content)),
            cursor: lexeme.end,
            strings: strings1,
            errors: errors1,
        }
    }
}

/// The next significant token ends within the text, after the place where
/// reading starts unless that is the end of the text; only there is it the
/// end of the file. Strings and diagnostics are only ever added.
pub proof fn lemma_next_from(
    file: StringIdx,
    text: Seq<char>,
    i: int,
    strings: Seq<Seq<char>>,
    errors: Seq<ErrorView>,
)
    requires
        0 <= i <= text.len(),
        strings.no_duplicates(),
    ensures
        i <= next_from(file, text, i, strings, errors).cursor <= text.len(),
        i < text.len() ==> i < next_from(file, text, i, strings, errors).cursor,
        !is_trivia(next_from(file, text, i, strings, errors).token.t),
        next_from(file, text, i, strings, errors).token.t == TokenType::EndOfFile ==> next_from(
            file,
            text,
            i,
            strings,
            errors,
        ).cursor == text.len(),
        next_from(file, text, i, strings, errors).strings.no_duplicates(),
        strings.is_prefix_of(next_from(file, text, i, strings, errors).strings),
        errors.is_prefix_of(next_from(file, text, i, strings, errors).errors),
        next_from(file, text, i, strings, errors).token.source.file == file,
    decreases text.len() - i,
{
    lemma_lex_advances(text, i);
    let lexeme = lex_at(text, i);
    lemma_intern_sound(strings, lexeme.content);
    let strings1 = pool_after(strings, lexeme.content);
    let errors1 = errors + problem_errors(file, text, lexeme.problems);
    if is_trivia(lexeme.kind) {
        lemma_next_from(file, text, lexeme.end, strings1, errors1);
    }
}

/// How a token is named in a diagnostic: the end of the file by these
/// words, any other token by its content between backticks.
pub open spec fn token_text(strings: Seq<Seq<char>>, token: Token) -> Seq<char> {
    if token.t == TokenType::EndOfFile {
        "end of file"@
    } else {
        seq!['`'] + crate::strings::text_at(strings, token.content) + seq!['`']
    }
}

impl Token {
    /// How the token is named in a diagnostic.
    pub fn display(&self, c: &Compiler) -> (r: String)
        ensures
            r@ == token_text(c.strings@, *self),
    {
        if self.t == TokenType::EndOfFile {
            "end of file".to_string()
        } else {
            let mut r: String = String::new();
            r.push('`');
            r.append(c.strings.text(self.content));
            r.push('`');
            assert(r@ =~= seq!['`'] + crate::strings::text_at(c.strings@, self.content) + seq![
                '`',
            ]);
            r
        }
    }
}

fn space(c: char) -> (r: bool)
    ensures
        r == is_space(c),
{
    let cp: u32 = c as u32;
    (0x09 <= cp && cp <= 0x0D) || cp == 0x20 || cp == 0x85 || cp == 0xA0 || cp == 0x1680 || (
    0x2000 <= cp && cp <= 0x200A) || cp == 0x2028 || cp == 0x2029 || cp == 0x202F || cp == 0x205F
        || cp == 0x3000
}

fn digit(c: char) -> (r: bool)
    ensures
        r == is_digit(c),
{
    '0' <= c && c <= '9'
}

fn letter(c: char) -> (r: bool)
    ensures
        r == is_letter(c),
{
    ('a' <= c && c <= 'z') || ('A' <= c && c <= 'Z')
}

fn belongs(class: CharClass, c: char) -> (r: bool)
    ensures
        r == in_class(class, c),
{
    match class {
        CharClass::Space => space(c),
        CharClass::Digit => digit(c),
        CharClass::Word => letter(c) || digit(c) || c == '_',
        CharClass::NotLineFeed => c != '\n',
        CharClass::NotBraceClose => c != '}',
    }
}

fn spells(word: &Vec<char>, keyword: &str) -> (r: bool)
    ensures
        r == (word@ == keyword@),
{
    let letters = chars_of(keyword);
    if letters.len() != word.len() {
        return false;
    }
    let mut i: usize = 0;
    while i < word.len()
        invariant
            letters.len() == word.len(),
            letters@ == keyword@,
            i <= word.len(),
            forall|k: int| 0 <= k < i ==> word@[k] == letters@[k],
        decreases word.len() - i,
    {
        if word[i] != letters[i] {
            return false;
        }
        i = i + 1;
    }
    assert(word@ =~= keyword@);
    true
}

fn keyword_of(word: &Vec<char>) -> (r: TokenType)
    ensures
        r == keyword_kind(word@),
{
    if spells(word, "pub") {
        TokenType::KeywordPub
    } else if spells(word, "ext") {
        TokenType::KeywordExt
    } else if spells(word, "exp") {
        TokenType::KeywordExp
    } else if spells(word, "mod") {
        TokenType::KeywordMod
    } else if spells(word, "use") {
        TokenType::KeywordUse
    } else if spells(word, "struct") {
        TokenType::KeywordStruct
    } else if spells(word, "fun") {
        TokenType::KeywordFun
    } else if spells(word, "var") {
        TokenType::KeywordVar
    } else if spells(word, "enum") {
        TokenType::KeywordEnum
    } else if spells(word, "interface") {
        TokenType::KeywordInterface
    } else if spells(word, "if") {
        TokenType::KeywordIf
    } else if spells(word, "else") {
        TokenType::KeywordElse
    } else if spells(word, "loop") {
        TokenType::KeywordLoop
    } else if spells(word, "while") {
        TokenType::KeywordWhile
    } else if spells(word, "return") {
        TokenType::KeywordReturn
    } else if spells(word, "continue") {
        TokenType::KeywordContinue
    } else if spells(word, "break") {
        TokenType::KeywordBreak
    } else if spells(word, "as") {
        TokenType::KeywordAs
    } else if spells(word, "sizeof") {
        TokenType::KeywordSizeof
    } else if spells(word, "const") {
        TokenType::KeywordConst
    } else if spells(word, "true") {
        TokenType::KeywordTrue
    } else if spells(word, "false") {
        TokenType::KeywordFalse
    } else if spells(word, "unit") {
        TokenType::KeywordUnit
    } else if spells(word, "u8") {
        TokenType::KeywordU8
    } else if spells(word, "u16") {
        TokenType::KeywordU16
    } else if spells(word, "u32") {
        TokenType::KeywordU32
    } else if spells(word, "u64") {
        TokenType::KeywordU64
    } else if spells(word, "s8") {
        TokenType::KeywordS8
    } else if spells(word, "s16") {
        TokenType::KeywordS16
    } else if spells(word, "s32") {
        TokenType::KeywordS32
    } else if spells(word, "s64") {
        TokenType::KeywordS64
    } else if spells(word, "f32") {
        TokenType::KeywordF32
    } else if spells(word, "f64") {
        TokenType::KeywordF64
    } else if spells(word, "usize") {
        TokenType::KeywordUsize
    } else if spells(word, "bool") {
        TokenType::KeywordBool
    } else {
        TokenType::Identifier
    }
}

fn two_char(a: char, b: char) -> (r: Option<TokenType>)
    ensures
        r == two_char_kind(a, b),
{
    if b == '=' {
        if a == '+' {
            Some(TokenType::PlusEqual)
        } else if a == '-' {
            Some(TokenType::MinusEqual)
        } else if a == '*' {
            Some(TokenType::AsteriskEqual)
        } else if a == '/' {
            Some(TokenType::SlashEqual)
        } else if a == '%' {
            Some(TokenType::PercentEqual)
        } else if a == '<' {
            Some(TokenType::LessThanEqual)
        } else if a == '>' {
            Some(TokenType::GreaterThanEqual)
        } else if a == '=' {
            Some(TokenType::DoubleEqual)
        } else if a == '!' {
            Some(TokenType::NotEqual)
        } else {
            None
        }
    } else if a == '&' && b == '&' {
        Some(TokenType::DoubleAmpersand)
    } else if a == '|' && b == '|' {
        Some(TokenType::DoublePipe)
    } else if a == ':' && b == ':' {
        Some(TokenType::DoubleColon)
    } else {
        None
    }
}

fn one_char(a: char) -> (r: Option<TokenType>)
    ensures
        r == one_char_kind(a),
{
    if a == '{' {
        Some(TokenType::BraceOpen)
    } else if a == '}' {
        Some(TokenType::BraceClose)
    } else if a == '[' {
        Some(TokenType::BracketOpen)
    } else if a == ']' {
        Some(TokenType::BracketClose)
    } else if a == '(' {
        Some(TokenType::ParenOpen)
    } else if a == ')' {
        Some(TokenType::ParenClose)
    } else if a == '=' {
        Some(TokenType::Equal)
    } else if a == '+' {
        Some(TokenType::Plus)
    } else if a == '-' {
        Some(TokenType::Minus)
    } else if a == '*' {
        Some(TokenType::Asterisk)
    } else if a == '/' {
        Some(TokenType::Slash)
    } else if a == '%' {
        Some(TokenType::Percent)
    } else if a == '<' {
        Some(TokenType::LessThan)
    } else if a == '>' {
        Some(TokenType::GreaterThan)
    } else if a == '!' {
        Some(TokenType::ExclamationMark)
    } else if a == ':' {
        Some(TokenType::Colon)
    } else if a == ',' {
        Some(TokenType::Comma)
    } else if a == ';' {
        Some(TokenType::Semicolon)
    } else if a == '.' {
        Some(TokenType::Dot)
    } else if a == '&' {
        Some(TokenType::Ampersand)
    } else {
        None
    }
}

fn hex_digit_of(c: char) -> (r: Option<u32>)
    ensures
        r is Some <==> hex_digit(c) is Some,
        r matches Some(d) ==> hex_digit(c) == Some(d as int) && d < 16,
{
    if '0' <= c && c <= '9' {
        Some(c as u32 - '0' as u32)
    } else if 'a' <= c && c <= 'f' {
        Some(c as u32 - 'a' as u32 + 10)
    } else if 'A' <= c && c <= 'F' {
        Some(c as u32 - 'A' as u32 + 10)
    } else {
        None
    }
}

/// The character that the payload `chars[from..to]` of a `\u{..}` escape
/// names.
pub fn parse_codepoint(chars: &Vec<char>, from: usize, to: usize) -> (r: Option<char>)
    requires
        from <= to <= chars.len(),
    ensures
        r == codepoint(chars@.subrange(from as int, to as int)),
{
    let ghost payload = chars@.subrange(from as int, to as int);
    let mut value: u32 = 0;
    let mut valid: bool = true;
    let ghost mut exact: int = 0;
    let mut k: usize = from;
    proof {
        assert(payload.take(0) =~= Seq::<char>::empty());
    }
    while k < to
        invariant
            from <= k <= to <= chars.len(),
            payload == chars@.subrange(from as int, to as int),
            valid ==> hex_value(payload.take(k - from)) == Some(exact),
            !valid ==> hex_value(payload.take(k - from)) is None,
            0 <= exact,
            value <= 0x110000,
            valid ==> (exact <= 0x10FFFF ==> value == exact),
            valid ==> (exact > 0x10FFFF ==> value == 0x110000),
        decreases to - k,
    {
        proof {
            let now = payload.take(k - from + 1);
            assert(now.drop_last() =~= payload.take(k - from));
            assert(now.last() == chars@[k as int]);
        }
        match hex_digit_of(chars[k]) {
            Some(d) => {
                if valid {
                    proof {
                        exact = 16 * exact + d;
                    }
                    if value >= 0x110000 {
                        value = 0x110000;
                    } else {
                        value = 16 * value + d;
                        if value > 0x10FFFF {
                            value = 0x110000;
                        }
                    }
                }
            },
            None => {
                valid = false;
            },
        }
        k = k + 1;
    }
    proof {
        assert(payload.take(to - from) =~= payload);
    }
    if !valid || from == to || value > 0x10FFFF {
        None
    } else {
        char::from_u32(value)
    }
}

/// A reader of tokens over the characters of one file.
#[derive(Debug)]
pub struct Lexer {
    path: StringIdx,
    source: Vec<char>,
    idx: usize,
    pos: usize,
    start: usize,
    buffer: Vec<char>,
}

impl Lexer {
    /// The text that is read.
    pub closed spec fn text(&self) -> Seq<char> {
        self.source@
    }

    /// The index of the character at which the next token starts.
    pub closed spec fn cursor(&self) -> int {
        self.idx as int
    }

    /// The file that the text belongs to.
    pub closed spec fn file(&self) -> StringIdx {
        self.path
    }

    spec fn inv(&self) -> bool {
        &&& self.idx <= self.source.len()
        &&& self.pos == offset_of(self.source@, self.idx as int)
        &&& 4 * self.source.len() <= usize::MAX
    }

    /// The lexer stands between two tokens, within its text.
    pub closed spec fn wf(&self) -> bool {
        self.inv() && self.buffer@.len() == 0
    }

    /// The cursor stays within the text.
    pub proof fn lemma_cursor_bounds(&self)
        requires
            self.wf(),
        ensures
            0 <= self.cursor() <= self.text().len(),
            4 * self.text().len() <= usize::MAX,
    {
    }

    /// A lexer at the start of the text `content` of the file `path`.
    pub fn new(path: StringIdx, content: String) -> (r: Lexer)
        requires
            4 * content@.len() <= usize::MAX,
        ensures
            r.wf(),
            r.text() == content@,
            r.cursor() == 0,
            r.file() == path,
    {
        Lexer {
            path,
            source: chars_of(content.as_str()),
            idx: 0,
            pos: 0,
            start: 0,
            buffer: Vec::new(),
        }
    }

    fn has(&self) -> (r: bool)
        ensures
            r == (self.idx < self.source.len()),
    {
        self.idx < self.source.len()
    }

    fn char_at(&self, i: usize) -> (c: char)
        ensures
            c == char_or_nul(self.source@, i as int),
    {
        if i < self.source.len() {
            self.source[i]
        } else {
            '\0'
        }
    }

    fn current(&self) -> (c: char)
        ensures
            c == char_or_nul(self.source@, self.idx as int),
    {
        self.char_at(self.idx)
    }

    fn peek(&self) -> (c: char)
        requires
            self.inv(),
        ensures
            c == char_or_nul(self.source@, self.idx + 1),
    {
        self.char_at(self.idx + 1)
    }

    fn current_width(&self) -> (w: usize)
        ensures
            w == width(char_or_nul(self.source@, self.idx as int)),
    {
        char_width(self.current())
    }

    fn skip(&mut self)
        requires
            old(self).inv(),
        ensures
            final(self).inv(),
            final(self).source == old(self).source,
            final(self).path == old(self).path,
            final(self).start == old(self).start,
            final(self).buffer == old(self).buffer,
            final(self).idx == if old(self).idx < old(self).source.len() {
                old(self).idx + 1
            } else {
                old(self).idx as int
            },
    {
        if self.has() {
            let cw: usize = self.current_width();
            proof {
                lemma_offset_bounds(self.source@, self.idx as int);
            }
            self.pos = self.pos + cw;
            self.idx = self.idx + 1;
        }
    }

    fn consume(&mut self)
        requires
            old(self).inv(),
            old(self).idx < old(self).source.len(),
        ensures
            final(self).inv(),
            final(self).source == old(self).source,
            final(self).path == old(self).path,
            final(self).start == old(self).start,
            final(self).buffer@ == old(self).buffer@.push(old(self).source@[old(self).idx as int]),
            final(self).idx == old(self).idx + 1,
    {
        self.buffer.push(self.current());
        self.skip();
    }

    fn consume_run(&mut self, class: CharClass)
        requires
            old(self).inv(),
        ensures
            final(self).inv(),
            final(self).source == old(self).source,
            final(self).path == old(self).path,
            final(self).start == old(self).start,
            final(self).idx == run_end(old(self).source@, old(self).idx as int, class),
            final(self).idx >= old(self).idx,
            final(self).buffer@ == old(self).buffer@ + old(self).source@.subrange(
                old(self).idx as int,
                final(self).idx as int,
            ),
    {
        assert(self.buffer@ =~= old(self).buffer@ + old(self).source@.subrange(
            old(self).idx as int,
            self.idx as int,
        ));
        while self.has() && belongs(class, self.current())
            invariant
                self.inv(),
                self.source == old(self).source,
                self.path == old(self).path,
                self.start == old(self).start,
                old(self).idx <= self.idx,
                run_end(self.source@, self.idx as int, class) == run_end(
                    old(self).source@,
                    old(self).idx as int,
                    class,
                ),
                self.buffer@ == old(self).buffer@ + old(self).source@.subrange(
                    old(self).idx as int,
                    self.idx as int,
                ),
            decreases self.source.len() - self.idx,
        {
            let ghost before = self.idx;
            self.consume();
            assert(old(self).source@.subrange(old(self).idx as int, self.idx as int)
                =~= old(self).source@.subrange(old(self).idx as int, before as int).push(
                old(self).source@[before as int],
            ));
        }
    }

    fn skip_run(&mut self, class: CharClass)
        requires
            old(self).inv(),
        ensures
            final(self).inv(),
            final(self).source == old(self).source,
            final(self).path == old(self).path,
            final(self).start == old(self).start,
            final(self).buffer == old(self).buffer,
            final(self).idx == run_end(old(self).source@, old(self).idx as int, class),
            final(self).idx >= old(self).idx,
    {
        while self.has() && belongs(class, self.current())
            invariant
                self.inv(),
                self.source == old(self).source,
                self.path == old(self).path,
                self.start == old(self).start,
                self.buffer == old(self).buffer,
                old(self).idx <= self.idx,
                run_end(self.source@, self.idx as int, class) == run_end(
                    old(self).source@,
                    old(self).idx as int,
                    class,
                ),
            decreases self.source.len() - self.idx,
        {
            self.skip();
        }
    }

    fn build(&mut self, c: &mut Compiler, tt: TokenType) -> (token: Token)
        requires
            old(self).inv(),
            old(c).wf(),
        ensures
            final(self).wf(),
            final(self).source == old(self).source,
            final(self).path == old(self).path,
            final(self).start == old(self).start,
            final(self).idx == old(self).idx,
            final(c).wf(),
            final(c).same_but_text_and_errors(old(c)),
            final(c).errors == old(c).errors,
            final(c).strings@ == pool_after(old(c).strings@, old(self).buffer@),
            token.t == tt,
            token.content.0 == index_after(old(c).strings@, old(self).buffer@),
            token.source == (Source {
                file: old(self).path,
                start: old(self).start,
                end: old(self).pos,
            }),
    {
        let content = text_of(&self.buffer);
        let token = Token {
            t: tt,
            content: c.strings.insert(content.as_str()),
            source: Source::new(self.path, self.start, self.pos),
        };
        self.buffer.clear();
        token
    }

    fn build_s(&mut self, c: &mut Compiler, count: usize, tt: TokenType) -> (token: Token)
        requires
            old(self).wf(),
            old(c).wf(),
            old(self).idx + count <= old(self).source.len(),
            old(self).start == old(self).pos,
            1 <= count <= 2,
        ensures
            final(self).wf(),
            final(self).source == old(self).source,
            final(self).path == old(self).path,
            final(self).idx == old(self).idx + count,
            final(c).wf(),
            final(c).same_but_text_and_errors(old(c)),
            final(c).errors == old(c).errors,
            final(c).strings@ == pool_after(
                old(c).strings@,
                old(self).source@.subrange(old(self).idx as int, old(self).idx + count),
            ),
            token.t == tt,
            token.content.0 == index_after(
                old(c).strings@,
                old(self).source@.subrange(old(self).idx as int, old(self).idx + count),
            ),
            token.source == (Source {
                file: old(self).path,
                start: offset_of(old(self).source@, old(self).idx as int) as usize,
                end: offset_of(old(self).source@, old(self).idx + count) as usize,
            }),
    {
        self.consume();
        if count == 2 {
            self.consume();
        }
        assert(self.buffer@ =~= old(self).source@.subrange(
            old(self).idx as int,
            old(self).idx + count,
        ));
        self.build(c, tt)
    }

    fn complain(&self, c: &mut Compiler, fault: LexFault, start: usize, end: usize)
        requires
            old(c).wf(),
        ensures
            final(c).wf(),
            final(c).same_but_text_and_errors(old(c)),
            final(c).strings == old(c).strings,
            final(c).error_list() == old(c).error_list().push(
                ErrorView {
                    reason: fault_reason(fault),
                    marked: Some(Source { file: self.path, start, end }),
                },
            ),
    {
        let reason: &str = match fault {
            LexFault::InvalidCharacter => "invalid character",
            LexFault::UnclosedString => "unclosed string literal",
            LexFault::UnclosedCodepoint => "unclosed unicode codepoint sequence",
            LexFault::InvalidCodepoint => "invalid unicode codepoint sequence",
        };
        c.report(Error::fixed(reason, Source::new(self.path, start, end)));
    }

    /// Reads the next token, be it white space, a comment or invalid.
    pub fn next_raw(&mut self, c: &mut Compiler) -> (token: Token)
        requires
            old(self).wf(),
            old(c).wf(),
        ensures
            final(self).wf(),
            final(self).text() == old(self).text(),
            final(self).file() == old(self).file(),
            final(c).wf(),
            final(c).same_but_text_and_errors(old(c)),
            ({
                let lexeme = lex_at(old(self).text(), old(self).cursor());
                &&& final(self).cursor() == lexeme.end
                &&& token == token_of(
                    old(self).file(),
                    old(self).text(),
                    old(self).cursor(),
                    lexeme,
                    index_after(old(c).strings@, lexeme.content),
                )
                &&& final(c).strings@ == pool_after(old(c).strings@, lexeme.content)
                &&& final(c).error_list() == old(c).error_list() + problem_errors(
                    old(self).file(),
                    old(self).text(),
                    lexeme.problems,
                )
            }),
    {
        let ghost text = self.source@;
        let ghost i = self.idx as int;
        proof {
            lemma_offset_bounds(text, i);
            lemma_lex_advances(text, i);
            lemma_intern_sound(c.strings@, lex_at(text, i).content);
            assert(problem_errors(self.path, text, Seq::empty()) =~= Seq::<ErrorView>::empty());
            assert(c.error_list() + Seq::<ErrorView>::empty() =~= c.error_list());
        }
        self.start = self.pos;
        if !self.has() {
            assert(self.buffer@ =~= Seq::<char>::empty());
            return self.build(c, TokenType::EndOfFile);
        }
        let first: char = self.current();
        let second: char = self.peek();
        if space(first) {
            self.consume_run(CharClass::Space);
            proof {
                lemma_offset_bounds(text, self.idx as int);
                assert(self.buffer@ =~= text.subrange(i, self.idx as int));
            }
            return self.build(c, TokenType::Whitespace);
        }
        if first == 'c' && second == '"' {
            self.skip();
            return self.lex_string(c, TokenType::CString, self.idx - 1);
        }
        if first == '"' {
            proof {
                lemma_scan_string_bounds(text, i, i + 1, Seq::empty(), Seq::empty());
            }
            return self.lex_string(c, TokenType::String, self.idx);
        }
        if digit(first) {
            self.consume_run(CharClass::Digit);
            let ghost e = self.idx as int;
            if self.has() && self.current() == '.' {
                self.consume();
                self.consume_run(CharClass::Digit);
                proof {
                    lemma_run_end_bounds(text, e + 1, CharClass::Digit);
                    lemma_offset_bounds(text, self.idx as int);
                    assert(self.buffer@ =~= text.subrange(i, self.idx as int));
                }
                return self.build(c, TokenType::Float);
            } else {
                proof {
                    lemma_offset_bounds(text, self.idx as int);
                    assert(self.buffer@ =~= text.subrange(i, self.idx as int));
                }
                return self.build(c, TokenType::Integer);
            }
        }
        if letter(first) || first == '_' {
            self.consume_run(CharClass::Word);
            proof {
                lemma_offset_bounds(text, self.idx as int);
                assert(self.buffer@ =~= text.subrange(i, self.idx as int));
            }
            let kind = keyword_of(&self.buffer);
            return self.build(c, kind);
        }
        if first == '#' {
            self.consume_run(CharClass::NotLineFeed);
            proof {
                lemma_offset_bounds(text, self.idx as int);
                assert(self.buffer@ =~= text.subrange(i, self.idx as int));
            }
            return self.build(c, TokenType::Comment);
        }
        match two_char(first, second) {
            Some(kind) => {
                proof {
                    lemma_offset_bounds(text, i + 2);
                }
                return self.build_s(c, 2, kind);
            },
            None => {},
        }
        match one_char(first) {
            Some(kind) => {
                proof {
                    lemma_offset_bounds(text, i + 1);
                }
                return self.build_s(c, 1, kind);
            },
            None => {},
        }
        self.consume();
        proof {
            lemma_offset_bounds(text, i + 1);
            assert(self.buffer@ =~= text.subrange(i, i + 1));
            assert(problem_errors(self.path, text, lex_at(text, i).problems) =~= seq![
                problem_error(
                    self.path,
                    text,
                    Problem { fault: LexFault::InvalidCharacter, start: i, end: i + 1 },
                ),
            ]);
        }
        self.complain(c, LexFault::InvalidCharacter, self.start, self.pos);
        proof {
            assert(c.error_list() =~= old(c).error_list() + problem_errors(
                self.path,
                text,
                lex_at(text, i).problems,
            ));
        }
        self.build(c, TokenType::Invalid)
    }

    fn lex_string(&mut self, c: &mut Compiler, tt: TokenType, open: usize) -> (token: Token)
        requires
            old(self).inv(),
            old(self).buffer@.len() == 0,
            old(c).wf(),
            tt == TokenType::String || tt == TokenType::CString,
            open <= old(self).idx < old(self).source.len(),
            old(self).source@[old(self).idx as int] == '"',
            old(self).start == offset_of(old(self).source@, open as int),
            width(old(self).source@[open as int]) == 1,
        ensures
            final(self).wf(),
            final(self).source == old(self).source,
            final(self).path == old(self).path,
            final(c).wf(),
            final(c).same_but_text_and_errors(old(c)),
            ({
                let lexeme = scan_string(
                    old(self).source@,
                    open as int,
                    old(self).idx + 1,
                    Seq::empty(),
                    Seq::empty(),
                );
                &&& final(self).idx == lexeme.end
                &&& token == token_of(
                    old(self).path,
                    old(self).source@,
                    open as int,
                    Lexeme { kind: tt, ..lexeme },
                    index_after(old(c).strings@, lexeme.content),
                )
                &&& final(c).strings@ == pool_after(old(c).strings@, lexeme.content)
                &&& final(c).error_list() == old(c).error_list() + problem_errors(
                    old(self).path,
                    old(self).source@,
                    lexeme.problems,
                )
            }),
    {
        let ghost text = self.source@;
        let ghost target = scan_string(
            text,
            open as int,
            self.idx + 1,
            Seq::empty(),
            Seq::empty(),
        );
        let ghost mut problems: Seq<Problem> = Seq::empty();
        proof {
            assert(problem_errors(self.path, text, problems) =~= Seq::<ErrorView>::empty());
            assert(c.error_list() + Seq::<ErrorView>::empty() =~= c.error_list());
            assert(self.buffer@ =~= Seq::<char>::empty());
        }
        self.skip();
        while self.has() && self.current() != '"'
            invariant
                self.inv(),
                self.source == old(self).source,
                self.path == old(self).path,
                self.start == old(self).start,
                text == self.source@,
                c.wf(),
                c.same_but_text_and_errors(old(c)),
                c.strings == old(c).strings,
                c.error_list() == old(c).error_list() + problem_errors(self.path, text, problems),
                target == scan_string(text, open as int, self.idx as int, self.buffer@, problems),
            decreases self.source.len() - self.idx,
        {
            let ghost j = self.idx as int;
            if self.current() != '\\' {
                self.consume();
                continue;
            }
            let seq_start: usize = self.pos;
            self.skip();
            if !self.has() {
                continue;
            }
            let escaped: char = self.current();
            if escaped == '\n' {
                self.skip();
            } else if escaped == '0' {
                self.skip();
                self.buffer.push('\0');
            } else if escaped == 'n' {
                self.skip();
                self.buffer.push('\n');
            } else if escaped == 'r' {
                self.skip();
                self.buffer.push('\r');
            } else if escaped == 't' {
                self.skip();
                self.buffer.push('\t');
            } else if escaped == 'u' && self.peek() == '{' {
                self.skip();
                self.skip();
                let cp_from: usize = self.idx;
                let cp_start: usize = self.pos;
                self.skip_run(CharClass::NotBraceClose);
                let cp_to: usize = self.idx;
                let cp_end: usize = self.pos;
                proof {
                    lemma_run_end_bounds(text, j + 3, CharClass::NotBraceClose);
                    lemma_offset_bounds(text, j);
                    lemma_offset_bounds(text, j + 3);
                    lemma_offset_bounds(text, cp_to as int);
                }
                if !self.has() {
                    self.complain(c, LexFault::UnclosedCodepoint, seq_start, cp_end);
                    proof {
                        let p = Problem {
                            fault: LexFault::UnclosedCodepoint,
                            start: j,
                            end: cp_to as int,
                        };
                        assert(problem_errors(self.path, text, problems.push(p))
                            =~= problem_errors(self.path, text, problems).push(
                            problem_error(self.path, text, p),
                        ));
                        assert(c.error_list() =~= old(c).error_list() + problem_errors(
                            self.path,
                            text,
                            problems.push(p),
                        ));
                        problems = problems.push(p);
                    }
                }
                self.skip();
                match parse_codepoint(&self.source, cp_from, cp_to) {
                    Some(ch) => {
                        self.buffer.push(ch);
                    },
                    None => {
                        self.complain(c, LexFault::InvalidCodepoint, cp_start, cp_end);
                        proof {
                            let p = Problem {
                                fault: LexFault::InvalidCodepoint,
                                start: j + 3,
                                end: cp_to as int,
                            };
                            assert(problem_errors(self.path, text, problems.push(p))
                                =~= problem_errors(self.path, text, problems).push(
                                problem_error(self.path, text, p),
                            ));
                            assert(c.error_list() =~= old(c).error_list() + problem_errors(
                                self.path,
                                text,
                                problems.push(p),
                            ));
                            problems = problems.push(p);
                        }
                        self.buffer.push('\u{FFFD}');
                    },
                }
            } else {
                self.consume();
            }
        }
        proof {
            lemma_offset_bounds(text, open as int);
            lemma_offset_bounds(text, self.idx as int);
            if self.idx < self.source.len() {
                lemma_offset_bounds(text, self.idx as int + 1);
            }
            lemma_intern_sound(c.strings@, self.buffer@);
        }
        if !self.has() {
            self.complain(c, LexFault::UnclosedString, self.start, self.start + 1);
            proof {
                let p = Problem {
                    fault: LexFault::UnclosedString,
                    start: open as int,
                    end: open + 1,
                };
                assert(problem_errors(self.path, text, problems.push(p)) =~= problem_errors(
                    self.path,
                    text,
                    problems,
                ).push(problem_error(self.path, text, p)));
                assert(c.error_list() =~= old(c).error_list() + problem_errors(
                    self.path,
                    text,
                    problems.push(p),
                ));
            }
        }
        self.skip();
        self.build(c, tt)
    }

    /// Reads the next token that is neither white space, nor a comment, nor
    /// invalid.
    pub fn next(&mut self, c: &mut Compiler) -> (token: Token)
        requires
            old(self).wf(),
            old(c).wf(),
        ensures
            final(self).wf(),
            final(self).text() == old(self).text(),
            final(self).file() == old(self).file(),
            final(c).wf(),
            final(c).same_but_text_and_errors(old(c)),
            ({
                let step = next_from(
                    old(self).file(),
                    old(self).text(),
                    old(self).cursor(),
                    old(c).strings@,
                    old(c).error_list(),
                );
                &&& token == step.token
                &&& final(self).cursor() == step.cursor
                &&& final(c).strings@ == step.strings
                &&& final(c).error_list() == step.errors
            }),
    {
        let ghost target = next_from(
            self.path,
            self.source@,
            self.idx as int,
            c.strings@,
            c.error_list(),
        );
        loop
            invariant
                self.wf(),
                self.source@ == old(self).source@,
                self.path == old(self).path,
                c.wf(),
                c.same_but_text_and_errors(old(c)),
                target == next_from(
                    old(self).path,
                    old(self).source@,
                    old(self).idx as int,
                    old(c).strings@,
                    old(c).error_list(),
                ),
                target == next_from(
                    self.path,
                    self.source@,
                    self.idx as int,
                    c.strings@,
                    c.error_list(),
                ),
            decreases self.source.len() - self.idx,
        {
            proof {
                lemma_lex_advances(self.source@, self.idx as int);
            }
            let current: Token = self.next_raw(c);
            let skipped: bool = match current.t {
                TokenType::Invalid | TokenType::Comment | TokenType::Whitespace => true,
                _ => false,
            };
            if !skipped {
                return current;
            }
        }
    }
}

} // verus!
