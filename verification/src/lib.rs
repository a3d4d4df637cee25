//! Front end of a compiler for a statically typed systems language:
//! lexing, parsing, symbol collection, path expansion and type checking.

pub mod error;
pub mod frontend;
pub mod interning;
pub mod paths;
pub mod source;
pub mod strings;
pub mod text;
pub mod types;

pub use crate::error::Error;
pub use crate::frontend::ast::{AstNode, NodeType, NodeValue};
pub use crate::frontend::lexer::{Lexer, Token, TokenType};
pub use crate::frontend::parser::{Parser, get_infix_precedence};
pub use crate::frontend::path_exp::{expand_file_paths, expand_node_paths};
pub use crate::frontend::path_exp::{expand_paths, expand_wildcards};
pub use crate::frontend::symbols::{Symbol, SymbolTable};
pub use crate::frontend::type_checking::TypeChecker;
pub use crate::paths::{PathIdx, PathMap};
pub use crate::source::{GridPos, Source};
pub use crate::strings::{StringIdx, StringMap};
pub use crate::types::{Scope, ScopeIdx, ScopeMap, Variable, VariableState};
pub use crate::types::{Type, TypeIdx, TypeMap};

use vstd::prelude::*;
use crate::error::{ErrorView, error_views};
use crate::frontend::ast::{Tree, clone_nodes, trees_of};
use crate::frontend::grammar;
use crate::frontend::path_exp::{trees_of_files, walk_files};
use crate::frontend::symbols::{declare_files, empty_table};
use crate::frontend::type_checking::{Checking, Env, MAX_INSTANCE_DEPTH, check_symbols};
use crate::interning::{index_after, pool_after, position};
use crate::text::chars_of;

verus! {

/// The stage of parsing.
pub const ERR_PARSING: usize = 0;

/// The stage of type checking.
pub const ERR_TYPES: usize = 1;

/// The stage of code generation.
pub const ERR_CODEGEN: usize = 2;

/// A source file as plain values.
pub struct FileView {
    pub path: StringIdx,
    pub text: Seq<char>,
    pub nodes: Seq<Tree>,
}

/// The files after the file `file` was parsed: it takes the place of the
/// file of its path, or comes last if there was none.
pub open spec fn with_file(files: Seq<FileView>, file: FileView) -> Seq<FileView> {
    let paths = Seq::new(files.len(), |i: int| files[i].path);
    if paths.contains(file.path) {
        files.update(position(paths, file.path), file)
    } else {
        files.push(file)
    }
}

/// Those of `errors` that are not about the file `file`.
pub open spec fn errors_elsewhere(errors: Seq<ErrorView>, file: StringIdx) -> Seq<ErrorView>
    decreases errors.len(),
{
    if errors.len() == 0 {
        Seq::empty()
    } else {
        let before = errors_elsewhere(errors.drop_last(), file);
        match errors.last().marked {
            Some(source) if source.file == file => before,
            _ => before.push(errors.last()),
        }
    }
}

/// A source file that the compiler knows: its path, its text and, once
/// parsed, its top-level nodes.
#[derive(Debug, Clone)]
pub struct SourceFile {
    pub path: StringIdx,
    pub chars: Vec<char>,
    pub nodes: Vec<AstNode>,
}

/// The compiler: interners, source files and the diagnostics of the stage
/// that ran last.
#[derive(Debug, Clone)]
pub struct Compiler {
    pub strings: StringMap,
    pub paths: PathMap,
    pub files: Vec<SourceFile>,
    pub symbols: SymbolTable,
    pub types: TypeMap,
    pub scopes: ScopeMap,
    pub errors: Vec<Error>,
    pub error_stage: usize,
}

impl Compiler {
    /// The paths of the files, in the order in which they were first parsed.
    pub open spec fn file_paths(&self) -> Seq<StringIdx> {
        Seq::new(self.files.len() as nat, |i: int| self.files[i].path)
    }

    /// Whether a file was parsed under `path`.
    pub open spec fn has_file(&self, path: StringIdx) -> bool {
        self.file_paths().contains(path)
    }

    /// The place of the file `path` among the files.
    pub open spec fn file_slot(&self, path: StringIdx) -> int {
        position(self.file_paths(), path)
    }

    /// The text of the file `path`.
    pub open spec fn file_text(&self, path: StringIdx) -> Seq<char> {
        self.files[self.file_slot(path)].chars@
    }

    /// The diagnostics as plain values.
    pub open spec fn error_list(&self) -> Seq<ErrorView> {
        error_views(self.errors@)
    }

    /// The interners hold nothing twice, no two files share a path, and
    /// every byte offset into a file fits the machine's word.
    pub open spec fn wf(&self) -> bool {
        &&& self.strings.wf()
        &&& self.paths.wf()
        &&& self.types.wf()
        &&& self.symbols.wf()
        &&& self.file_paths().no_duplicates()
        &&& forall|i: int|
            0 <= i < self.files.len() ==> 4 * (#[trigger] self.files[i]).chars.len() <= usize::MAX
    }

    /// Whether `self` differs from `before` at most in its strings and
    /// diagnostics.
    pub open spec fn same_but_text_and_errors(&self, before: &Compiler) -> bool {
        &&& self.paths == before.paths
        &&& self.files == before.files
        &&& self.symbols == before.symbols
        &&& self.types == before.types
        &&& self.scopes == before.scopes
        &&& self.error_stage == before.error_stage
    }

    /// Whether `self` holds the files, types and scopes of `before` and is
    /// in the same stage.
    pub open spec fn same_program(&self, before: &Compiler) -> bool {
        &&& self.files == before.files
        &&& self.symbols == before.symbols
        &&& self.types == before.types
        &&& self.scopes == before.scopes
        &&& self.error_stage == before.error_stage
    }

    /// Adds a diagnostic.
    pub fn report(&mut self, error: Error)
        ensures
            final(self).error_list() == old(self).error_list().push(error@),
            final(self).strings == old(self).strings,
            final(self).same_but_text_and_errors(old(self)),
            final(self).same_program(old(self)),
            old(self).wf() ==> final(self).wf(),
    {
        self.errors.push(error);
        assert(self.error_list() =~= old(self).error_list().push(error@));
    }

    /// The place of the file `path` among the files, if it was parsed.
    pub fn find_file(&self, path: StringIdx) -> (r: Option<usize>)
        requires
            self.wf(),
        ensures
            r is Some <==> self.has_file(path),
            r matches Some(i) ==> i == self.file_slot(path) && i < self.files.len()
                && self.files[i as int].path == path,
    {
        let mut i: usize = 0;
        while i < self.files.len()
            invariant
                self.wf(),
                i <= self.files.len(),
                forall|k: int| 0 <= k < i ==> self.file_paths()[k] != path,
            decreases self.files.len() - i,
        {
            if self.files[i].path == path {
                proof {
                    crate::interning::lemma_position_unique(self.file_paths(), path, i as int);
                }
                return Some(i);
            }
            i = i + 1;
        }
        None
    }

    /// The characters of the file `path`.
    pub fn file_chars(&self, path: StringIdx) -> (r: &Vec<char>)
        requires
            self.wf(),
            self.has_file(path),
        ensures
            r@ == self.file_text(path),
            4 * r.len() <= usize::MAX,
    {
        let slot = self.find_file(path);
        &self.files[slot.unwrap()].chars
    }

    /// The files as plain values.
    pub open spec fn file_list(&self) -> Seq<FileView> {
        Seq::new(
            self.files.len() as nat,
            |i: int|
                FileView {
                    path: self.files[i].path,
                    text: self.files[i].chars@,
                    nodes: trees_of(self.files[i].nodes@),
                },
        )
    }

    /// A compiler that knows no file.
    pub fn new() -> (r: Compiler)
        ensures
            r.wf(),
            r.strings@.len() == 0,
            r.paths@.len() == 0,
            r.types@.len() == 0,
            r.files@.len() == 0,
            r.symbols@ == empty_table(),
            r.scopes.count() == 0,
            r.errors@.len() == 0,
            r.error_stage == ERR_PARSING,
    {
        Compiler {
            strings: StringMap::new(),
            paths: PathMap::new(),
            files: Vec::new(),
            symbols: SymbolTable::new(),
            types: TypeMap::new(),
            scopes: ScopeMap::new(),
            errors: Vec::new(),
            error_stage: ERR_PARSING,
        }
    }

    /// The diagnostics of the stage that ran last.
    pub fn errors(&self) -> (r: &[Error])
        ensures
            r@ == self.errors@,
    {
        self.errors.as_slice()
    }

    fn forget_errors(&mut self, file: StringIdx)
        ensures
            final(self).error_list() == errors_elsewhere(old(self).error_list(), file),
            final(self).strings == old(self).strings,
            final(self).same_but_text_and_errors(old(self)),
    {
        let mut kept: Vec<Error> = Vec::new();
        let ghost all = self.error_list();
        let mut i: usize = 0;
        proof {
            assert(all.take(0) =~= Seq::<ErrorView>::empty());
            assert(error_views(kept@) =~= Seq::<ErrorView>::empty());
        }
        while i < self.errors.len()
            invariant
                i <= self.errors.len(),
                all == self.error_list(),
                self.errors == old(self).errors,
                self.strings == old(self).strings,
                self.same_but_text_and_errors(old(self)),
                error_views(kept@) == errors_elsewhere(all.take(i as int), file),
            decreases self.errors.len() - i,
        {
            proof {
                assert(all.take(i as int + 1).drop_last() =~= all.take(i as int));
                assert(all.take(i as int + 1).last() == self.errors[i as int]@);
            }
            let about_file: bool = match self.errors[i].marked {
                Some(source) => source.file == file,
                None => false,
            };
            if !about_file {
                let copy = Error {
                    reason: self.errors[i].reason.clone(),
                    marked: self.errors[i].marked,
                };
                let ghost before = error_views(kept@);
                kept.push(copy);
                assert(error_views(kept@) =~= before.push(copy@));
            }
            i = i + 1;
        }
        proof {
            assert(all.take(self.errors.len() as int) =~= all);
        }
        self.errors = kept;
    }

    fn set_file(&mut self, path: StringIdx, chars: Vec<char>, nodes: Vec<AstNode>)
        requires
            old(self).wf(),
            4 * chars.len() <= usize::MAX,
        ensures
            final(self).wf(),
            final(self).strings == old(self).strings,
            final(self).paths == old(self).paths,
            final(self).errors == old(self).errors,
            final(self).symbols == old(self).symbols,
            final(self).types == old(self).types,
            final(self).scopes == old(self).scopes,
            final(self).error_stage == old(self).error_stage,
            final(self).file_list() == with_file(
                old(self).file_list(),
                FileView { path, text: chars@, nodes: trees_of(nodes@) },
            ),
    {
        let ghost view = FileView { path, text: chars@, nodes: trees_of(nodes@) };
        let ghost paths = Seq::new(
            old(self).file_list().len(),
            |i: int| old(self).file_list()[i].path,
        );
        proof {
            assert(paths =~= old(self).file_paths());
        }
        match self.find_file(path) {
            Some(slot) => {
                self.files[slot] = SourceFile { path, chars, nodes };
                proof {
                    assert(self.file_paths() =~= old(self).file_paths());
                    assert(self.file_list() =~= old(self).file_list().update(slot as int, view));
                }
            },
            None => {
                self.files.push(SourceFile { path, chars, nodes });
                proof {
                    let before = old(self).file_paths();
                    let after = self.file_paths();
                    assert(after =~= before.push(path));
                    assert forall|a: int, b: int|
                        0 <= a < after.len() && 0 <= b < after.len() && a != b implies after[a]
                        != after[b] by {
                        if a == before.len() {
                            assert(before[b] == after[b]);
                        } else if b == before.len() {
                            assert(before[a] == after[a]);
                        }
                    }
                    assert(self.file_list() =~= old(self).file_list().push(view));
                }
            },
        }
    }

    /// Parses the file `path` with the text `content`. The file takes the
    /// place of an earlier file of that path, and the diagnostics about that
    /// path make way for those of this parse; diagnostics of a later stage
    /// are dropped altogether, and the stage is that of parsing again.
    pub fn parse(&mut self, path: &str, content: String)
        requires
            old(self).wf(),
            4 * content@.len() <= usize::MAX,
        ensures
            final(self).wf(),
            final(self).error_stage == ERR_PARSING,
            final(self).symbols == old(self).symbols,
            final(self).scopes == old(self).scopes,
            final(self).types@ == pool_after(old(self).types@, Type::Unknown),
            ({
                let file = StringIdx(index_after(old(self).strings@, path@) as usize);
                let errors = if old(self).error_stage > ERR_PARSING {
                    Seq::empty()
                } else {
                    errors_elsewhere(old(self).error_list(), file)
                };
                let begin = grammar::begin(
                    file,
                    content@,
                    0,
                    TypeIdx(index_after(old(self).types@, Type::Unknown) as usize),
                    pool_after(old(self).strings@, path@),
                    old(self).paths@,
                    errors,
                );
                let (end, nodes) = grammar::parse_file(begin);
                &&& final(self).strings@ == end.strings
                &&& final(self).paths@ == end.paths
                &&& final(self).error_list() == end.errors
                &&& final(self).file_list() == with_file(
                    old(self).file_list(),
                    FileView { path: file, text: content@, nodes },
                )
            }),
    {
        let path_i: StringIdx = self.strings.insert(path);
        if self.error_stage > ERR_PARSING {
            self.error_stage = ERR_PARSING;
            self.errors.clear();
            assert(self.error_list() =~= Seq::<ErrorView>::empty());
        } else {
            self.forget_errors(path_i);
        }
        let chars: Vec<char> = chars_of(content.as_str());
        let lexer: Lexer = Lexer::new(path_i, content);
        let mut parser: Parser = Parser::new(self, lexer);
        let nodes: Vec<AstNode> = parser.parse_file(self);
        proof {
            parser.lemma_wf(self);
        }
        self.set_file(path_i, chars, nodes);
    }

    /// Whether type checking is held back: diagnostics of parsing remain.
    pub open spec fn held_back(&self) -> bool {
        self.error_stage < ERR_TYPES && self.errors@.len() > 0
    }

    fn collect_symbols(&mut self)
        requires
            old(self).wf(),
        ensures
            final(self).wf(),
            final(self).strings == old(self).strings,
            final(self).files == old(self).files,
            final(self).types == old(self).types,
            final(self).scopes == old(self).scopes,
            final(self).error_stage == old(self).error_stage,
            ({
                let end = declare_files(
                    empty_table(),
                    old(self).strings@,
                    old(self).paths@,
                    old(self).error_list(),
                    trees_of_files(old(self)),
                );
                &&& final(self).symbols@ == end.table
                &&& final(self).paths@ == end.paths
                &&& final(self).error_list() == end.errors
            }),
    {
        let mut symbols: SymbolTable = SymbolTable::new();
        let ghost all = trees_of_files(self);
        let mut i: usize = 0;
        proof {
            assert(all.take(0) =~= Seq::<Seq<Tree>>::empty());
        }
        while i < self.files.len()
            invariant
                i <= self.files.len(),
                self.wf(),
                symbols.wf(),
                all == trees_of_files(self),
                self.strings == old(self).strings,
                self.files == old(self).files,
                self.symbols == old(self).symbols,
                self.types == old(self).types,
                self.scopes == old(self).scopes,
                self.error_stage == old(self).error_stage,
                ({
                    let now = declare_files(
                        empty_table(),
                        old(self).strings@,
                        old(self).paths@,
                        old(self).error_list(),
                        all.take(i as int),
                    );
                    &&& symbols@ == now.table
                    &&& self.paths@ == now.paths
                    &&& self.error_list() == now.errors
                }),
            decreases self.files.len() - i,
        {
            proof {
                assert(all.take(i as int + 1).drop_last() =~= all.take(i as int));
                assert(all.take(i as int + 1).last() == trees_of(self.files[i as int].nodes@));
            }
            let nodes: Vec<AstNode> = clone_nodes(&self.files[i].nodes);
            symbols.insert_file(nodes.as_slice(), self);
            i = i + 1;
        }
        proof {
            assert(all.take(self.files.len() as int) =~= all);
        }
        self.symbols = symbols;
    }

    /// Checks the types of the program: collects the symbols of all files,
    /// expands the paths in their declarations, and checks the
    /// declarations. Does nothing while diagnostics of parsing remain, and
    /// stops after a step that ends with diagnostics.
    pub fn check_types(&mut self)
        requires
            old(self).wf(),
        ensures
            final(self).wf(),
            old(self).held_back() ==> *final(self) == *old(self),
            !old(self).held_back() ==> ({
                let files = trees_of_files(old(self));
                let collected = declare_files(
                    empty_table(),
                    old(self).strings@,
                    old(self).paths@,
                    Seq::empty(),
                    files,
                );
                let wildcard = StringIdx(index_after(old(self).strings@, "*"@) as usize);
                let (paths, table) = walk_files(collected.paths, collected.table, wildcard, files);
                let end = check_symbols(
                    Checking { types: old(self).types@, errors: Seq::empty(), table },
                    Env { paths, bindings: Seq::empty(), depth: MAX_INSTANCE_DEPTH as nat },
                    0,
                    table.symbols.len() as int,
                );
                &&& final(self).error_stage == ERR_TYPES
                &&& final(self).files == old(self).files
                &&& final(self).scopes == old(self).scopes
                &&& if collected.errors.len() > 0 {
                    &&& final(self).strings == old(self).strings
                    &&& final(self).types == old(self).types
                    &&& final(self).paths@ == collected.paths
                    &&& final(self).symbols@ == collected.table
                    &&& final(self).error_list() == collected.errors
                } else {
                    &&& final(self).strings@ == pool_after(old(self).strings@, "*"@)
                    &&& final(self).paths@ == paths
                    &&& final(self).symbols@ == end.table
                    &&& final(self).types@ == end.types
                    &&& final(self).error_list() == end.errors
                }
            }),
    {
        if self.error_stage < ERR_TYPES && self.errors.len() > 0 {
            return ;
        }
        self.error_stage = ERR_TYPES;
        self.errors.clear();
        assert(self.error_list() =~= Seq::<ErrorView>::empty());
        self.collect_symbols();
        if self.errors.len() > 0 {
            return ;
        }
        assert(self.error_list() =~= Seq::<ErrorView>::empty());
        expand_paths(self);
        let mut tc: TypeChecker = TypeChecker::new();
        tc.check_types(self);
    }

    /// Moves on to code generation, unless diagnostics of an earlier stage
    /// remain. Generating code is not part of this library.
    pub fn generate_output(&mut self) -> (r: Option<()>)
        ensures
            r is None <==> old(self).error_stage < ERR_CODEGEN && old(self).errors@.len() > 0,
            r is None ==> *final(self) == *old(self),
            r is Some ==> final(self).error_stage == ERR_CODEGEN && final(self).errors@.len() == 0
                && final(self).strings == old(self).strings && final(self).paths == old(
                self,
            ).paths && final(self).same_program_but_stage(old(self)),
            old(self).wf() ==> final(self).wf(),
    {
        if self.error_stage < ERR_CODEGEN && self.errors.len() > 0 {
            return None;
        }
        self.error_stage = ERR_CODEGEN;
        self.errors.clear();
        Some(())
    }

    /// Whether `self` holds the files, symbols, types and scopes of
    /// `before`.
    pub open spec fn same_program_but_stage(&self, before: &Compiler) -> bool {
        &&& self.files == before.files
        &&& self.symbols == before.symbols
        &&& self.types == before.types
        &&& self.scopes == before.scopes
    }
}

} // verus!
