//! Import extraction: which modules a source file names, and how.
//!
//! The extractor works on a syntax tree that holds only what it reads: the
//! kinds of the top-level statements, the module names they mention, and the
//! expressions in which a dynamic import or a `require` call may stand.

use crate::config::extension_listed;
use crate::config::{default_extensions, extension_among};
use vstd::prelude::*;
use vstd::string::StringExecFns;

verus! {

/// How a module is named.
#[derive(Debug, Clone, Copy, PartialEq, Eq, Structural)]
pub enum ImportType {
    /// `import ... from '...'`
    StaticImport,
    /// `import('...')`
    DynamicImport,
    /// `require('...')`
    Require,
    /// `export ... from '...'`
    ReExport,
}

/// One mention of a module.
#[derive(Debug)]
pub struct ImportInfo {
    /// The module specifier as written.
    pub source: String,
    pub import_type: ImportType,
}

impl View for ImportInfo {
    type V = (Seq<char>, ImportType);

    open spec fn view(&self) -> (Seq<char>, ImportType) {
        (self.source@, self.import_type)
    }
}

impl DeepView for ImportInfo {
    type V = (Seq<char>, ImportType);

    open spec fn deep_view(&self) -> (Seq<char>, ImportType) {
        self@
    }
}

impl Clone for ImportInfo {
    fn clone(&self) -> (copy: Self)
        ensures
            copy@ == self@,
    {
        ImportInfo { source: self.source.clone(), import_type: self.import_type }
    }
}

/// What went wrong when a file was parsed.
#[derive(Debug)]
pub enum ParseError {
    /// The file could not be read.
    IoError(String),
    /// The parser gave up; its messages are kept.
    SyntaxError(String),
}

impl ParseError {
    /// The message of the error.
    pub open spec fn message(&self) -> Seq<char> {
        match self {
            ParseError::IoError(m) => "Failed to read file: "@ + m@,
            ParseError::SyntaxError(m) => "Failed to parse file: "@ + m@,
        }
    }

    /// The message of the error, as text.
    pub fn to_string(&self) -> (text: String)
        ensures
            text@ == self.message(),
    {
        match self {
            ParseError::IoError(m) => String::from_str("Failed to read file: ").concat(m.as_str()),
            ParseError::SyntaxError(m) => String::from_str("Failed to parse file: ").concat(
                m.as_str(),
            ),
        }
    }
}

/// The extensions of the files that can be parsed.
pub fn supported_extensions() -> (extensions: Vec<String>)
    ensures
        extensions.deep_view() == seq![".ts"@, ".tsx"@, ".js"@, ".jsx"@, ".mjs"@, ".cjs"@],
{
    default_extensions()
}

/// Whether the extension of `path` is one that can be parsed.
pub fn is_supported_extension(path: &str) -> (supported: bool)
    ensures
        supported == extension_among(
            path@,
            seq![".ts"@, ".tsx"@, ".js"@, ".jsx"@, ".mjs"@, ".cjs"@],
        ),
{
    extension_listed(path, &supported_extensions())
}

/// An argument of a call.
pub enum Arg {
    /// A string literal.
    StringLiteral(String),
    /// `...expression`
    Spread(Expr),
    /// Anything else.
    Other,
}

/// An expression, as far as imports can stand in it.
pub enum Expr {
    /// `import(source)`, with the text of the source where it is a string literal.
    Import(Option<String>),
    /// A call, with the name of the callee where it is a plain identifier.
    Call { callee: Option<String>, arguments: Vec<Arg> },
    /// `await expression`
    Await(Box<Expr>),
    /// Anything else.
    Other,
}

/// A name bound by a declaration, possibly through a destructuring pattern.
pub enum Binding {
    /// A plain name.
    Identifier(String),
    /// `{ a, b: c }`: the patterns of the property values.
    Object(Vec<Binding>),
    /// `[a, , b]`: the patterns of the elements, `None` for a hole.
    Array(Vec<Option<Binding>>),
    /// `pattern = default`
    Assignment(Box<Binding>),
}

/// One declarator of a variable declaration.
pub struct VariableDeclarator {
    pub id: Binding,
    pub init: Option<Expr>,
}

/// A declaration that an `export` carries.
pub enum Decl {
    Variable(Vec<VariableDeclarator>),
    /// A function, with its name if it has one.
    Function(Option<String>),
    /// A class, with its name if it has one.
    Class(Option<String>),
    TypeAlias(String),
    Interface(String),
    Enum(String),
    /// Anything else.
    Other,
}

/// One name of an export list: `local as exported`.
pub struct ExportSpecifier {
    pub local: String,
    pub exported: String,
}

/// A top-level statement.
#[allow(inconsistent_fields)]
pub enum Stmt {
    /// `import ... from 'source'`
    Import { source: String },
    /// `export { ... }`, `export { ... } from 'source'`, `export <declaration>`
    ExportNamed {
        source: Option<String>,
        specifiers: Vec<ExportSpecifier>,
        declaration: Option<Decl>,
    },
    /// `export * from 'source'`
    ExportAll { source: String },
    /// `export default ...`; `identifier` says that a plain name follows.
    ExportDefault { identifier: bool },
    /// An expression statement.
    Expr(Expr),
    /// `const`, `let` or `var`.
    Variable(Vec<VariableDeclarator>),
    /// `export = ...`
    TsExportAssignment,
    /// `export as namespace ...`
    TsNamespaceExport,
    /// Anything else.
    Other,
}

/// The `require` that a call makes: the callee is the plain name `require`
/// and the first argument is a string literal.
pub open spec fn required_module(callee: Option<String>, arguments: Seq<Arg>) -> Seq<
    (Seq<char>, ImportType),
> {
    if callee matches Some(name) && name@ == "require"@ && arguments.len() > 0
        && arguments[0] is StringLiteral {
        seq![(arguments[0]->StringLiteral_0@, ImportType::Require)]
    } else {
        Seq::empty()
    }
}

/// The imports that stand in the spread arguments of a call, in source order.
pub open spec fn imports_of_spreads(arguments: Seq<Arg>) -> Seq<(Seq<char>, ImportType)>
    decreases arguments, 0nat,
{
    if arguments.len() == 0 {
        Seq::empty()
    } else {
        imports_of_spreads(arguments.drop_last()) + match arguments.last() {
            Arg::Spread(inner) => imports_of_expression(inner),
            _ => Seq::empty(),
        }
    }
}

/// The imports that stand in an expression, in source order: a dynamic
/// import of a string literal, a `require` of a string literal, and what
/// stands in spread arguments and behind `await`.
pub open spec fn imports_of_expression(expression: Expr) -> Seq<(Seq<char>, ImportType)>
    decreases expression, 1nat,
{
    match expression {
        Expr::Import(Some(source)) => seq![(source@, ImportType::DynamicImport)],
        Expr::Import(None) => Seq::empty(),
        Expr::Call { callee, arguments } => required_module(callee, arguments@)
            + imports_of_spreads(arguments@),
        Expr::Await(inner) => imports_of_expression(*inner),
        Expr::Other => Seq::empty(),
    }
}

/// The imports that stand in the initializers of a variable declaration.
pub open spec fn imports_of_declarators(declarators: Seq<VariableDeclarator>) -> Seq<
    (Seq<char>, ImportType),
>
    decreases declarators.len(),
{
    if declarators.len() == 0 {
        Seq::empty()
    } else {
        imports_of_declarators(declarators.drop_last()) + match declarators.last().init {
            Some(init) => imports_of_expression(init),
            None => Seq::empty(),
        }
    }
}

/// The imports of one top-level statement.
pub open spec fn imports_of_statement(statement: Stmt) -> Seq<(Seq<char>, ImportType)> {
    match statement {
        Stmt::Import { source } => seq![(source@, ImportType::StaticImport)],
        Stmt::ExportNamed { source: Some(source), .. } => seq![
            (source@, ImportType::ReExport),
        ],
        Stmt::ExportAll { source } => seq![(source@, ImportType::ReExport)],
        Stmt::Expr(expression) => imports_of_expression(expression),
        Stmt::Variable(declarators) => imports_of_declarators(declarators@),
        _ => Seq::empty(),
    }
}

/// The imports of a program, in source order.
pub open spec fn imports_of_program(statements: Seq<Stmt>) -> Seq<(Seq<char>, ImportType)>
    decreases statements.len(),
{
    if statements.len() == 0 {
        Seq::empty()
    } else {
        imports_of_program(statements.drop_last()) + imports_of_statement(statements.last())
    }
}

/// No import of a statement is lost: the imports of a program hold those
/// of each of its statements. So a program with an import declaration, a
/// re-export, or a `require` or dynamic import of a string literal at its
/// top level has at least one import.
pub proof fn lemma_statement_imports_kept(statements: Seq<Stmt>, at: int)
    requires
        0 <= at < statements.len(),
    ensures
        imports_of_program(statements).len() >= imports_of_statement(statements[at]).len(),
        forall|k: int|
            0 <= k < imports_of_statement(statements[at]).len() ==> imports_of_program(
                statements,
            ).contains(#[trigger] imports_of_statement(statements[at])[k]),
    decreases statements.len(),
{
    let all = imports_of_program(statements);
    let earlier = imports_of_program(statements.drop_last());
    let own = imports_of_statement(statements[at]);
    if at == statements.len() - 1 {
        assert forall|k: int| 0 <= k < own.len() implies all.contains(#[trigger] own[k]) by {
            assert(all[earlier.len() + k] == own[k]);
        }
    } else {
        lemma_statement_imports_kept(statements.drop_last(), at);
        assert forall|k: int| 0 <= k < own.len() implies all.contains(#[trigger] own[k]) by {
            let j = choose|j: int| 0 <= j < earlier.len() && earlier[j] == own[k];
            assert(all[j] == own[k]);
        }
    }
}

fn push_import(imports: &mut Vec<ImportInfo>, source: &String, import_type: ImportType)
    ensures
        final(imports).deep_view() == old(imports).deep_view().push((source@, import_type)),
{
    imports.push(ImportInfo { source: source.clone(), import_type });
    assert(imports.deep_view() =~= old(imports).deep_view().push((source@, import_type)));
}

/// Appends the imports of `expression` to `imports`.
pub fn extract_imports_from_expression(expression: &Expr, imports: &mut Vec<ImportInfo>)
    ensures
        final(imports).deep_view() == old(imports).deep_view() + imports_of_expression(*expression),
    decreases expression,
{
    let ghost before = imports.deep_view();
    match expression {
        Expr::Import(Some(source)) => {
            push_import(imports, source, ImportType::DynamicImport);
            assert(imports.deep_view() =~= before + imports_of_expression(*expression));
        },
        Expr::Import(None) => {
            assert(imports.deep_view() =~= before + imports_of_expression(*expression));
        },
        Expr::Call { callee, arguments } => {
            match callee {
                Some(name) => {
                    if is_require(name) && arguments.len() > 0 {
                        match &arguments[0] {
                            Arg::StringLiteral(source) => {
                                push_import(imports, source, ImportType::Require);
                            },
                            _ => {},
                        }
                    }
                },
                None => {},
            }
            assert(imports.deep_view() =~= before + required_module(*callee, arguments@));
            let ghost base = imports.deep_view();
            let mut i: usize = 0;
            while i < arguments.len()
                invariant
                    i <= arguments@.len(),
                    decreases_to!(*expression => *arguments),
                    imports.deep_view() == base + imports_of_spreads(arguments@.take(i as int)),
                decreases arguments@.len() - i,
            {
                proof {
                    assert(arguments@.take(i + 1).drop_last() =~= arguments@.take(i as int));
                    assert(arguments@.take(i + 1).last() == arguments@[i as int]);
                }
                match &arguments[i] {
                    Arg::Spread(inner) => {
                        proof {
                            assert(decreases_to!(*arguments => arguments[i as int]));
                            assert(decreases_to!(arguments[i as int] => *inner));
                            assert(decreases_to!(*expression => *inner));
                        }
                        extract_imports_from_expression(inner, imports);
                        assert(imports.deep_view() =~= base + imports_of_spreads(
                            arguments@.take(i + 1),
                        ));
                    },
                    _ => {
                        assert(imports.deep_view() =~= base + imports_of_spreads(
                            arguments@.take(i + 1),
                        ));
                    },
                }
                i += 1;
            }
            assert(arguments@.take(i as int) =~= arguments@);
            assert(imports.deep_view() =~= before + imports_of_expression(*expression));
        },
        Expr::Await(inner) => {
            extract_imports_from_expression(inner, imports);
        },
        Expr::Other => {
            assert(imports.deep_view() =~= before + imports_of_expression(*expression));
        },
    }
}

fn is_require(name: &String) -> (yes: bool)
    ensures
        yes == (name@ == "require"@),
{
    crate::config::same_chars(&crate::text::to_chars(name.as_str()), &crate::text::to_chars("require"))
}

/// The imports of a program, in source order.
pub fn extract_imports_from_program(program: &Vec<Stmt>) -> (imports: Vec<ImportInfo>)
    ensures
        imports.deep_view() == imports_of_program(program@),
{
    let mut imports: Vec<ImportInfo> = Vec::new();
    assert(imports.deep_view() =~= Seq::empty());
    let mut i: usize = 0;
    while i < program.len()
        invariant
            i <= program@.len(),
            imports.deep_view() == imports_of_program(program@.take(i as int)),
        decreases program@.len() - i,
    {
        proof {
            assert(program@.take(i + 1).drop_last() =~= program@.take(i as int));
            assert(program@.take(i + 1).last() == program@[i as int]);
        }
        let ghost before = imports.deep_view();
        match &program[i] {
            Stmt::Import { source } => {
                push_import(&mut imports, source, ImportType::StaticImport);
            },
            Stmt::ExportNamed { source, .. } => {
                match source {
                    Some(source) => {
                        push_import(&mut imports, source, ImportType::ReExport);
                    },
                    None => {},
                }
            },
            Stmt::ExportAll { source } => {
                push_import(&mut imports, source, ImportType::ReExport);
            },
            Stmt::Expr(expression) => {
                extract_imports_from_expression(expression, &mut imports);
            },
            Stmt::Variable(declarators) => {
                let mut k: usize = 0;
                while k < declarators.len()
                    invariant
                        k <= declarators@.len(),
                        imports.deep_view() == before + imports_of_declarators(
                            declarators@.take(k as int),
                        ),
                    decreases declarators@.len() - k,
                {
                    proof {
                        assert(declarators@.take(k + 1).drop_last() =~= declarators@.take(
                            k as int,
                        ));
                        assert(declarators@.take(k + 1).last() == declarators@[k as int]);
                    }
                    match &declarators[k].init {
                        Some(init) => {
                            extract_imports_from_expression(init, &mut imports);
                        },
                        None => {},
                    }
                    assert(imports.deep_view() =~= before + imports_of_declarators(
                        declarators@.take(k + 1),
                    ));
                    k += 1;
                }
                assert(declarators@.take(k as int) =~= declarators@);
            },
            _ => {},
        }
        assert(imports.deep_view() =~= before + imports_of_statement(program@[i as int]));
        i += 1;
    }
    assert(program@.take(i as int) =~= program@);
    imports
}

} // verus!
