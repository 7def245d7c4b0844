//! Parsing source text with `oxc_parser`.
//!
//! The parser and its syntax tree are not verified. Taken on trust are
//! which dialect the name of a file stands for, whether the parser gives
//! up on a text and with which messages, which statements the program
//! holds that it makes of a text, and what a node of the tree holds: each
//! of these has a name. The tree is only looked into through small
//! functions, each of which tells the variants of one kind of node apart
//! and hands out what the node holds; its contract says that this is what
//! the names give. Verified code walks the tree with them and writes down
//! what the extractor and the barrel analysis read, and is proved to
//! write down what the nodes hold.
//!
//! [`Programs`] parses every file of a snapshot once and keeps the
//! programs.

use crate::parser::{
    extract_imports_from_program, imports_of_program, Arg, Binding, Decl, ExportSpecifier, Expr,
    ImportInfo, ParseError, Stmt, VariableDeclarator,
};
use oxc_allocator::Allocator;
use oxc_ast::ast::{
    Argument, BindingPattern, BindingPatternKind, Declaration, ExportDefaultDeclarationKind,
    ExportNamedDeclaration, Expression, Program, Statement, VariableDeclaration,
};
use crate::config::portable;
use crate::fs::FileTree;
use crate::path::{extension_of, file_name_of, last_segment};
use crate::text::{has_prefix, has_suffix};
use oxc_parser::Parser;
use oxc_span::SourceType;
use vstd::hash_map::StringHashMap;
use vstd::prelude::*;
use vstd::string::StrSliceExecFns;

verus! {

#[verifier::external_type_specification]
#[verifier::external_body]
pub struct ExAllocator(Allocator);

#[verifier::external_type_specification]
#[verifier::external_body]
pub struct ExProgram<'a>(Program<'a>);

#[verifier::external_type_specification]
#[verifier::external_body]
pub struct ExStatement<'a>(Statement<'a>);

#[verifier::external_type_specification]
#[verifier::external_body]
pub struct ExExpression<'a>(Expression<'a>);

#[verifier::external_type_specification]
#[verifier::external_body]
pub struct ExArgument<'a>(Argument<'a>);

#[verifier::external_type_specification]
#[verifier::external_body]
pub struct ExDeclaration<'a>(Declaration<'a>);

#[verifier::external_type_specification]
#[verifier::external_body]
pub struct ExBindingPattern<'a>(BindingPattern<'a>);

#[verifier::external_type_specification]
#[verifier::external_body]
pub struct ExVariableDeclaration<'a>(VariableDeclaration<'a>);

#[verifier::external_type_specification]
#[verifier::external_body]
pub struct ExExportNamedDeclaration<'a>(ExportNamedDeclaration<'a>);

/// The dialect in which a file is written.
#[derive(Debug, Clone, Copy, PartialEq, Eq, Structural)]
pub struct Dialect {
    /// TypeScript rather than JavaScript.
    pub typescript: bool,
    /// A TypeScript definition file.
    pub definition: bool,
    /// A script rather than a module.
    pub script: bool,
    /// With JSX.
    pub jsx: bool,
}

/// What a statement is, with what it holds.
pub enum StatementShape<'a> {
    Import(String),
    ExportNamed(&'a ExportNamedDeclaration<'a>),
    ExportAll(String),
    ExportDefault(bool),
    Evaluate(&'a Expression<'a>),
    Variable(&'a VariableDeclaration<'a>),
    TsExportAssignment,
    TsNamespaceExport,
    Other,
}

/// What an expression is, with what it holds.
pub enum ExpressionShape<'a> {
    StringLiteral(String),
    Identifier(String),
    Import(&'a Expression<'a>),
    Call(&'a Expression<'a>, Vec<&'a Argument<'a>>),
    Await(&'a Expression<'a>),
    Other,
}

/// What an argument is, with what it holds.
pub enum ArgumentShape<'a> {
    StringLiteral(String),
    Spread(&'a Expression<'a>),
    Other,
}

/// What a declaration is, with what it holds.
pub enum DeclarationShape<'a> {
    Variable(&'a VariableDeclaration<'a>),
    Function(Option<String>),
    Class(Option<String>),
    TypeAlias(String),
    Interface(String),
    Enum(String),
    Other,
}

/// What a binding pattern is, with what it holds.
pub enum BindingShape<'a> {
    Identifier(String),
    Object(Vec<&'a BindingPattern<'a>>),
    Array(Vec<Option<&'a BindingPattern<'a>>>),
    Assignment(&'a BindingPattern<'a>),
}

/// What an expression holds, as far as it is read here.
pub enum ExpressionTree {
    /// A string literal, with its text.
    StringLiteral(Seq<char>),
    /// A plain name.
    Identifier(Seq<char>),
    /// `import(source)`
    Import(Box<ExpressionTree>),
    /// A call, with the callee and the arguments.
    Call(Box<ExpressionTree>, Seq<ArgumentTree>),
    /// `await expression`
    Await(Box<ExpressionTree>),
    /// Anything else.
    Other,
}

/// What an argument of a call holds.
pub enum ArgumentTree {
    /// A string literal, with its text.
    StringLiteral(Seq<char>),
    /// `...expression`
    Spread(ExpressionTree),
    /// Anything else.
    Other,
}

/// What a binding pattern holds.
pub enum BindingTree {
    /// A plain name.
    Identifier(Seq<char>),
    /// An object pattern, with the patterns of its property values.
    Object(Seq<BindingTree>),
    /// An array pattern, with the patterns of its elements.
    Array(Seq<Option<BindingTree>>),
    /// `pattern = default`, with the pattern.
    Assignment(Box<BindingTree>),
}

/// What one declarator of a variable declaration holds.
pub struct DeclaratorTree {
    pub id: BindingTree,
    pub init: Option<ExpressionTree>,
}

/// What a declaration holds.
pub enum DeclarationTree {
    Variable(Seq<DeclaratorTree>),
    Function(Option<Seq<char>>),
    Class(Option<Seq<char>>),
    TypeAlias(Seq<char>),
    Interface(Seq<char>),
    Enum(Seq<char>),
    Other,
}

/// What a named export holds: the module it names, its list of names as
/// pairs (local, exported), and the declaration that it carries.
pub struct ExportTree {
    pub source: Option<Seq<char>>,
    pub specifiers: Seq<(Seq<char>, Seq<char>)>,
    pub declaration: Option<DeclarationTree>,
}

/// What a statement holds.
pub enum StatementTree {
    Import(Seq<char>),
    ExportNamed(ExportTree),
    ExportAll(Seq<char>),
    /// A default export; the flag says that a plain name follows.
    ExportDefault(bool),
    Evaluate(ExpressionTree),
    Variable(Seq<DeclaratorTree>),
    TsExportAssignment,
    TsNamespaceExport,
    Other,
}

/// What the expression holds.
pub uninterp spec fn expression_tree(expression: Expression<'_>) -> ExpressionTree;

/// What the argument holds.
pub uninterp spec fn argument_tree(argument: Argument<'_>) -> ArgumentTree;

/// What the binding pattern holds.
pub uninterp spec fn binding_tree(pattern: BindingPattern<'_>) -> BindingTree;

/// What the declarators of the variable declaration hold.
pub uninterp spec fn declarators_tree(declaration: VariableDeclaration<'_>) -> Seq<DeclaratorTree>;

/// What the declaration holds.
pub uninterp spec fn declaration_tree(declaration: Declaration<'_>) -> DeclarationTree;

/// What the named export holds.
pub uninterp spec fn export_tree(export: ExportNamedDeclaration<'_>) -> ExportTree;

/// What the statement holds.
pub uninterp spec fn statement_tree(statement: Statement<'_>) -> StatementTree;

/// The top-level statements that the program holds, in their order.
pub uninterp spec fn program_tree(program: Program<'_>) -> Seq<StatementTree>;

/// The top-level statements of the program that the parser makes of
/// `source` in the dialect that the four flags describe, where it does
/// not give up.
pub uninterp spec fn parsed_tree(
    source: Seq<char>,
    typescript: bool,
    definition: bool,
    script: bool,
    jsx: bool,
) -> Seq<StatementTree>;

/// The shape is that of an expression that holds `tree`.
pub open spec fn expression_shown(shape: ExpressionShape<'_>, tree: ExpressionTree) -> bool {
    match shape {
        ExpressionShape::StringLiteral(text) => tree == ExpressionTree::StringLiteral(text@),
        ExpressionShape::Identifier(name) => tree == ExpressionTree::Identifier(name@),
        ExpressionShape::Import(source) => tree == ExpressionTree::Import(
            Box::new(expression_tree(*source)),
        ),
        ExpressionShape::Call(callee, arguments) => match tree {
            ExpressionTree::Call(called, held) => *called == expression_tree(*callee) && held.len()
                == arguments@.len() && forall|i: int|
                0 <= i < held.len() ==> #[trigger] held[i] == argument_tree(*arguments@[i]),
            _ => false,
        },
        ExpressionShape::Await(inner) => tree == ExpressionTree::Await(
            Box::new(expression_tree(*inner)),
        ),
        ExpressionShape::Other => tree is Other,
    }
}

/// The shape is that of an argument that holds `tree`.
pub open spec fn argument_shown(shape: ArgumentShape<'_>, tree: ArgumentTree) -> bool {
    match shape {
        ArgumentShape::StringLiteral(text) => tree == ArgumentTree::StringLiteral(text@),
        ArgumentShape::Spread(inner) => tree == ArgumentTree::Spread(expression_tree(*inner)),
        ArgumentShape::Other => tree is Other,
    }
}

/// The shape is that of a binding pattern that holds `tree`.
pub open spec fn binding_shown(shape: BindingShape<'_>, tree: BindingTree) -> bool {
    match shape {
        BindingShape::Identifier(name) => tree == BindingTree::Identifier(name@),
        BindingShape::Object(values) => match tree {
            BindingTree::Object(held) => held.len() == values@.len() && forall|i: int|
                0 <= i < held.len() ==> #[trigger] held[i] == binding_tree(*values@[i]),
            _ => false,
        },
        BindingShape::Array(elements) => match tree {
            BindingTree::Array(held) => held.len() == elements@.len() && forall|i: int|
                0 <= i < held.len() ==> #[trigger] held[i] == match elements@[i] {
                    Some(inner) => Some(binding_tree(*inner)),
                    None => None,
                },
            _ => false,
        },
        BindingShape::Assignment(left) => tree == BindingTree::Assignment(
            Box::new(binding_tree(*left)),
        ),
    }
}

/// The list is that of the declarators `trees`, each with its pattern
/// and its initializer.
pub open spec fn declarators_shown(
    list: Seq<(&BindingPattern<'_>, Option<&Expression<'_>>)>,
    trees: Seq<DeclaratorTree>,
) -> bool {
    trees.len() == list.len() && forall|i: int|
        0 <= i < trees.len() ==> (#[trigger] trees[i]).id == binding_tree(*list[i].0) && trees[i].init
            == match list[i].1 {
            Some(init) => Some(expression_tree(*init)),
            None => None,
        }
}

/// The shape is that of a declaration that holds `tree`.
pub open spec fn declaration_shown(shape: DeclarationShape<'_>, tree: DeclarationTree) -> bool {
    match shape {
        DeclarationShape::Variable(inner) => tree == DeclarationTree::Variable(
            declarators_tree(*inner),
        ),
        DeclarationShape::Function(name) => tree == DeclarationTree::Function(name.deep_view()),
        DeclarationShape::Class(name) => tree == DeclarationTree::Class(name.deep_view()),
        DeclarationShape::TypeAlias(name) => tree == DeclarationTree::TypeAlias(name@),
        DeclarationShape::Interface(name) => tree == DeclarationTree::Interface(name@),
        DeclarationShape::Enum(name) => tree == DeclarationTree::Enum(name@),
        DeclarationShape::Other => tree is Other,
    }
}

/// The names of an export list as pairs (local, exported).
pub open spec fn specifier_pairs(specifiers: Seq<ExportSpecifier>) -> Seq<(Seq<char>, Seq<char>)> {
    Seq::new(specifiers.len(), |i: int| (specifiers[i].local@, specifiers[i].exported@))
}

/// The parts are those of a named export that holds `tree`.
pub open spec fn export_shown(
    source: Option<String>,
    specifiers: Seq<ExportSpecifier>,
    declaration: Option<&Declaration<'_>>,
    tree: ExportTree,
) -> bool {
    tree.source == source.deep_view() && tree.specifiers == specifier_pairs(specifiers)
        && tree.declaration == match declaration {
        Some(inner) => Some(declaration_tree(*inner)),
        None => None,
    }
}

/// The shape is that of a statement that holds `tree`.
pub open spec fn statement_shown(shape: StatementShape<'_>, tree: StatementTree) -> bool {
    match shape {
        StatementShape::Import(source) => tree == StatementTree::Import(source@),
        StatementShape::ExportNamed(export) => tree == StatementTree::ExportNamed(
            export_tree(*export),
        ),
        StatementShape::ExportAll(source) => tree == StatementTree::ExportAll(source@),
        StatementShape::ExportDefault(identifier) => tree == StatementTree::ExportDefault(
            identifier,
        ),
        StatementShape::Evaluate(expression) => tree == StatementTree::Evaluate(
            expression_tree(*expression),
        ),
        StatementShape::Variable(declaration) => tree == StatementTree::Variable(
            declarators_tree(*declaration),
        ),
        StatementShape::TsExportAssignment => tree is TsExportAssignment,
        StatementShape::TsNamespaceExport => tree is TsNamespaceExport,
        StatementShape::Other => tree is Other,
    }
}

/// The messages with which the parser gives up on `source` in the dialect
/// that the four flags describe, and `None` where it does not give up.
pub uninterp spec fn syntax_errors(
    source: Seq<char>,
    typescript: bool,
    definition: bool,
    script: bool,
    jsx: bool,
) -> Option<Seq<char>>;

impl Dialect {
    /// The messages with which the parser gives up on `source` in this dialect.
    pub open spec fn errors_in(self, source: Seq<char>) -> Option<Seq<char>> {
        syntax_errors(source, self.typescript, self.definition, self.script, self.jsx)
    }

    /// The top-level statements that the parser makes of `source` in this
    /// dialect, where it does not give up.
    pub open spec fn statements_of(self, source: Seq<char>) -> Seq<StatementTree> {
        parsed_tree(source, self.typescript, self.definition, self.script, self.jsx)
    }
}

/// The path ends in a file name and reads the same on every platform:
/// it holds neither a backslash nor a colon and does not begin with two
/// slashes, so that its last component is what stands behind its last `/`.
pub open spec fn names_file_alike(path: Seq<char>) -> bool {
    portable(path) && !path.contains(':') && !has_prefix(path, "//"@) && file_name_of(path)
        is Some
}

/// The dialect that the name of a file stands for. JavaScript counts as
/// written with JSX, TypeScript only under `.tsx`; `.cjs` and `.cts` are
/// scripts; `.d.ts`, `.d.mts` and `.d.cts` are definition files. Any other
/// name stands for a JavaScript module without JSX.
pub open spec fn dialect_named(path: Seq<char>) -> Dialect {
    let name = last_segment(path);
    let extension = extension_of(path);
    if extension == Some("js"@) || extension == Some("mjs"@) || extension == Some("jsx"@) {
        Dialect { typescript: false, definition: false, script: false, jsx: true }
    } else if extension == Some("cjs"@) {
        Dialect { typescript: false, definition: false, script: true, jsx: true }
    } else if extension == Some("tsx"@) {
        Dialect { typescript: true, definition: false, script: false, jsx: true }
    } else if extension == Some("ts"@) {
        Dialect {
            typescript: true,
            definition: has_suffix(name, ".d.ts"@),
            script: false,
            jsx: false,
        }
    } else if extension == Some("mts"@) {
        Dialect {
            typescript: true,
            definition: has_suffix(name, ".d.mts"@),
            script: false,
            jsx: false,
        }
    } else if extension == Some("cts"@) {
        Dialect {
            typescript: true,
            definition: has_suffix(name, ".d.cts"@),
            script: true,
            jsx: false,
        }
    } else {
        Dialect { typescript: false, definition: false, script: false, jsx: false }
    }
}

/// `SourceType::from_path`, and the default source type where the path
/// has no known extension; read with `is_typescript`,
/// `is_typescript_definition`, `is_script` and `is_jsx`. The source type
/// follows from the extension of the last component of the path and from
/// the end of its name. Which component is the last depends on the
/// platform for some paths; of those nothing is claimed.
#[verifier::external_body]
fn dialect_of_path(path: &str) -> (dialect: Dialect)
    ensures
        names_file_alike(path@) ==> dialect == dialect_named(path@),
{
    let source_type = SourceType::from_path(path).unwrap_or_default();
    Dialect {
        typescript: source_type.is_typescript(),
        definition: source_type.is_typescript_definition(),
        script: source_type.is_script(),
        jsx: source_type.is_jsx(),
    }
}

/// `Allocator::default`: the arena in which a syntax tree lives.
#[verifier::external_body]
fn new_allocator() -> (allocator: Allocator) {
    Allocator::default()
}

/// `Parser::new` and `Parser::parse` for a source type made with
/// `SourceType::default` and its `with_` methods: the program, or the
/// messages of the parser where it gave up (`panicked`). Whether it gives
/// up, with which messages, and which statements the program holds
/// follows from the text and the four flags alone; each is taken on trust
/// under a name.
#[verifier::external_body]
fn parse<'a>(allocator: &'a Allocator, source: &'a str, dialect: Dialect) -> (parsed: Result<
    Program<'a>,
    String,
>)
    ensures
        match parsed {
            Ok(program) => syntax_errors(
                source@,
                dialect.typescript,
                dialect.definition,
                dialect.script,
                dialect.jsx,
            ) is None && program_tree(program) == parsed_tree(
                source@,
                dialect.typescript,
                dialect.definition,
                dialect.script,
                dialect.jsx,
            ),
            Err(messages) => syntax_errors(
                source@,
                dialect.typescript,
                dialect.definition,
                dialect.script,
                dialect.jsx,
            ) == Some(messages@),
        },
{
    let kind = SourceType::default().with_typescript(dialect.typescript).with_typescript_definition(
        dialect.definition,
    ).with_script(dialect.script).with_jsx(dialect.jsx);
    let result = Parser::new(allocator, source, kind).parse();
    if result.panicked {
        Err(result.errors.iter().map(|e| e.to_string()).collect::<Vec<_>>().join(", "))
    } else {
        Ok(result.program)
    }
}

/// The field `body` of a `Program`: the statements that the program
/// holds, in their order.
#[verifier::external_body]
fn statements<'a>(program: &'a Program<'a>) -> (body: Vec<&'a Statement<'a>>)
    ensures
        body@.len() == program_tree(*program).len(),
        forall|i: int|
            0 <= i < body@.len() ==> statement_tree(*#[trigger] body@[i]) == program_tree(
                *program,
            )[i],
{
    program.body.iter().collect()
}

/// The variants of `Statement`; of a default export whether what it
/// exports is the variant `Identifier`. What is handed out is what the
/// statement holds, and the nodes handed out are those that it holds.
#[verifier::external_body]
fn statement_shape<'a>(statement: &'a Statement<'a>) -> (shape: StatementShape<'a>)
    ensures
        statement_shown(shape, statement_tree(*statement)),
{
    match statement {
        Statement::ImportDeclaration(d) => StatementShape::Import(d.source.value.to_string()),
        Statement::ExportNamedDeclaration(d) => StatementShape::ExportNamed(d),
        Statement::ExportAllDeclaration(d) => StatementShape::ExportAll(d.source.value.to_string()),
        Statement::ExportDefaultDeclaration(d) => StatementShape::ExportDefault(
            matches!(d.declaration, ExportDefaultDeclarationKind::Identifier(_)),
        ),
        Statement::ExpressionStatement(s) => StatementShape::Evaluate(&s.expression),
        Statement::VariableDeclaration(d) => StatementShape::Variable(d),
        Statement::TSExportAssignment(_) => StatementShape::TsExportAssignment,
        Statement::TSNamespaceExportDeclaration(_) => StatementShape::TsNamespaceExport,
        _ => StatementShape::Other,
    }
}

/// The variants of `Expression`. What is handed out is what the
/// expression holds, and the nodes handed out are those that it holds.
#[verifier::external_body]
fn expression_shape<'a>(expression: &'a Expression<'a>) -> (shape: ExpressionShape<'a>)
    ensures
        expression_shown(shape, expression_tree(*expression)),
{
    match expression {
        Expression::StringLiteral(l) => ExpressionShape::StringLiteral(l.value.to_string()),
        Expression::Identifier(i) => ExpressionShape::Identifier(i.name.to_string()),
        Expression::ImportExpression(i) => ExpressionShape::Import(&i.source),
        Expression::CallExpression(c) => ExpressionShape::Call(
            &c.callee,
            c.arguments.iter().collect(),
        ),
        Expression::AwaitExpression(a) => ExpressionShape::Await(&a.argument),
        _ => ExpressionShape::Other,
    }
}

/// The variants of `Argument`. What is handed out is what the argument
/// holds, and the node handed out is the one that it holds.
#[verifier::external_body]
fn argument_shape<'a>(argument: &'a Argument<'a>) -> (shape: ArgumentShape<'a>)
    ensures
        argument_shown(shape, argument_tree(*argument)),
{
    match argument {
        Argument::StringLiteral(l) => ArgumentShape::StringLiteral(l.value.to_string()),
        Argument::SpreadElement(s) => ArgumentShape::Spread(&s.argument),
        _ => ArgumentShape::Other,
    }
}

/// The fields `source`, `specifiers` and `declaration` of an
/// `ExportNamedDeclaration`; each specifier with what `name` gives for
/// its fields `local` and `exported`. The three parts are what the
/// export holds.
#[verifier::external_body]
fn export_parts<'a>(export: &'a ExportNamedDeclaration<'a>) -> (parts: (
    Option<String>,
    Vec<ExportSpecifier>,
    Option<&'a Declaration<'a>>,
))
    ensures
        export_shown(parts.0, parts.1@, parts.2, export_tree(*export)),
{
    (
        export.source.as_ref().map(|s| s.value.to_string()),
        export.specifiers.iter().map(
            |s|
                ExportSpecifier {
                    local: s.local.name().to_string(),
                    exported: s.exported.name().to_string(),
                },
        ).collect(),
        export.declaration.as_ref(),
    )
}

/// The field `declarations` of a `VariableDeclaration`: of each
/// declarator the fields `id` and `init`. The list has a pair for each
/// declarator that the declaration holds, in their order.
#[verifier::external_body]
fn declarators<'a>(declaration: &'a VariableDeclaration<'a>) -> (list: Vec<
    (&'a BindingPattern<'a>, Option<&'a Expression<'a>>),
>)
    ensures
        declarators_shown(list@, declarators_tree(*declaration)),
{
    declaration.declarations.iter().map(|d| (&d.id, d.init.as_ref())).collect()
}

/// The variants of `Declaration`; of a function and of a class the name,
/// of the TypeScript declarations the name of what they declare. What is
/// handed out is what the declaration holds.
#[verifier::external_body]
fn declaration_shape<'a>(declaration: &'a Declaration<'a>) -> (shape: DeclarationShape<'a>)
    ensures
        declaration_shown(shape, declaration_tree(*declaration)),
{
    match declaration {
        Declaration::VariableDeclaration(d) => DeclarationShape::Variable(d),
        Declaration::FunctionDeclaration(f) => DeclarationShape::Function(
            f.id.as_ref().map(|i| i.name.to_string()),
        ),
        Declaration::ClassDeclaration(c) => DeclarationShape::Class(
            c.id.as_ref().map(|i| i.name.to_string()),
        ),
        Declaration::TSTypeAliasDeclaration(t) => DeclarationShape::TypeAlias(t.id.name.to_string()),
        Declaration::TSInterfaceDeclaration(t) => DeclarationShape::Interface(t.id.name.to_string()),
        Declaration::TSEnumDeclaration(t) => DeclarationShape::Enum(t.id.name.to_string()),
        _ => DeclarationShape::Other,
    }
}

/// The variants of `BindingPatternKind`: for an object pattern the values
/// of its properties, for an array pattern its elements. What is handed
/// out is what the pattern holds, and the nodes handed out are those
/// that it holds.
#[verifier::external_body]
fn binding_shape<'a>(pattern: &'a BindingPattern<'a>) -> (shape: BindingShape<'a>)
    ensures
        binding_shown(shape, binding_tree(*pattern)),
{
    match &pattern.kind {
        BindingPatternKind::BindingIdentifier(i) => BindingShape::Identifier(i.name.to_string()),
        BindingPatternKind::ObjectPattern(o) => BindingShape::Object(
            o.properties.iter().map(|p| &p.value).collect(),
        ),
        BindingPatternKind::ArrayPattern(a) => BindingShape::Array(
            a.elements.iter().map(|e| e.as_ref()).collect(),
        ),
        BindingPatternKind::AssignmentPattern(a) => BindingShape::Assignment(&a.left),
    }
}

/// `lowered` is what is written down of an argument that holds `tree`:
/// the text of a string literal, what is written down of the expression
/// behind a spread, one level deeper, and "anything else" otherwise.
pub open spec fn argument_lowered(lowered: Arg, tree: ArgumentTree, fuel: nat) -> bool
    decreases fuel, 0nat,
{
    match tree {
        ArgumentTree::StringLiteral(text) => match lowered {
            Arg::StringLiteral(written) => written@ == text,
            _ => false,
        },
        ArgumentTree::Spread(inner) => match lowered {
            Arg::Spread(written) => fuel > 0 && expression_lowered(
                written,
                inner,
                (fuel - 1) as nat,
            ),
            _ => false,
        },
        ArgumentTree::Other => lowered is Other,
    }
}

/// `lowered` is what is written down of an expression that holds `tree`,
/// followed to the depth `fuel`:
/// of a dynamic import the text of its source where that is a string
/// literal; of a call the name of the callee where that is a plain name,
/// and its arguments; of an `await` the expression behind it, one level
/// deeper; and "anything else" for any other expression and where the
/// depth is used up.
pub open spec fn expression_lowered(lowered: Expr, tree: ExpressionTree, fuel: nat) -> bool
    decreases fuel, 1nat,
{
    if fuel == 0 {
        lowered is Other
    } else {
        match tree {
            ExpressionTree::Import(source) => match lowered {
                Expr::Import(written) => written.deep_view() == match *source {
                    ExpressionTree::StringLiteral(text) => Some(text),
                    _ => None,
                },
                _ => false,
            },
            ExpressionTree::Call(callee, held) => match lowered {
                Expr::Call { callee: name, arguments } => name.deep_view() == match *callee {
                    ExpressionTree::Identifier(called) => Some(called),
                    _ => None,
                } && arguments@.len() == held.len() && forall|i: int|
                    0 <= i < held.len() ==> argument_lowered(
                        #[trigger] arguments@[i],
                        held[i],
                        fuel,
                    ),
                _ => false,
            },
            ExpressionTree::Await(inner) => match lowered {
                Expr::Await(written) => expression_lowered(*written, *inner, (fuel - 1) as nat),
                _ => false,
            },
            _ => lowered is Other,
        }
    }
}

/// `lowered` is what is written down of an element of an array pattern.
pub open spec fn element_lowered(
    lowered: Option<Binding>,
    tree: Option<BindingTree>,
    fuel: nat,
) -> bool
    decreases fuel, 2nat,
{
    match tree {
        Some(held) => match lowered {
            Some(written) => binding_lowered(written, held, fuel),
            None => false,
        },
        None => lowered is None,
    }
}

/// `lowered` is what is written down of a binding pattern that holds
/// `tree`, followed to the depth `fuel`: the pattern with its parts, each
/// one level deeper, and an empty object pattern where the depth is used
/// up.
pub open spec fn binding_lowered(lowered: Binding, tree: BindingTree, fuel: nat) -> bool
    decreases fuel, 1nat,
{
    if fuel == 0 {
        match lowered {
            Binding::Object(written) => written@.len() == 0,
            _ => false,
        }
    } else {
        match tree {
            BindingTree::Identifier(name) => match lowered {
                Binding::Identifier(written) => written@ == name,
                _ => false,
            },
            BindingTree::Object(held) => match lowered {
                Binding::Object(written) => written@.len() == held.len() && forall|i: int|
                    0 <= i < held.len() ==> binding_lowered(
                        #[trigger] written@[i],
                        held[i],
                        (fuel - 1) as nat,
                    ),
                _ => false,
            },
            BindingTree::Array(held) => match lowered {
                Binding::Array(written) => written@.len() == held.len() && forall|i: int|
                    0 <= i < held.len() ==> element_lowered(
                        #[trigger] written@[i],
                        held[i],
                        (fuel - 1) as nat,
                    ),
                _ => false,
            },
            BindingTree::Assignment(left) => match lowered {
                Binding::Assignment(written) => binding_lowered(
                    *written,
                    *left,
                    (fuel - 1) as nat,
                ),
                _ => false,
            },
        }
    }
}

/// `lowered` is what is written down of an initializer.
pub open spec fn initializer_lowered(
    lowered: Option<Expr>,
    tree: Option<ExpressionTree>,
    fuel: nat,
) -> bool {
    match tree {
        Some(held) => match lowered {
            Some(written) => expression_lowered(written, held, fuel),
            None => false,
        },
        None => lowered is None,
    }
}

/// `lowered` is what is written down of the declarators `trees`: of each
/// its pattern and its initializer.
pub open spec fn declarators_lowered(
    lowered: Seq<VariableDeclarator>,
    trees: Seq<DeclaratorTree>,
    fuel: nat,
) -> bool {
    lowered.len() == trees.len() && forall|i: int|
        0 <= i < trees.len() ==> binding_lowered((#[trigger] lowered[i]).id, trees[i].id, fuel)
            && initializer_lowered(lowered[i].init, trees[i].init, fuel)
}

/// `lowered` is what is written down of a declaration that holds `tree`:
/// the same kind of declaration with the same name, and the declarators
/// of a variable declaration.
pub open spec fn declaration_lowered(lowered: Decl, tree: DeclarationTree, fuel: nat) -> bool {
    match tree {
        DeclarationTree::Variable(trees) => match lowered {
            Decl::Variable(written) => declarators_lowered(written@, trees, fuel),
            _ => false,
        },
        DeclarationTree::Function(name) => match lowered {
            Decl::Function(written) => written.deep_view() == name,
            _ => false,
        },
        DeclarationTree::Class(name) => match lowered {
            Decl::Class(written) => written.deep_view() == name,
            _ => false,
        },
        DeclarationTree::TypeAlias(name) => match lowered {
            Decl::TypeAlias(written) => written@ == name,
            _ => false,
        },
        DeclarationTree::Interface(name) => match lowered {
            Decl::Interface(written) => written@ == name,
            _ => false,
        },
        DeclarationTree::Enum(name) => match lowered {
            Decl::Enum(written) => written@ == name,
            _ => false,
        },
        DeclarationTree::Other => lowered is Other,
    }
}

/// `lowered` is what is written down of the declaration that a named
/// export carries.
pub open spec fn carried_lowered(
    lowered: Option<Decl>,
    tree: Option<DeclarationTree>,
    fuel: nat,
) -> bool {
    match tree {
        Some(held) => match lowered {
            Some(written) => declaration_lowered(written, held, fuel),
            None => false,
        },
        None => lowered is None,
    }
}

/// `lowered` is what is written down of a statement that holds `tree`:
/// the same kind of statement with the same module name, names and flag,
/// with what is written down of its expression, its declarators or the
/// declaration that it carries.
pub open spec fn statement_lowered(lowered: Stmt, tree: StatementTree, fuel: nat) -> bool {
    match tree {
        StatementTree::Import(name) => match lowered {
            Stmt::Import { source } => source@ == name,
            _ => false,
        },
        StatementTree::ExportNamed(held) => match lowered {
            Stmt::ExportNamed { source, specifiers, declaration } => source.deep_view()
                == held.source && specifier_pairs(specifiers@) == held.specifiers
                && carried_lowered(declaration, held.declaration, fuel),
            _ => false,
        },
        StatementTree::ExportAll(name) => match lowered {
            Stmt::ExportAll { source } => source@ == name,
            _ => false,
        },
        StatementTree::ExportDefault(flag) => match lowered {
            Stmt::ExportDefault { identifier } => identifier == flag,
            _ => false,
        },
        StatementTree::Evaluate(held) => match lowered {
            Stmt::Expr(written) => expression_lowered(written, held, fuel),
            _ => false,
        },
        StatementTree::Variable(trees) => match lowered {
            Stmt::Variable(written) => declarators_lowered(written@, trees, fuel),
            _ => false,
        },
        StatementTree::TsExportAssignment => lowered is TsExportAssignment,
        StatementTree::TsNamespaceExport => lowered is TsNamespaceExport,
        StatementTree::Other => lowered is Other,
    }
}

/// Writes down an expression. `fuel` bounds the depth to which the
/// expression is followed; below that depth it counts as "anything else".
fn lower_expression(expression: &Expression<'_>, fuel: usize) -> (lowered: Expr)
    ensures
        expression_lowered(lowered, expression_tree(*expression), fuel as nat),
    decreases fuel,
{
    if fuel == 0 {
        return Expr::Other;
    }
    let ghost tree = expression_tree(*expression);
    match expression_shape(expression) {
        ExpressionShape::Import(source) => match expression_shape(source) {
            ExpressionShape::StringLiteral(text) => Expr::Import(Some(text)),
            _ => Expr::Import(None),
        },
        ExpressionShape::Call(callee, arguments) => {
            let callee = match expression_shape(callee) {
                ExpressionShape::Identifier(name) => Some(name),
                _ => None,
            };
            let ghost held = tree->Call_1;
            let mut lowered: Vec<Arg> = Vec::new();
            let mut i: usize = 0;
            while i < arguments.len()
                invariant
                    i <= arguments@.len(),
                    fuel > 0,
                    held.len() == arguments@.len(),
                    forall|k: int|
                        0 <= k < held.len() ==> #[trigger] held[k] == argument_tree(*arguments@[k]),
                    lowered@.len() == i,
                    forall|k: int|
                        0 <= k < i ==> argument_lowered(#[trigger] lowered@[k], held[k], fuel as nat),
                decreases arguments@.len() - i,
            {
                let argument = match argument_shape(arguments[i]) {
                    ArgumentShape::StringLiteral(text) => Arg::StringLiteral(text),
                    ArgumentShape::Spread(inner) => Arg::Spread(lower_expression(inner, fuel - 1)),
                    ArgumentShape::Other => Arg::Other,
                };
                assert(argument_lowered(argument, held[i as int], fuel as nat));
                lowered.push(argument);
                i += 1;
            }
            Expr::Call { callee, arguments: lowered }
        },
        ExpressionShape::Await(inner) => Expr::Await(Box::new(lower_expression(inner, fuel - 1))),
        _ => Expr::Other,
    }
}

/// Writes down a binding pattern, to the depth that `fuel` allows; below
/// it a pattern counts as an empty object pattern, which binds nothing.
fn lower_binding(pattern: &BindingPattern<'_>, fuel: usize) -> (lowered: Binding)
    ensures
        binding_lowered(lowered, binding_tree(*pattern), fuel as nat),
    decreases fuel,
{
    if fuel == 0 {
        return Binding::Object(Vec::new());
    }
    let ghost tree = binding_tree(*pattern);
    match binding_shape(pattern) {
        BindingShape::Identifier(name) => Binding::Identifier(name),
        BindingShape::Object(values) => {
            let ghost held = tree->Object_0;
            let mut lowered: Vec<Binding> = Vec::new();
            let mut i: usize = 0;
            while i < values.len()
                invariant
                    i <= values@.len(),
                    fuel > 0,
                    held.len() == values@.len(),
                    forall|k: int|
                        0 <= k < held.len() ==> #[trigger] held[k] == binding_tree(*values@[k]),
                    lowered@.len() == i,
                    forall|k: int|
                        0 <= k < i ==> binding_lowered(
                            #[trigger] lowered@[k],
                            held[k],
                            (fuel - 1) as nat,
                        ),
                decreases values@.len() - i,
            {
                lowered.push(lower_binding(values[i], fuel - 1));
                i += 1;
            }
            Binding::Object(lowered)
        },
        BindingShape::Array(elements) => {
            let ghost held = tree->Array_0;
            let mut lowered: Vec<Option<Binding>> = Vec::new();
            let mut i: usize = 0;
            while i < elements.len()
                invariant
                    i <= elements@.len(),
                    fuel > 0,
                    held.len() == elements@.len(),
                    forall|k: int|
                        0 <= k < held.len() ==> #[trigger] held[k] == match elements@[k] {
                            Some(inner) => Some(binding_tree(*inner)),
                            None => None,
                        },
                    lowered@.len() == i,
                    forall|k: int|
                        0 <= k < i ==> element_lowered(
                            #[trigger] lowered@[k],
                            held[k],
                            (fuel - 1) as nat,
                        ),
                decreases elements@.len() - i,
            {
                let element = match elements[i] {
                    Some(inner) => Some(lower_binding(inner, fuel - 1)),
                    None => None,
                };
                assert(element_lowered(element, held[i as int], (fuel - 1) as nat));
                lowered.push(element);
                i += 1;
            }
            Binding::Array(lowered)
        },
        BindingShape::Assignment(left) => Binding::Assignment(
            Box::new(lower_binding(left, fuel - 1)),
        ),
    }
}

/// Writes down the declarators of a variable declaration.
fn lower_declarators(declaration: &VariableDeclaration<'_>, fuel: usize) -> (lowered: Vec<
    VariableDeclarator,
>)
    ensures
        declarators_lowered(lowered@, declarators_tree(*declaration), fuel as nat),
{
    let list = declarators(declaration);
    let ghost trees = declarators_tree(*declaration);
    let mut lowered: Vec<VariableDeclarator> = Vec::new();
    let mut i: usize = 0;
    while i < list.len()
        invariant
            i <= list@.len(),
            declarators_shown(list@, trees),
            lowered@.len() == i,
            forall|k: int|
                0 <= k < i ==> binding_lowered((#[trigger] lowered@[k]).id, trees[k].id, fuel as nat)
                    && initializer_lowered(lowered@[k].init, trees[k].init, fuel as nat),
        decreases list@.len() - i,
    {
        assert(trees[i as int].id == binding_tree(*list@[i as int].0));
        let id = lower_binding(list[i].0, fuel);
        let init = match list[i].1 {
            Some(expression) => Some(lower_expression(expression, fuel)),
            None => None,
        };
        assert(initializer_lowered(init, trees[i as int].init, fuel as nat));
        lowered.push(VariableDeclarator { id, init });
        i += 1;
    }
    lowered
}

/// Writes down a declaration.
fn lower_declaration(declaration: &Declaration<'_>, fuel: usize) -> (lowered: Decl)
    ensures
        declaration_lowered(lowered, declaration_tree(*declaration), fuel as nat),
{
    match declaration_shape(declaration) {
        DeclarationShape::Variable(inner) => Decl::Variable(lower_declarators(inner, fuel)),
        DeclarationShape::Function(name) => Decl::Function(name),
        DeclarationShape::Class(name) => Decl::Class(name),
        DeclarationShape::TypeAlias(name) => Decl::TypeAlias(name),
        DeclarationShape::Interface(name) => Decl::Interface(name),
        DeclarationShape::Enum(name) => Decl::Enum(name),
        DeclarationShape::Other => Decl::Other,
    }
}

/// Writes down a statement.
fn lower_statement(statement: &Statement<'_>, fuel: usize) -> (lowered: Stmt)
    ensures
        statement_lowered(lowered, statement_tree(*statement), fuel as nat),
{
    match statement_shape(statement) {
        StatementShape::Import(source) => Stmt::Import { source },
        StatementShape::ExportNamed(export) => {
            let (source, specifiers, declaration) = export_parts(export);
            let declaration = match declaration {
                Some(inner) => Some(lower_declaration(inner, fuel)),
                None => None,
            };
            assert(carried_lowered(declaration, export_tree(*export).declaration, fuel as nat));
            Stmt::ExportNamed { source, specifiers, declaration }
        },
        StatementShape::ExportAll(source) => Stmt::ExportAll { source },
        StatementShape::ExportDefault(identifier) => Stmt::ExportDefault { identifier },
        StatementShape::Evaluate(expression) => Stmt::Expr(lower_expression(expression, fuel)),
        StatementShape::Variable(declaration) => Stmt::Variable(
            lower_declarators(declaration, fuel),
        ),
        StatementShape::TsExportAssignment => Stmt::TsExportAssignment,
        StatementShape::TsNamespaceExport => Stmt::TsNamespaceExport,
        StatementShape::Other => Stmt::Other,
    }
}

/// The error is a syntax error with the given messages.
pub open spec fn is_syntax_error(error: ParseError, messages: Option<Seq<char>>) -> bool {
    match error {
        ParseError::SyntaxError(m) => messages == Some(m@),
        _ => false,
    }
}

/// Parsing `source` in `dialect` ends as `ended` says: with the messages
/// of the parser where it gives up, and without an error where it does not.
pub open spec fn ends_as<T>(dialect: Dialect, source: Seq<char>, ended: Result<T, ParseError>) -> bool {
    match ended {
        Ok(_) => dialect.errors_in(source) is None,
        Err(e) => is_syntax_error(e, dialect.errors_in(source)),
    }
}

/// `written` is what is written down of the statements `trees`, each
/// followed to the depth `fuel`.
pub open spec fn program_lowered(written: Seq<Stmt>, trees: Seq<StatementTree>, fuel: nat) -> bool {
    written.len() == trees.len() && forall|i: int|
        0 <= i < trees.len() ==> statement_lowered(#[trigger] written[i], trees[i], fuel)
}

/// `written` is the program of `source` in `dialect`: what is written
/// down of the statements that the parser makes of the text, each
/// followed as deep as the text has characters.
pub open spec fn written_of(written: Seq<Stmt>, source: Seq<char>, dialect: Dialect) -> bool {
    program_lowered(written, dialect.statements_of(source), source.len())
}

/// Parsing `source` in `dialect` ends with `parsed`: with the program of
/// the text where the parser does not give up, else with its messages.
pub open spec fn parsed_as(
    dialect: Dialect,
    source: Seq<char>,
    parsed: Result<Vec<Stmt>, ParseError>,
) -> bool {
    match parsed {
        Ok(written) => dialect.errors_in(source) is None && written_of(written@, source, dialect),
        Err(e) => is_syntax_error(e, dialect.errors_in(source)),
    }
}

/// `imports` are the imports of the program of `source` in `dialect`.
pub open spec fn imports_written(
    imports: Seq<(Seq<char>, crate::parser::ImportType)>,
    source: Seq<char>,
    dialect: Dialect,
) -> bool {
    exists|written: Seq<Stmt>| #[trigger]
        written_of(written, source, dialect) && imports == imports_of_program(written)
}

/// Extracting the imports of `source` in `dialect` ends with `parsed`:
/// with the imports of the program of the text where the parser does not
/// give up, else with its messages.
pub open spec fn extracted_as(
    dialect: Dialect,
    source: Seq<char>,
    parsed: Result<Vec<ImportInfo>, ParseError>,
) -> bool {
    match parsed {
        Ok(imports) => dialect.errors_in(source) is None && imports_written(
            imports.deep_view(),
            source,
            dialect,
        ),
        Err(e) => is_syntax_error(e, dialect.errors_in(source)),
    }
}

/// `program` is what is kept of the file `path` with the text `source`:
/// its program where the parser accepts the text, and nothing where it
/// gives up. The text is parsed in the dialect that the name of the file
/// stands for, and in some dialect where the path does not read the same
/// on every platform.
pub open spec fn kept_as(path: Seq<char>, source: Seq<char>, program: Option<Seq<Stmt>>) -> bool {
    exists|dialect: Dialect|
        (names_file_alike(path) ==> dialect == dialect_named(path)) && match program {
            Some(written) => (#[trigger] dialect.errors_in(source)) is None && written_of(
                written,
                source,
                dialect,
            ),
            None => dialect.errors_in(source) is Some,
        }
}

/// The dialect that the name of the file `path` stands for. Of a path
/// that does not read the same on every platform nothing is stated.
pub fn dialect_for(path: &str) -> (dialect: Dialect)
    ensures
        names_file_alike(path@) ==> dialect == dialect_named(path@),
{
    dialect_of_path(path)
}

/// Parses `source` in the given dialect and writes down its top-level
/// statements. Fails where the parser gives up; a text that it can
/// recover from counts as parsed. Nothing is nested deeper than a text
/// has characters, so every expression is followed to its end.
pub fn parse_program(source: &str, dialect: Dialect) -> (parsed: Result<Vec<Stmt>, ParseError>)
    ensures
        ends_as(dialect, source@, parsed),
        parsed_as(dialect, source@, parsed),
{
    let allocator = new_allocator();
    let program = match parse(&allocator, source, dialect) {
        Ok(program) => program,
        Err(messages) => {
            return Err(ParseError::SyntaxError(messages));
        },
    };
    let fuel = source.unicode_len();
    let body = statements(&program);
    let ghost trees = program_tree(program);
    let mut lowered: Vec<Stmt> = Vec::new();
    let mut i: usize = 0;
    while i < body.len()
        invariant
            i <= body@.len(),
            body@.len() == trees.len(),
            forall|k: int| 0 <= k < body@.len() ==> statement_tree(*#[trigger] body@[k]) == trees[k],
            lowered@.len() == i,
            forall|k: int|
                0 <= k < i ==> statement_lowered(#[trigger] lowered@[k], trees[k], fuel as nat),
        decreases body@.len() - i,
    {
        lowered.push(lower_statement(body[i], fuel));
        i += 1;
    }
    assert(written_of(lowered@, source@, dialect));
    Ok(lowered)
}

/// The imports of a source text, in source order: those of the program
/// of the text in the dialect that the name of `path` stands for. The
/// call fails where the parser gives up on the text.
pub fn parse_source(source: &str, path: &str) -> (parsed: Result<Vec<ImportInfo>, ParseError>)
    ensures
        exists|dialect: Dialect|
            (names_file_alike(path@) ==> dialect == dialect_named(path@)) && #[trigger] ends_as(
                dialect,
                source@,
                parsed,
            ) && extracted_as(dialect, source@, parsed),
{
    let dialect = dialect_for(path);
    let parsed = match parse_program(source, dialect) {
        Ok(program) => {
            let imports = extract_imports_from_program(&program);
            assert(written_of(program@, source@, dialect) && imports.deep_view()
                == imports_of_program(program@));
            Ok(imports)
        },
        Err(e) => Err(e),
    };
    assert(ends_as(dialect, source@, parsed) && extracted_as(dialect, source@, parsed));
    parsed
}

/// The imports of the file `path`, given what reading it gave: its text,
/// or why it could not be read.
pub fn parse_file(path: &str, read: Result<String, String>) -> (parsed: Result<
    Vec<ImportInfo>,
    ParseError,
>)
    ensures
        match read {
            Ok(text) => exists|dialect: Dialect|
                (names_file_alike(path@) ==> dialect == dialect_named(path@)) && #[trigger] ends_as(
                    dialect,
                    text@,
                    parsed,
                ) && extracted_as(dialect, text@, parsed),
            Err(why) => parsed matches Err(ParseError::IoError(m)) && m@ == why@,
        },
{
    match read {
        Ok(text) => parse_source(text.as_str(), path),
        Err(why) => Err(ParseError::IoError(why)),
    }
}

/// The programs of the files of a snapshot, as far as the parser accepts
/// them. Each file is parsed once.
pub struct Programs {
    by_path: StringHashMap<Vec<Stmt>>,
}

impl Programs {
    /// The program kept for `path`.
    pub closed spec fn program(&self, path: Seq<char>) -> Option<Seq<Stmt>> {
        if self.by_path@.contains_key(path) {
            Some(self.by_path@[path]@)
        } else {
            None
        }
    }

    /// The programs are those of the files of `tree`: a file has one where
    /// `tree` holds its text and the parser accepts the text, and it is
    /// the program of that text.
    pub open spec fn read_from(&self, tree: &FileTree) -> bool {
        forall|path: Seq<char>|
            match #[trigger] tree.content_of(path) {
                Some(text) => kept_as(path, text, self.program(path)),
                None => self.program(path) is None,
            }
    }

    /// No programs.
    pub fn new() -> (programs: Self)
        ensures
            forall|path: Seq<char>| programs.program(path) is None,
    {
        Programs { by_path: StringHashMap::new() }
    }

    /// Keeps `program` as the program of `path`, in place of an earlier one.
    pub fn insert(&mut self, path: String, program: Vec<Stmt>)
        ensures
            final(self).program(path@) == Some(program@),
            forall|other: Seq<char>|
                other != path@ ==> final(self).program(other) == old(self).program(other),
    {
        self.by_path.insert(path, program);
    }

    /// The program kept for `path`.
    pub fn get(&self, path: &str) -> (found: Option<&Vec<Stmt>>)
        ensures
            match found {
                Some(program) => self.program(path@) == Some(program@),
                None => self.program(path@) is None,
            },
    {
        self.by_path.get(path)
    }

    /// Parses every file whose text `tree` holds, in the dialect that its
    /// name stands for, and keeps the programs of those that the parser
    /// accepts.
    pub fn read(tree: &FileTree) -> (programs: Self)
        requires
            tree.wf(),
        ensures
            programs.read_from(tree),
    {
        let paths = tree.paths();
        let ghost listed = paths.deep_view();
        let mut programs = Programs::new();
        let mut i: usize = 0;
        while i < paths.len()
            invariant
                tree.wf(),
                i <= paths@.len(),
                listed == paths.deep_view(),
                listed.no_duplicates(),
                forall|k: int|
                    0 <= k < i ==> match tree.content_of(#[trigger] listed[k]) {
                        Some(text) => kept_as(listed[k], text, programs.program(listed[k])),
                        None => programs.program(listed[k]) is None,
                    },
                forall|path: Seq<char>|
                    programs.program(path) is Some ==> exists|k: int|
                        0 <= k < i && #[trigger] listed[k] == path,
            decreases paths@.len() - i,
        {
            let ghost here = listed[i as int];
            assert(here == paths@[i as int]@);
            let ghost before = programs;
            assert(before.program(here) is None);
            match tree.read_to_string(paths[i].as_str()) {
                Some(text) => {
                    let dialect = dialect_for(paths[i].as_str());
                    match parse_program(text.as_str(), dialect) {
                        Ok(program) => {
                            programs.insert(paths[i].clone(), program);
                        },
                        Err(_) => {},
                    }
                    assert(match programs.program(here) {
                        Some(written) => dialect.errors_in(text@) is None && written_of(
                            written,
                            text@,
                            dialect,
                        ),
                        None => dialect.errors_in(text@) is Some,
                    });
                    assert(kept_as(here, text@, programs.program(here)));
                },
                None => {},
            }
            assert forall|k: int| 0 <= k < i implies programs.program(#[trigger] listed[k])
                == before.program(listed[k]) by {
                assert(listed[k] != here);
            }
            assert forall|path: Seq<char>| programs.program(path) is Some implies exists|k: int|
                0 <= k < i + 1 && #[trigger] listed[k] == path by {
                if path == here {
                    assert(listed[i as int] == path);
                } else {
                    assert(before.program(path) is Some);
                    let k = choose|k: int| 0 <= k < i && #[trigger] listed[k] == path;
                    assert(0 <= k < i + 1 && listed[k] == path);
                }
            }
            i += 1;
        }
        assert forall|path: Seq<char>|
            match #[trigger] tree.content_of(path) {
                Some(text) => kept_as(path, text, programs.program(path)),
                None => programs.program(path) is None,
            } by {
            if tree.content_of(path) is Some {
                assert(tree.has(path));
                assert(listed.contains(path));
                let k = choose|k: int| 0 <= k < listed.len() && listed[k] == path;
                assert(tree.content_of(listed[k]) is Some);
            } else if programs.program(path) is Some {
                let k = choose|k: int| 0 <= k < i && #[trigger] listed[k] == path;
                assert(tree.content_of(listed[k]) is None);
            }
        }
        programs
    }
}

} // verus!
