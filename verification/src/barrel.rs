//! Barrels: index modules that only pass on what other modules export.
//!
//! The analysis works on the programs of a snapshot, parsed beforehand
//! (see [`Programs`]), and on the snapshot itself for the paths that the
//! modules name.

use crate::config::same_chars;
use crate::fs::FileTree;
use crate::parser::{Binding, Decl, ExportSpecifier, Stmt, VariableDeclarator};
use crate::path::{joined_path, normalized, parent_of};
use crate::resolver::{extension_candidates, first_listed};
use crate::syntax::Programs;
use crate::text::{has_prefix, split_on, starts_with, to_chars};
use vstd::hash_map::StringHashMap;
use vstd::prelude::*;
use vstd::string::StringExecFns;

verus! {

/// Where an exported name comes from.
#[derive(Debug)]
pub struct ExportSource {
    /// The file that the name is taken from.
    pub source_path: String,
    /// The name that it has there, where that is another one.
    pub original_name: Option<String>,
}

/// An exported name with its origin, as a mathematical value.
pub struct ExportView {
    pub name: Seq<char>,
    pub path: Seq<char>,
    pub original: Option<Seq<char>>,
}

impl Clone for ExportSource {
    fn clone(&self) -> (copy: Self)
        ensures
            copy.source_path@ == self.source_path@,
            copy.original_name.deep_view() == self.original_name.deep_view(),
    {
        ExportSource {
            source_path: self.source_path.clone(),
            original_name: match &self.original_name {
                Some(name) => Some(name.clone()),
                None => None,
            },
        }
    }
}

/// One exported name of a table.
#[derive(Debug)]
pub struct ExportEntry {
    pub name: String,
    pub source: ExportSource,
}

impl ExportEntry {
    /// The entry as a mathematical value.
    pub open spec fn view(&self) -> ExportView {
        ExportView {
            name: self.name@,
            path: self.source.source_path@,
            original: self.source.original_name.deep_view(),
        }
    }
}

/// The position of the first export named `name` at or after `from`, and
/// the number of exports where there is none.
pub open spec fn export_position(table: Seq<ExportView>, name: Seq<char>, from: int) -> int
    decreases table.len() - from,
{
    if from >= table.len() {
        table.len() as int
    } else if from >= 0 && table[from].name == name {
        from
    } else {
        export_position(table, name, from + 1)
    }
}

/// Where [`export_position`] points.
pub proof fn lemma_export_position(table: Seq<ExportView>, name: Seq<char>, from: int)
    requires
        0 <= from <= table.len(),
    ensures
        from <= export_position(table, name, from) <= table.len(),
        export_position(table, name, from) < table.len() ==> table[export_position(
            table,
            name,
            from,
        )].name == name,
    decreases table.len() - from,
{
    if from < table.len() && table[from].name != name {
        lemma_export_position(table, name, from + 1);
    }
}

/// The table with `export` in place of what its name stood for, or at the
/// end where the name is new.
pub open spec fn with_export(table: Seq<ExportView>, export: ExportView) -> Seq<ExportView> {
    let at = export_position(table, export.name, 0);
    if 0 <= at < table.len() {
        table.update(at, export)
    } else {
        table.push(export)
    }
}

/// The table with each of `more` set, one after the other.
pub open spec fn with_exports(table: Seq<ExportView>, more: Seq<ExportView>) -> Seq<ExportView>
    decreases more.len(),
{
    if more.len() == 0 {
        table
    } else {
        with_export(with_exports(table, more.drop_last()), more.last())
    }
}

/// The exported names of a module with where they come from.
#[derive(Debug)]
pub struct ExportTable {
    entries: Vec<ExportEntry>,
}

impl ExportTable {
    /// The exports, in the order in which their names first came.
    pub closed spec fn view(&self) -> Seq<ExportView> {
        self.entries@.map_values(|e: ExportEntry| e.view())
    }

    /// A table without exports.
    pub fn new() -> (table: Self)
        ensures
            table@ == Seq::<ExportView>::empty(),
    {
        let table = ExportTable { entries: Vec::new() };
        assert(table@ =~= Seq::<ExportView>::empty());
        table
    }

    /// The number of exports.
    pub fn len(&self) -> (count: usize)
        ensures
            count == self@.len(),
    {
        self.entries.len()
    }

    /// Whether the table is without exports.
    pub fn is_empty(&self) -> (empty: bool)
        ensures
            empty == (self@.len() == 0),
    {
        self.entries.len() == 0
    }

    /// The export at position `at`.
    pub fn entry(&self, at: usize) -> (entry: &ExportEntry)
        requires
            at < self@.len(),
        ensures
            entry.view() == self@[at as int],
    {
        &self.entries[at]
    }

    fn position(&self, name: &str) -> (at: usize)
        ensures
            at == export_position(self@, name@, 0),
            at <= self@.len(),
    {
        let mut i: usize = 0;
        while i < self.entries.len()
            invariant
                i <= self.entries@.len(),
                export_position(self@, name@, 0) == export_position(self@, name@, i as int),
            decreases self.entries@.len() - i,
        {
            assert(self@[i as int].name == self.entries@[i as int].name@);
            if same_chars(&to_chars(self.entries[i].name.as_str()), &to_chars(name)) {
                return i;
            }
            i += 1;
        }
        i
    }

    /// Where the export `name` comes from.
    pub fn get(&self, name: &str) -> (found: Option<&ExportSource>)
        ensures
            match found {
                Some(source) => export_position(self@, name@, 0) < self@.len() && self@[export_position(
                    self@,
                    name@,
                    0,
                )].path == source.source_path@ && self@[export_position(self@, name@, 0)].original
                    == source.original_name.deep_view(),
                None => export_position(self@, name@, 0) >= self@.len(),
            },
    {
        let at = self.position(name);
        if at < self.entries.len() {
            assert(self@[at as int] == self.entries@[at as int].view());
            Some(&self.entries[at].source)
        } else {
            None
        }
    }

    /// Sets where the export `name` comes from.
    pub fn insert(&mut self, name: String, source: ExportSource)
        ensures
            final(self)@ == with_export(
                old(self)@,
                ExportView {
                    name: name@,
                    path: source.source_path@,
                    original: source.original_name.deep_view(),
                },
            ),
    {
        let at = self.position(name.as_str());
        let ghost export = ExportView {
            name: name@,
            path: source.source_path@,
            original: source.original_name.deep_view(),
        };
        let ghost before = self@;
        if at < self.entries.len() {
            self.entries.set(at, ExportEntry { name, source });
            assert(self@ =~= before.update(at as int, export));
        } else {
            self.entries.push(ExportEntry { name, source });
            assert(self@ =~= before.push(export));
        }
    }

    /// Sets every export of `more`, one after the other.
    pub fn extend(&mut self, more: &ExportTable)
        ensures
            final(self)@ == with_exports(old(self)@, more@),
    {
        let mut i: usize = 0;
        while i < more.entries.len()
            invariant
                i <= more.entries@.len(),
                self@ == with_exports(old(self)@, more@.take(i as int)),
            decreases more.entries@.len() - i,
        {
            proof {
                assert(more@.take(i + 1).drop_last() =~= more@.take(i as int));
                assert(more@.take(i + 1).last() == more.entries@[i as int].view());
            }
            let entry = &more.entries[i];
            self.insert(entry.name.clone(), entry.source.clone());
            i += 1;
        }
        assert(more@.take(i as int) =~= more@);
    }
}

impl Clone for ExportTable {
    fn clone(&self) -> (copy: Self)
        ensures
            copy@ == self@,
    {
        let mut entries: Vec<ExportEntry> = Vec::new();
        let mut i: usize = 0;
        while i < self.entries.len()
            invariant
                i <= self.entries@.len(),
                entries@.len() == i,
                forall|k: int| 0 <= k < i ==> (#[trigger] entries@[k]).view() == self.entries@[k].view(),
            decreases self.entries@.len() - i,
        {
            let entry = &self.entries[i];
            entries.push(ExportEntry { name: entry.name.clone(), source: entry.source.clone() });
            i += 1;
        }
        let copy = ExportTable { entries };
        assert(copy@ =~= self@);
        copy
    }
}

/// The names that the patterns of `list` bind.
pub open spec fn names_of_bindings(list: Seq<Binding>) -> Seq<Seq<char>>
    decreases list, 0nat,
{
    if list.len() == 0 {
        Seq::empty()
    } else {
        names_of_bindings(list.drop_last()) + names_of_binding(list.last())
    }
}

/// The names that the elements of an array pattern bind.
pub open spec fn names_of_elements(list: Seq<Option<Binding>>) -> Seq<Seq<char>>
    decreases list, 0nat,
{
    if list.len() == 0 {
        Seq::empty()
    } else {
        names_of_elements(list.drop_last()) + match list.last() {
            Some(pattern) => names_of_binding(pattern),
            None => Seq::empty(),
        }
    }
}

/// The names that a pattern binds, in source order.
pub open spec fn names_of_binding(pattern: Binding) -> Seq<Seq<char>>
    decreases pattern, 1nat,
{
    match pattern {
        Binding::Identifier(name) => seq![name@],
        Binding::Object(values) => names_of_bindings(values@),
        Binding::Array(elements) => names_of_elements(elements@),
        Binding::Assignment(left) => names_of_binding(*left),
    }
}

/// The names that the declarators of a variable declaration bind.
pub open spec fn names_of_declarators(list: Seq<VariableDeclarator>) -> Seq<Seq<char>>
    decreases list.len(),
{
    if list.len() == 0 {
        Seq::empty()
    } else {
        names_of_declarators(list.drop_last()) + names_of_binding(list.last().id)
    }
}

/// The names that a declaration declares.
pub open spec fn declared_names(declaration: Decl) -> Seq<Seq<char>> {
    match declaration {
        Decl::Variable(declarators) => names_of_declarators(declarators@),
        Decl::Function(Some(name)) => seq![name@],
        Decl::Class(Some(name)) => seq![name@],
        Decl::TypeAlias(name) => seq![name@],
        Decl::Interface(name) => seq![name@],
        Decl::Enum(name) => seq![name@],
        _ => Seq::empty(),
    }
}

/// Appends the names that `pattern` binds to `names`.
pub fn collect_binding_names(pattern: &Binding, names: &mut Vec<String>)
    ensures
        final(names).deep_view() == old(names).deep_view() + names_of_binding(*pattern),
    decreases pattern,
{
    let ghost before = names.deep_view();
    match pattern {
        Binding::Identifier(name) => {
            names.push(name.clone());
            assert(names.deep_view() =~= before + names_of_binding(*pattern));
        },
        Binding::Object(values) => {
            let mut i: usize = 0;
            assert(names.deep_view() =~= before + names_of_bindings(values@.take(0)));
            while i < values.len()
                invariant
                    i <= values@.len(),
                    decreases_to!(*pattern => *values),
                    names.deep_view() == before + names_of_bindings(values@.take(i as int)),
                decreases values@.len() - i,
            {
                proof {
                    assert(values@.take(i + 1).drop_last() =~= values@.take(i as int));
                    assert(values@.take(i + 1).last() == values@[i as int]);
                    assert(decreases_to!(*values => values[i as int]));
                }
                collect_binding_names(&values[i], names);
                assert(names.deep_view() =~= before + names_of_bindings(values@.take(i + 1)));
                i += 1;
            }
            assert(values@.take(i as int) =~= values@);
        },
        Binding::Array(elements) => {
            let mut i: usize = 0;
            assert(names.deep_view() =~= before + names_of_elements(elements@.take(0)));
            while i < elements.len()
                invariant
                    i <= elements@.len(),
                    decreases_to!(*pattern => *elements),
                    names.deep_view() == before + names_of_elements(elements@.take(i as int)),
                decreases elements@.len() - i,
            {
                proof {
                    assert(elements@.take(i + 1).drop_last() =~= elements@.take(i as int));
                    assert(elements@.take(i + 1).last() == elements@[i as int]);
                    assert(decreases_to!(*elements => elements[i as int]));
                }
                match &elements[i] {
                    Some(inner) => {
                        proof {
                            assert(decreases_to!(elements[i as int] => *inner));
                        }
                        collect_binding_names(inner, names);
                    },
                    None => {},
                }
                assert(names.deep_view() =~= before + names_of_elements(elements@.take(i + 1)));
                i += 1;
            }
            assert(elements@.take(i as int) =~= elements@);
        },
        Binding::Assignment(left) => {
            collect_binding_names(left, names);
        },
    }
}

/// The names that `declaration` declares, in source order.
pub fn get_declaration_names(declaration: &Decl) -> (names: Vec<String>)
    ensures
        names.deep_view() == declared_names(*declaration),
{
    let mut names: Vec<String> = Vec::new();
    assert(names.deep_view() =~= Seq::<Seq<char>>::empty());
    match declaration {
        Decl::Variable(declarators) => {
            let mut i: usize = 0;
            assert(names.deep_view() =~= names_of_declarators(declarators@.take(0)));
            while i < declarators.len()
                invariant
                    i <= declarators@.len(),
                    names.deep_view() == names_of_declarators(declarators@.take(i as int)),
                decreases declarators@.len() - i,
            {
                proof {
                    assert(declarators@.take(i + 1).drop_last() =~= declarators@.take(i as int));
                    assert(declarators@.take(i + 1).last() == declarators@[i as int]);
                }
                collect_binding_names(&declarators[i].id, &mut names);
                i += 1;
            }
            assert(declarators@.take(i as int) =~= declarators@);
        },
        Decl::Function(Some(name)) => {
            names.push(name.clone());
            assert(names.deep_view() =~= seq![name@]);
        },
        Decl::Class(Some(name)) => {
            names.push(name.clone());
            assert(names.deep_view() =~= seq![name@]);
        },
        Decl::TypeAlias(name) => {
            names.push(name.clone());
            assert(names.deep_view() =~= seq![name@]);
        },
        Decl::Interface(name) => {
            names.push(name.clone());
            assert(names.deep_view() =~= seq![name@]);
        },
        Decl::Enum(name) => {
            names.push(name.clone());
            assert(names.deep_view() =~= seq![name@]);
        },
        _ => {},
    }
    names
}

/// A statement that a barrel may hold: an import, a re-export, a bare
/// export list, a default export of a plain name, or one of the two export
/// assignments of TypeScript.
pub open spec fn passes_on(statement: Stmt) -> bool {
    match statement {
        Stmt::Import { .. } => true,
        Stmt::ExportNamed { source: Some(_), .. } => true,
        Stmt::ExportNamed { source: None, declaration: Some(_), .. } => false,
        Stmt::ExportNamed { source: None, declaration: None, .. } => true,
        Stmt::ExportAll { .. } => true,
        Stmt::ExportDefault { identifier } => identifier,
        Stmt::TsExportAssignment => true,
        Stmt::TsNamespaceExport => true,
        _ => false,
    }
}

/// A statement that exports from another module.
pub open spec fn reexports(statement: Stmt) -> bool {
    match statement {
        Stmt::ExportNamed { source: Some(_), .. } => true,
        Stmt::ExportAll { .. } => true,
        _ => false,
    }
}

/// A program is a barrel where each of its statements passes on and at
/// least one of them exports from another module.
pub open spec fn is_barrel_program(program: Seq<Stmt>) -> bool {
    &&& forall|i: int| 0 <= i < program.len() ==> passes_on(#[trigger] program[i])
    &&& exists|i: int| 0 <= i < program.len() && reexports(#[trigger] program[i])
}

/// Decides [`is_barrel_program`].
pub fn is_pure_barrel(program: &Vec<Stmt>) -> (pure: bool)
    ensures
        pure == is_barrel_program(program@),
{
    let mut has_reexports = false;
    let mut i: usize = 0;
    while i < program.len()
        invariant
            i <= program@.len(),
            forall|k: int| 0 <= k < i ==> passes_on(#[trigger] program@[k]),
            has_reexports == exists|k: int| 0 <= k < i && reexports(#[trigger] program@[k]),
        decreases program@.len() - i,
    {
        let passes = match &program[i] {
            Stmt::Import { .. } => true,
            Stmt::ExportNamed { source, declaration, .. } => {
                match source {
                    Some(_) => true,
                    None => declaration.is_none(),
                }
            },
            Stmt::ExportAll { .. } => true,
            Stmt::ExportDefault { identifier } => *identifier,
            Stmt::TsExportAssignment => true,
            Stmt::TsNamespaceExport => true,
            _ => false,
        };
        if !passes {
            return false;
        }
        let again = match &program[i] {
            Stmt::ExportNamed { source, .. } => source.is_some(),
            Stmt::ExportAll { .. } => true,
            _ => false,
        };
        proof {
            if again {
                assert(reexports(program@[i as int]));
            }
            if has_reexports {
                let k = choose|k: int| 0 <= k < i && reexports(#[trigger] program@[k]);
                assert(0 <= k < i + 1);
            }
            if !has_reexports && !again {
                assert forall|k: int| 0 <= k < i + 1 implies !reexports(#[trigger] program@[k]) by {}
            }
        }
        has_reexports = has_reexports || again;
        i += 1;
    }
    has_reexports
}

/// The extensions that are tried for the modules that a barrel names.
pub open spec fn barrel_extensions() -> Seq<Seq<char>> {
    seq![".ts"@, ".tsx"@, ".js"@, ".jsx"@]
}

/// The file that a barrel in the directory `dir` means by `import`: a
/// specifier that does not begin with `.` stands as it is; any other is
/// taken relative to `dir`, with an extension or as a directory with an
/// index file where that is listed, and in canonical form.
pub open spec fn barrel_target(tree: &FileTree, dir: Seq<char>, import: Seq<char>) -> Seq<char> {
    if !(import.len() > 0 && import[0] == '.') {
        import
    } else {
        let base = normalized(joined_path(dir, import));
        match first_listed(tree, extension_candidates(base, barrel_extensions())) {
            Some(found) => tree.canonical_or_same(found),
            None => tree.canonical_or_same(base),
        }
    }
}

/// Computes [`barrel_target`].
pub fn resolve_path(from_dir: &str, import_path: &str, tree: &FileTree) -> (target: String)
    requires
        tree.wf(),
    ensures
        target@ == barrel_target(tree, from_dir@, import_path@),
{
    let import = to_chars(import_path);
    if !(import.len() > 0 && import[0] == '.') {
        return String::from_str(import_path);
    }
    let base = crate::path::normalize(crate::path::join(from_dir, import_path).as_str());
    let probe = crate::resolver::PathResolver::new(String::new());
    let found = match probe.first_candidate(base.as_str(), tree) {
        Some(found) => found,
        None => base,
    };
    match tree.canonicalize(found.as_str()) {
        Some(canonical) => canonical,
        None => found,
    }
}

/// The table with the names of an export list that names `target` as
/// their module.
pub open spec fn with_specifiers(
    table: Seq<ExportView>,
    specifiers: Seq<ExportSpecifier>,
    target: Seq<char>,
) -> Seq<ExportView>
    decreases specifiers.len(),
{
    if specifiers.len() == 0 {
        table
    } else {
        let last = specifiers.last();
        with_export(
            with_specifiers(table, specifiers.drop_last(), target),
            ExportView {
                name: last.exported@,
                path: target,
                original: if last.local@ != last.exported@ {
                    Some(last.local@)
                } else {
                    None
                },
            },
        )
    }
}

/// The table with `names` as exports of the file `path` itself.
pub open spec fn with_own_names(table: Seq<ExportView>, names: Seq<Seq<char>>, path: Seq<char>) -> Seq<
    ExportView,
>
    decreases names.len(),
{
    if names.len() == 0 {
        table
    } else {
        with_export(
            with_own_names(table, names.drop_last(), path),
            ExportView { name: names.last(), path, original: None },
        )
    }
}

/// How many of the first `count` statements export everything of a module.
pub open spec fn export_alls_before(program: Seq<Stmt>, count: int) -> nat
    decreases count,
{
    if count <= 0 {
        0
    } else {
        export_alls_before(program, count - 1) + if program[count - 1] is ExportAll {
            1nat
        } else {
            0nat
        }
    }
}

/// The table at position `at` of `nested`, and an empty one where there is none.
pub open spec fn nested_at(nested: Seq<Seq<ExportView>>, at: int) -> Seq<ExportView> {
    if 0 <= at < nested.len() {
        nested[at]
    } else {
        Seq::empty()
    }
}

/// What one statement of the module `path` adds to a table. `everything`
/// holds what the module exports that an `export *` names.
pub open spec fn with_statement(
    table: Seq<ExportView>,
    statement: Stmt,
    path: Seq<char>,
    tree: &FileTree,
    everything: Seq<ExportView>,
) -> Seq<ExportView> {
    match statement {
        Stmt::ExportNamed { source: Some(source), specifiers, .. } => with_specifiers(
            table,
            specifiers@,
            barrel_target(tree, parent_of(path), source@),
        ),
        Stmt::ExportNamed { source: None, declaration: Some(declaration), .. } => with_own_names(
            table,
            declared_names(declaration),
            path,
        ),
        Stmt::ExportAll { .. } => with_exports(table, everything),
        Stmt::ExportDefault { .. } => with_export(
            table,
            ExportView { name: "default"@, path, original: None },
        ),
        _ => table,
    }
}

/// The exports of the first `count` statements of the module `path`. The
/// tables of `nested` stand, in their order, for the modules that the
/// statements of the form `export *` name.
pub open spec fn exports_before(
    program: Seq<Stmt>,
    count: int,
    path: Seq<char>,
    tree: &FileTree,
    nested: Seq<Seq<ExportView>>,
) -> Seq<ExportView>
    decreases count,
{
    if count <= 0 {
        Seq::empty()
    } else {
        with_statement(
            exports_before(program, count - 1, path, tree, nested),
            program[count - 1],
            path,
            tree,
            nested_at(nested, export_alls_before(program, count - 1) as int),
        )
    }
}

/// The views of a list of tables.
pub open spec fn table_views(tables: Seq<ExportTable>) -> Seq<Seq<ExportView>> {
    tables.map_values(|t: ExportTable| t@)
}

/// The modules that those of the first `count` statements name that
/// have the form `export *`, in their order; the statements stand in the
/// module `path`.
pub open spec fn export_all_targets_before(
    program: Seq<Stmt>,
    count: int,
    path: Seq<char>,
    tree: &FileTree,
) -> Seq<Seq<char>>
    decreases count,
{
    if count <= 0 {
        Seq::empty()
    } else {
        let earlier = export_all_targets_before(program, count - 1, path, tree);
        match program[count - 1] {
            Stmt::ExportAll { source } => earlier.push(
                barrel_target(tree, parent_of(path), source@),
            ),
            _ => earlier,
        }
    }
}

/// The modules that the statements of the form `export *` of the module
/// `path` name, in their order.
pub fn export_all_targets(program: &Vec<Stmt>, path: &str, tree: &FileTree) -> (targets: Vec<String>)
    requires
        tree.wf(),
    ensures
        targets.deep_view() == export_all_targets_before(
            program@,
            program@.len() as int,
            path@,
            tree,
        ),
        targets@.len() == export_alls_before(program@, program@.len() as int),
{
    let dir = crate::path::parent(path);
    let mut targets: Vec<String> = Vec::new();
    assert(targets.deep_view() =~= Seq::<Seq<char>>::empty());
    let mut i: usize = 0;
    while i < program.len()
        invariant
            tree.wf(),
            i <= program@.len(),
            dir@ == parent_of(path@),
            targets@.len() == export_alls_before(program@, i as int),
            targets.deep_view() == export_all_targets_before(program@, i as int, path@, tree),
        decreases program@.len() - i,
    {
        let ghost before = targets.deep_view();
        match &program[i] {
            Stmt::ExportAll { source } => {
                targets.push(resolve_path(dir.as_str(), source.as_str(), tree));
                assert(targets.deep_view() =~= before.push(
                    barrel_target(tree, parent_of(path@), source@),
                ));
            },
            _ => {},
        }
        i += 1;
    }
    targets
}

/// The exports of the module `path` with the program `program`, where
/// the tables of `nested` hold what the modules export that its
/// statements of the form `export *` name.
pub fn collect_exports(program: &Vec<Stmt>, path: &str, tree: &FileTree, nested: &Vec<ExportTable>) -> (table:
    ExportTable)
    requires
        tree.wf(),
    ensures
        table@ == exports_before(
            program@,
            program@.len() as int,
            path@,
            tree,
            table_views(nested@),
        ),
{
    let dir = crate::path::parent(path);
    let ghost tables = table_views(nested@);
    let mut table = ExportTable::new();
    let mut seen: usize = 0;
    let mut i: usize = 0;
    while i < program.len()
        invariant
            tree.wf(),
            i <= program@.len(),
            dir@ == parent_of(path@),
            tables == table_views(nested@),
            seen == export_alls_before(program@, i as int),
            seen <= i,
            table@ == exports_before(program@, i as int, path@, tree, tables),
        decreases program@.len() - i,
    {
        let ghost before = table@;
        match &program[i] {
            Stmt::ExportNamed { source, specifiers, declaration } => {
                match source {
                    Some(source) => {
                        let target = resolve_path(dir.as_str(), source.as_str(), tree);
                        let mut k: usize = 0;
                        while k < specifiers.len()
                            invariant
                                k <= specifiers@.len(),
                                table@ == with_specifiers(
                                    before,
                                    specifiers@.take(k as int),
                                    target@,
                                ),
                            decreases specifiers@.len() - k,
                        {
                            proof {
                                assert(specifiers@.take(k + 1).drop_last() =~= specifiers@.take(
                                    k as int,
                                ));
                                assert(specifiers@.take(k + 1).last() == specifiers@[k as int]);
                            }
                            let specifier = &specifiers[k];
                            let original_name = if specifier.local != specifier.exported {
                                Some(specifier.local.clone())
                            } else {
                                None
                            };
                            table.insert(
                                specifier.exported.clone(),
                                ExportSource { source_path: target.clone(), original_name },
                            );
                            k += 1;
                        }
                        assert(specifiers@.take(k as int) =~= specifiers@);
                    },
                    None => {
                        match declaration {
                            Some(declaration) => {
                                let names = get_declaration_names(declaration);
                                let ghost all = names.deep_view();
                                let mut k: usize = 0;
                                while k < names.len()
                                    invariant
                                        k <= names@.len(),
                                        all == names.deep_view(),
                                        table@ == with_own_names(before, all.take(k as int), path@),
                                    decreases names@.len() - k,
                                {
                                    proof {
                                        assert(all.take(k + 1).drop_last() =~= all.take(k as int));
                                        assert(all.take(k + 1).last() == names@[k as int]@);
                                    }
                                    table.insert(
                                        names[k].clone(),
                                        ExportSource {
                                            source_path: String::from_str(path),
                                            original_name: None,
                                        },
                                    );
                                    k += 1;
                                }
                                assert(all.take(k as int) =~= all);
                            },
                            None => {},
                        }
                    },
                }
            },
            Stmt::ExportAll { .. } => {
                if seen < nested.len() {
                    assert(tables[seen as int] == nested@[seen as int]@);
                    table.extend(&nested[seen]);
                }
                seen += 1;
            },
            Stmt::ExportDefault { .. } => {
                table.insert(
                    String::from_str("default"),
                    ExportSource { source_path: String::from_str(path), original_name: None },
                );
            },
            _ => {},
        }
        i += 1;
    }
    table
}

/// What is known of the files that were looked at: the exports of those
/// that are barrels, and which ones are none.
pub struct BarrelCache {
    exports: StringHashMap<ExportTable>,
    non_barrels: StringHashMap<bool>,
}

impl BarrelCache {
    /// The barrels, each with its exports.
    pub closed spec fn barrels(&self) -> Map<Seq<char>, ExportTable> {
        self.exports@
    }

    /// The files that are known to be no barrels.
    pub closed spec fn others(&self) -> Set<Seq<char>> {
        self.non_barrels@.dom()
    }

    /// A cache that knows nothing.
    pub fn new() -> (cache: Self)
        ensures
            cache.barrels() == Map::<Seq<char>, ExportTable>::empty(),
            cache.others() == Set::<Seq<char>>::empty(),
    {
        let cache = BarrelCache { exports: StringHashMap::new(), non_barrels: StringHashMap::new() };
        assert(cache.others() =~= Set::<Seq<char>>::empty());
        cache
    }

    /// The exports of the barrel `barrel_path`.
    pub fn get(&self, barrel_path: &str) -> (found: Option<&ExportTable>)
        ensures
            match found {
                Some(table) => self.barrels().contains_key(barrel_path@) && *table
                    == self.barrels()[barrel_path@],
                None => !self.barrels().contains_key(barrel_path@),
            },
    {
        self.exports.get(barrel_path)
    }

    /// Records the exports of the barrel `barrel_path`.
    pub fn insert(&mut self, barrel_path: String, exports: ExportTable)
        ensures
            final(self).barrels() == old(self).barrels().insert(barrel_path@, exports),
            final(self).others() == old(self).others(),
    {
        self.exports.insert(barrel_path, exports);
    }

    /// Whether `path` is known to be no barrel.
    pub fn is_known_non_barrel(&self, path: &str) -> (known: bool)
        ensures
            known == self.others().contains(path@),
    {
        self.non_barrels.contains_key(path)
    }

    /// Records that `path` is no barrel.
    pub fn mark_non_barrel(&mut self, path: String)
        ensures
            final(self).others() == old(self).others().insert(path@),
            final(self).barrels() == old(self).barrels(),
    {
        self.non_barrels.insert(path, true);
        assert(self.others() =~= old(self).others().insert(path@));
    }

    /// Whether `path` is recorded as a barrel.
    pub fn is_barrel(&self, path: &str) -> (known: bool)
        ensures
            known == self.barrels().contains_key(path@),
    {
        self.exports.contains_key(path)
    }
}

/// The name of an index module.
pub open spec fn is_index_name(name: Seq<char>) -> bool {
    name == "index.ts"@ || name == "index.tsx"@ || name == "index.js"@ || name == "index.jsx"@
}

/// The file that `path` ends in is an index module.
pub open spec fn has_index_name(path: Seq<char>) -> bool {
    match crate::path::file_name_of(path) {
        Some(name) => is_index_name(name),
        None => false,
    }
}

/// A directory of this name is looked into: it is not hidden and not
/// called `node_modules`.
pub open spec fn is_entered(name: Seq<char>) -> bool {
    name != "node_modules"@ && !(name.len() > 0 && name[0] == '.')
}

/// `path` lies below `dir`, and every directory on the way from `dir` to
/// it is looked into.
pub open spec fn visible_below(path: Seq<char>, dir: Seq<char>) -> bool {
    let prefix = crate::resolver::as_directory(dir);
    has_prefix(path, prefix) && {
        let segments = split_on(path.skip(prefix.len() as int), '/');
        forall|i: int| 0 <= i < segments.len() - 1 ==> is_entered(#[trigger] segments[i])
    }
}

/// The exports of the module `path`: what its own statements export,
/// and what the modules export that it names with `export *`, as long
/// as they are followed. A module is not followed while it is being
/// looked at, which `visiting` records, and no deeper than `depth`
/// modules; a module that is not followed or has no program counts as
/// exporting nothing.
pub open spec fn exports_in(
    programs: &Programs,
    tree: &FileTree,
    path: Seq<char>,
    depth: nat,
    visiting: Seq<Seq<char>>,
) -> Seq<ExportView>
    decreases depth, 1nat, 0nat,
{
    let home = tree.canonical_or_same(path);
    match programs.program(home) {
        None => Seq::empty(),
        Some(program) => {
            let targets = export_all_targets_before(program, program.len() as int, home, tree);
            exports_before(
                program,
                program.len() as int,
                home,
                tree,
                nested_in(programs, tree, targets, targets.len(), depth, visiting.push(home)),
            )
        },
    }
}

/// What the first `count` of the modules `targets` export, each in turn.
pub open spec fn nested_in(
    programs: &Programs,
    tree: &FileTree,
    targets: Seq<Seq<char>>,
    count: nat,
    depth: nat,
    visiting: Seq<Seq<char>>,
) -> Seq<Seq<ExportView>>
    decreases depth, 0nat, count,
{
    if count == 0 {
        Seq::empty()
    } else {
        let target = targets[count - 1];
        nested_in(programs, tree, targets, (count - 1) as nat, depth, visiting).push(
            if depth > 0 && !visiting.contains(target) {
                exports_in(programs, tree, target, (depth - 1) as nat, visiting)
            } else {
                Seq::empty()
            },
        )
    }
}

/// The exports of the module `path`, followed through `export *` as deep
/// as `tree` has files.
pub open spec fn exports_of(programs: &Programs, tree: &FileTree, path: Seq<char>) -> Seq<
    ExportView,
> {
    exports_in(programs, tree, path, tree.count(), Seq::empty())
}

/// The file `path` is a barrel file: an index module with the program of
/// a barrel.
pub open spec fn is_barrel_at(programs: &Programs, path: Seq<char>) -> bool {
    has_index_name(path) && match programs.program(path) {
        Some(program) => is_barrel_program(program),
        None => false,
    }
}

/// The file `path` counts as a barrel: it is a barrel file with at least
/// one export.
pub open spec fn counts_as_barrel(programs: &Programs, tree: &FileTree, path: Seq<char>) -> bool {
    is_barrel_at(programs, path) && exports_of(programs, tree, path).len() > 0
}

/// `after` is `before` with the exports `exports` recorded for `path`.
pub open spec fn records(
    before: &BarrelCache,
    after: &BarrelCache,
    path: Seq<char>,
    exports: Seq<ExportView>,
) -> bool {
    &&& after.others() == before.others()
    &&& after.barrels().dom() == before.barrels().dom().insert(path)
    &&& after.barrels()[path]@ == exports
    &&& forall|other: Seq<char>|
        other != path && before.barrels().contains_key(other) ==> #[trigger] after.barrels()[other]
            == before.barrels()[other]
}

/// The barrel files among `paths` that lie below `dir`, in their order.
pub open spec fn barrels_among(
    paths: Seq<Seq<char>>,
    dir: Seq<char>,
    programs: &Programs,
    tree: &FileTree,
) -> Seq<Seq<char>>
    decreases paths.len(),
{
    if paths.len() == 0 {
        Seq::empty()
    } else {
        let earlier = barrels_among(paths.drop_last(), dir, programs, tree);
        if visible_below(paths.last(), dir) && tree.has_file(paths.last()) && is_barrel_at(
            programs,
            paths.last(),
        ) {
            earlier.push(paths.last())
        } else {
            earlier
        }
    }
}

/// Finds barrels and says what they export.
pub struct BarrelAnalyzer {
    pub root: String,
    pub cache: BarrelCache,
}

impl BarrelAnalyzer {
    /// An analyzer for the project at `root` that has looked at nothing yet.
    pub fn new(root: String) -> (analyzer: Self)
        ensures
            analyzer.root@ == root@,
            analyzer.cache.barrels() == Map::<Seq<char>, ExportTable>::empty(),
            analyzer.cache.others() == Set::<Seq<char>>::empty(),
    {
        BarrelAnalyzer { root, cache: BarrelCache::new() }
    }

    /// Whether the file `path` is a barrel file: an index module whose
    /// program is that of a barrel.
    pub fn is_barrel_file(&self, path: &str, programs: &Programs) -> (barrel: bool)
        ensures
            barrel == is_barrel_at(programs, path@),
    {
        let name = match crate::path::file_name_chars(&to_chars(path)) {
            Some(name) => name,
            None => {
                return false;
            },
        };
        if !(same_chars(&name, &to_chars("index.ts")) || same_chars(&name, &to_chars("index.tsx"))
            || same_chars(&name, &to_chars("index.js")) || same_chars(
            &name,
            &to_chars("index.jsx"),
        )) {
            return false;
        }
        match programs.get(path) {
            Some(program) => is_pure_barrel(program),
            None => false,
        }
    }

    /// The exports of the module `path`: what its own statements export,
    /// and what the modules export that it names with `export *`, as long
    /// as they are followed. A module is not followed into itself, and no
    /// deeper than `depth` modules; a module that is not followed or has
    /// no program counts as exporting nothing.
    pub fn analyze_barrel_uncached(
        &self,
        path: &str,
        programs: &Programs,
        tree: &FileTree,
        depth: usize,
        visiting: &mut Vec<String>,
    ) -> (table: ExportTable)
        requires
            tree.wf(),
        ensures
            final(visiting).deep_view() == old(visiting).deep_view(),
            table@ == exports_in(programs, tree, path@, depth as nat, old(visiting).deep_view()),
        decreases depth,
    {
        let home = match tree.canonicalize(path) {
            Some(canonical) => canonical,
            None => String::from_str(path),
        };
        let program = match programs.get(home.as_str()) {
            Some(program) => program,
            None => {
                return ExportTable::new();
            },
        };
        let targets = export_all_targets(program, home.as_str(), tree);
        let mut nested: Vec<ExportTable> = Vec::new();
        let ghost outside = visiting.deep_view();
        let ghost inside = outside.push(home@);
        let ghost all = targets.deep_view();
        visiting.push(home.clone());
        assert(visiting.deep_view() =~= inside);
        assert(table_views(nested@) =~= nested_in(programs, tree, all, 0, depth as nat, inside));
        let mut i: usize = 0;
        while i < targets.len()
            invariant
                tree.wf(),
                i <= targets@.len(),
                all == targets.deep_view(),
                visiting.deep_view() == inside,
                nested@.len() == i,
                table_views(nested@) == nested_in(
                    programs,
                    tree,
                    all,
                    i as nat,
                    depth as nat,
                    inside,
                ),
            decreases targets@.len() - i,
        {
            let ghost before = table_views(nested@);
            assert(all[i as int] == targets@[i as int]@);
            let followed = depth > 0 && !Self::is_visiting(visiting, targets[i].as_str());
            if followed {
                nested.push(
                    self.analyze_barrel_uncached(
                        targets[i].as_str(),
                        programs,
                        tree,
                        depth - 1,
                        visiting,
                    ),
                );
            } else {
                nested.push(ExportTable::new());
            }
            assert(table_views(nested@) =~= before.push(nested@[i as int]@));
            i += 1;
        }
        let ghost full = visiting@;
        visiting.pop();
        assert(visiting.deep_view() =~= outside) by {
            assert(visiting@ == full.drop_last());
            assert(full.len() == inside.len());
            assert forall|k: int| 0 <= k < outside.len() implies visiting.deep_view()[k]
                == outside[k] by {
                assert(visiting@[k] == full[k]);
                assert(inside[k] == full[k]@);
            }
        }
        collect_exports(program, home.as_str(), tree, &nested)
    }

    fn is_visiting(visiting: &Vec<String>, path: &str) -> (found: bool)
        ensures
            found == visiting.deep_view().contains(path@),
    {
        let ghost all = visiting.deep_view();
        let mut i: usize = 0;
        while i < visiting.len()
            invariant
                i <= visiting@.len(),
                all == visiting.deep_view(),
                forall|k: int| 0 <= k < i ==> all[k] != path@,
            decreases visiting@.len() - i,
        {
            assert(all[i as int] == visiting@[i as int]@);
            if same_chars(&to_chars(visiting[i].as_str()), &to_chars(path)) {
                return true;
            }
            i += 1;
        }
        false
    }

    /// The exports of the module `path`, followed through `export *` as
    /// deep as there are files.
    fn analyze_fresh(&self, path: &str, programs: &Programs, tree: &FileTree) -> (table:
        ExportTable)
        requires
            tree.wf(),
        ensures
            table@ == exports_of(programs, tree, path@),
    {
        let mut visiting: Vec<String> = Vec::new();
        assert(visiting.deep_view() =~= Seq::<Seq<char>>::empty());
        self.analyze_barrel_uncached(path, programs, tree, tree.len(), &mut visiting)
    }

    /// Whether `resolved_path` is a barrel, from the cache where it knows,
    /// else by looking; what is found is recorded. A file counts as a
    /// barrel where it is a barrel file with at least one export.
    pub fn check_and_cache_barrel(&mut self, resolved_path: &str, programs: &Programs, tree: &FileTree) -> (barrel:
        bool)
        requires
            tree.wf(),
        ensures
            final(self).root == old(self).root,
            ({
                let path = tree.canonical_or_same(resolved_path@);
                if old(self).cache.barrels().contains_key(path) {
                    barrel && final(self).cache == old(self).cache
                } else if old(self).cache.others().contains(path) {
                    !barrel && final(self).cache == old(self).cache
                } else if counts_as_barrel(programs, tree, path) {
                    barrel && records(
                        &old(self).cache,
                        &final(self).cache,
                        path,
                        exports_of(programs, tree, path),
                    )
                } else {
                    !barrel && final(self).cache.others() == old(self).cache.others().insert(path)
                        && final(self).cache.barrels() == old(self).cache.barrels()
                }
            }),
    {
        let canonical = match tree.canonicalize(resolved_path) {
            Some(canonical) => canonical,
            None => String::from_str(resolved_path),
        };
        if self.cache.is_barrel(canonical.as_str()) {
            return true;
        }
        if self.cache.is_known_non_barrel(canonical.as_str()) {
            return false;
        }
        if self.is_barrel_file(canonical.as_str(), programs) {
            let exports = self.analyze_fresh(canonical.as_str(), programs, tree);
            if !exports.is_empty() {
                self.cache.insert(canonical, exports);
                assert(self.cache.barrels().dom() =~= old(self).cache.barrels().dom().insert(
                    tree.canonical_or_same(resolved_path@),
                ));
                return true;
            }
        }
        self.cache.mark_non_barrel(canonical);
        false
    }

    /// The exports of the barrel `barrel_path` as the cache holds them.
    pub fn get_cached_exports(&self, barrel_path: &str, tree: &FileTree) -> (found: Option<
        &ExportTable,
    >)
        requires
            tree.wf(),
        ensures
            match found {
                Some(table) => self.cache.barrels().contains_key(
                    tree.canonical_or_same(barrel_path@),
                ) && *table == self.cache.barrels()[tree.canonical_or_same(barrel_path@)],
                None => !self.cache.barrels().contains_key(tree.canonical_or_same(barrel_path@)),
            },
    {
        match tree.canonicalize(barrel_path) {
            Some(canonical) => self.cache.get(canonical.as_str()),
            None => self.cache.get(barrel_path),
        }
    }

    /// The exports of the module `barrel_path`, from the cache where it
    /// holds them, else by looking; exports that are found are recorded.
    pub fn analyze_barrel(&mut self, barrel_path: &str, programs: &Programs, tree: &FileTree) -> (table:
        ExportTable)
        requires
            tree.wf(),
        ensures
            final(self).root == old(self).root,
            ({
                let path = tree.canonical_or_same(barrel_path@);
                if old(self).cache.barrels().contains_key(path) {
                    table@ == old(self).cache.barrels()[path]@ && final(self).cache == old(self).cache
                } else {
                    table@ == exports_of(programs, tree, path) && if table@.len() > 0 {
                        records(&old(self).cache, &final(self).cache, path, table@)
                    } else {
                        final(self).cache == old(self).cache
                    }
                }
            }),
    {
        let canonical = match tree.canonicalize(barrel_path) {
            Some(canonical) => canonical,
            None => String::from_str(barrel_path),
        };
        match self.cache.get(canonical.as_str()) {
            Some(cached) => {
                return cached.clone();
            },
            None => {},
        }
        let exports = self.analyze_fresh(canonical.as_str(), programs, tree);
        if !exports.is_empty() {
            self.cache.insert(canonical, exports.clone());
            assert(self.cache.barrels().dom() =~= old(self).cache.barrels().dom().insert(
                tree.canonical_or_same(barrel_path@),
            ));
        }
        exports
    }

    /// The origin of each of `names` that `table` exports, in the order
    /// of the names.
    pub fn origins(table: &ExportTable, names: &Vec<String>) -> (found: Vec<(String, String)>)
        ensures
            found.deep_view() == origins_of(table@, names.deep_view()),
    {
        let ghost all = names.deep_view();
        let mut found: Vec<(String, String)> = Vec::new();
        assert(found.deep_view() =~= origins_of(table@, all.take(0)));
        let mut i: usize = 0;
        while i < names.len()
            invariant
                i <= names@.len(),
                all == names.deep_view(),
                found.deep_view() == origins_of(table@, all.take(i as int)),
            decreases names@.len() - i,
        {
            proof {
                assert(all.take(i + 1).drop_last() =~= all.take(i as int));
                assert(all.take(i + 1).last() == names@[i as int]@);
            }
            let ghost before = found.deep_view();
            let ghost name = names@[i as int]@;
            let ghost at = export_position(table@, name, 0);
            let ghost next = all.take(i + 1);
            match table.get(names[i].as_str()) {
                Some(source) => {
                    found.push((names[i].clone(), source.source_path.clone()));
                    assert(found.deep_view() =~= before.push((name, source.source_path@)));
                    proof {
                        lemma_export_position(table@, name, 0);
                    }
                    assert(0 <= at < table@.len() && table@[at].path == source.source_path@);
                    assert(origins_of(table@, next) == origins_of(table@, next.drop_last()).push(
                        (next.last(), table@[at].path),
                    ));
                },
                None => {
                    assert(at >= table@.len());
                    assert(origins_of(table@, next) == origins_of(table@, next.drop_last()));
                },
            }
            i += 1;
        }
        assert(all.take(i as int) =~= all);
        found
    }

    /// Where the names `imported_names` that are imported from the barrel
    /// `barrel_path` come from: each name that the barrel exports, with the
    /// file of its origin. The exports are taken from the cache where it
    /// holds them, else by looking.
    pub fn resolve_barrel_imports(
        &mut self,
        barrel_path: &str,
        imported_names: &Vec<String>,
        programs: &Programs,
        tree: &FileTree,
    ) -> (found: Vec<(String, String)>)
        requires
            tree.wf(),
        ensures
            final(self).root == old(self).root,
            ({
                let path = tree.canonical_or_same(barrel_path@);
                found.deep_view() == origins_of(
                    if old(self).cache.barrels().contains_key(path) {
                        old(self).cache.barrels()[path]@
                    } else {
                        exports_of(programs, tree, path)
                    },
                    imported_names.deep_view(),
                )
            }),
    {
        let table = self.analyze_barrel(barrel_path, programs, tree);
        Self::origins(&table, imported_names)
    }

    /// Whether every directory on the way from `dir` to `path` is looked into.
    fn is_visible(path: &str, dir: &str) -> (visible: bool)
        ensures
            visible == visible_below(path@, dir@),
    {
        let whole = to_chars(path);
        let mut prefix = to_chars(dir);
        if !(prefix.len() > 0 && prefix[prefix.len() - 1] == '/') {
            prefix.push('/');
        }
        assert(prefix@ =~= crate::resolver::as_directory(dir@));
        if !starts_with(&whole, &prefix) {
            return false;
        }
        let rest = crate::text::slice(&whole, prefix.len(), whole.len());
        assert(rest@ =~= path@.skip(prefix@.len() as int));
        let segments = crate::text::split(&rest, '/');
        let ghost all = crate::text::views(segments@);
        let modules = to_chars("node_modules");
        proof {
            crate::text::lemma_split_nonempty(rest@, '/');
        }
        let last = segments.len() - 1;
        let mut i: usize = 0;
        while i < last
            invariant
                i <= last,
                last == segments@.len() - 1,
                all == crate::text::views(segments@),
                all == split_on(rest@, '/'),
                has_prefix(path@, prefix@),
                prefix@ == crate::resolver::as_directory(dir@),
                rest@ == path@.skip(prefix@.len() as int),
                modules@ == "node_modules"@,
                forall|k: int| 0 <= k < i ==> is_entered(#[trigger] all[k]),
            decreases last - i,
        {
            let name = &segments[i];
            assert(all[i as int] == name@);
            if same_chars(name, &modules) || (name.len() > 0 && name[0] == '.') {
                assert(!is_entered(all[i as int]));
                return false;
            }
            i += 1;
        }
        true
    }

    /// The barrel files below the directory `dir`, in the order in which
    /// `tree` lists them; what lies in a hidden directory or in
    /// `node_modules` is passed over.
    pub fn find_barrels(&self, dir: &str, programs: &Programs, tree: &FileTree) -> (barrels: Vec<
        String,
    >)
        requires
            tree.wf(),
        ensures
            barrels.deep_view() == barrels_among(tree.listed(), dir@, programs, tree),
    {
        let paths = tree.paths();
        let ghost all = paths.deep_view();
        let mut barrels: Vec<String> = Vec::new();
        assert(barrels.deep_view() =~= barrels_among(all.take(0), dir@, programs, tree));
        let mut i: usize = 0;
        while i < paths.len()
            invariant
                tree.wf(),
                i <= paths@.len(),
                all == paths.deep_view(),
                barrels.deep_view() == barrels_among(all.take(i as int), dir@, programs, tree),
            decreases paths@.len() - i,
        {
            proof {
                assert(all.take(i + 1).drop_last() =~= all.take(i as int));
                assert(all.take(i + 1).last() == paths@[i as int]@);
            }
            let ghost before = barrels.deep_view();
            if Self::is_visible(paths[i].as_str(), dir) && tree.is_file(paths[i].as_str())
                && self.is_barrel_file(paths[i].as_str(), programs) {
                barrels.push(paths[i].clone());
                assert(barrels.deep_view() =~= before.push(paths@[i as int]@));
            }
            i += 1;
        }
        assert(all.take(i as int) =~= all);
        barrels
    }
}

/// The origin of each of `names` that `table` exports, as pairs (name,
/// file), in the order of the names.
pub open spec fn origins_of(table: Seq<ExportView>, names: Seq<Seq<char>>) -> Seq<
    (Seq<char>, Seq<char>),
>
    decreases names.len(),
{
    if names.len() == 0 {
        Seq::empty()
    } else {
        let at = export_position(table, names.last(), 0);
        if 0 <= at < table.len() {
            origins_of(table, names.drop_last()).push((names.last(), table[at].path))
        } else {
            origins_of(table, names.drop_last())
        }
    }
}

} // verus!
