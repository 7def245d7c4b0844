//! Module resolution: from an importing file and a module specifier to the
//! file that the specifier names.
//!
//! The resolver never touches the disk. Whether a path exists is asked of a
//! [`FileTree`], a snapshot that the caller has taken.

use crate::fs::FileTree;
use crate::json;
use crate::json::{json_keys_at, json_text_at, json_texts_at};
use crate::path::{
    join_chars, joined_path, normalize_chars, normalized, parent_chars, parent_of,
};
use crate::text::{from_chars, has_prefix, next_index_of, slice, starts_with, to_chars};
use vstd::prelude::*;
use vstd::string::StringExecFns;

verus! {

/// Why a specifier was not resolved.
#[derive(Debug)]
pub enum ResolveError {
    /// Nothing was found; the text says what was looked for.
    NotFound(String),
    /// The project configuration could not be read.
    ConfigError(String),
}

impl ResolveError {
    /// The message of the error.
    pub open spec fn message(&self) -> Seq<char> {
        match self {
            ResolveError::NotFound(m) => "Could not resolve import: "@ + m@,
            ResolveError::ConfigError(m) => "Failed to read tsconfig: "@ + m@,
        }
    }

    /// The message of the error, as text.
    pub fn to_string(&self) -> (text: String)
        ensures
            text@ == self.message(),
    {
        match self {
            ResolveError::NotFound(m) => String::from_str("Could not resolve import: ").concat(
                m.as_str(),
            ),
            ResolveError::ConfigError(m) => String::from_str("Failed to read tsconfig: ").concat(
                m.as_str(),
            ),
        }
    }
}

/// The error says that `text` was not found.
pub open spec fn is_not_found(error: ResolveError, text: Seq<char>) -> bool {
    match error {
        ResolveError::NotFound(m) => m@ == text,
        _ => false,
    }
}

/// What the project configuration says about resolution.
#[derive(Debug)]
pub struct ResolverConfig {
    /// The directory that alias targets are relative to.
    pub base_url: Option<String>,
    /// The path aliases: each pattern with its targets.
    pub paths: Vec<(String, Vec<String>)>,
    /// The extensions that are tried, each with its dot, in this order.
    pub extensions: Vec<String>,
}

impl Default for ResolverConfig {
    fn default() -> (config: Self)
        ensures
            config.base_url is None,
            config.paths@.len() == 0,
            config.extensions@.len() == 0,
    {
        ResolverConfig { base_url: None, paths: Vec::new(), extensions: Vec::new() }
    }
}

/// Resolves specifiers for one project.
pub struct PathResolver {
    pub config: ResolverConfig,
    /// The root directory of the project.
    pub root: String,
}

/// The first of `candidates` that `tree` lists.
pub open spec fn first_listed(tree: &FileTree, candidates: Seq<Seq<char>>) -> Option<Seq<char>>
    decreases candidates.len(),
{
    if candidates.len() == 0 {
        None
    } else if tree.has(candidates[0]) {
        Some(candidates[0])
    } else {
        first_listed(tree, candidates.drop_first())
    }
}

/// `base` with an extension behind it.
pub open spec fn appended_to(base: Seq<char>) -> spec_fn(Seq<char>) -> Seq<char> {
    |extension: Seq<char>| base + extension
}

/// The index file of the directory `base` with an extension.
pub open spec fn index_below(base: Seq<char>) -> spec_fn(Seq<char>) -> Seq<char> {
    |extension: Seq<char>| joined_path(base, "index"@ + extension)
}

/// The paths that are tried for `base` when it is no file itself: `base`
/// with each extension, then the index file below `base` with each extension.
pub open spec fn extension_candidates(base: Seq<char>, extensions: Seq<Seq<char>>) -> Seq<Seq<char>> {
    extensions.map_values(appended_to(base)) + extensions.map_values(index_below(base))
}

/// What `base` resolves to: itself where it is a file, else the first
/// listed one of its [`extension_candidates`].
pub open spec fn found_with_extensions(
    tree: &FileTree,
    base: Seq<char>,
    extensions: Seq<Seq<char>>,
) -> Option<Seq<char>> {
    if tree.has_file(base) {
        Some(base)
    } else {
        first_listed(tree, extension_candidates(base, extensions))
    }
}

/// `s` without the stars at its end.
pub open spec fn without_trailing_stars(s: Seq<char>) -> Seq<char>
    decreases s.len(),
{
    if s.len() > 0 && s.last() == '*' {
        without_trailing_stars(s.drop_last())
    } else {
        s
    }
}

/// The path that an alias target stands for: the target without its stars,
/// seen from `dir`, with what the specifier has behind the pattern.
pub open spec fn alias_candidate(dir: Seq<char>, target: Seq<char>, suffix: Seq<char>) -> Seq<char> {
    normalized(joined_path(joined_path(dir, without_trailing_stars(target)), suffix))
}

/// What the first target that resolves resolves to.
pub open spec fn found_among_targets(
    tree: &FileTree,
    dir: Seq<char>,
    targets: Seq<Seq<char>>,
    suffix: Seq<char>,
    extensions: Seq<Seq<char>>,
) -> Option<Seq<char>>
    decreases targets.len(),
{
    if targets.len() == 0 {
        None
    } else {
        match found_with_extensions(tree, alias_candidate(dir, targets[0], suffix), extensions) {
            Some(p) => Some(p),
            None => found_among_targets(tree, dir, targets.drop_first(), suffix, extensions),
        }
    }
}

/// What one alias gives for `import`: nothing where the specifier does not
/// begin with the pattern (its stars apart), else what the targets give.
pub open spec fn found_by_one_alias(
    tree: &FileTree,
    dir: Seq<char>,
    alias: (Seq<char>, Seq<Seq<char>>),
    import: Seq<char>,
    extensions: Seq<Seq<char>>,
) -> Option<Seq<char>> {
    let base = without_trailing_stars(alias.0);
    if has_prefix(import, base) {
        found_among_targets(tree, dir, alias.1, import.skip(base.len() as int), extensions)
    } else {
        None
    }
}

/// What the first alias that resolves `import` resolves it to.
pub open spec fn found_by_alias(
    tree: &FileTree,
    dir: Seq<char>,
    aliases: Seq<(Seq<char>, Seq<Seq<char>>)>,
    import: Seq<char>,
    extensions: Seq<Seq<char>>,
) -> Option<Seq<char>>
    decreases aliases.len(),
{
    if aliases.len() == 0 {
        None
    } else {
        match found_by_one_alias(tree, dir, aliases[0], import, extensions) {
            Some(p) => Some(p),
            None => found_by_alias(tree, dir, aliases.drop_first(), import, extensions),
        }
    }
}

/// Where the name of the package ends in a bare specifier: behind the
/// second segment for a scoped name (`@scope/name`), behind the first
/// otherwise.
pub open spec fn package_name_end(import: Seq<char>) -> int {
    let first = next_index_of(import, '/', 0);
    if import.len() > 0 && import[0] == '@' && first < import.len() {
        next_index_of(import, '/', first + 1)
    } else {
        first
    }
}

/// The name of the package that a bare specifier names.
pub open spec fn package_name(import: Seq<char>) -> Seq<char> {
    import.take(package_name_end(import))
}

/// What a bare specifier has behind the name of the package.
pub open spec fn package_subpath(import: Seq<char>) -> Seq<char> {
    if package_name_end(import) < import.len() {
        import.skip(package_name_end(import) + 1)
    } else {
        Seq::empty()
    }
}

/// `p` with a `/` at its end.
pub open spec fn as_directory(p: Seq<char>) -> Seq<char> {
    if p.len() > 0 && p.last() == '/' {
        p
    } else {
        p + seq!['/']
    }
}

/// What `child` is called seen from `parent`, where it is `parent` or lies below it.
pub open spec fn relative_to(child: Seq<char>, parent: Seq<char>) -> Option<Seq<char>> {
    if child == parent {
        Some(Seq::empty())
    } else if has_prefix(child, as_directory(parent)) {
        Some(child.skip(as_directory(parent).len() as int))
    } else {
        None
    }
}

/// `entry` can serve as entry of `package`: it is listed, or resolves.
pub open spec fn usable_entry(
    tree: &FileTree,
    package: Seq<char>,
    entry: Seq<char>,
    extensions: Seq<Seq<char>>,
) -> bool {
    tree.has(joined_path(package, entry)) || found_with_extensions(
        tree,
        joined_path(package, entry),
        extensions,
    ) is Some
}

/// The entry of a package whose manifest names none that can be used:
/// `src/index` where that resolves, else `index`.
pub open spec fn fallback_entry(tree: &FileTree, package: Seq<char>, extensions: Seq<Seq<char>>) -> Seq<
    char,
> {
    let in_src = joined_path(joined_path(package, "src"@), "index"@);
    if found_with_extensions(tree, in_src, extensions) is Some {
        in_src
    } else {
        joined_path(package, "index"@)
    }
}

/// The entry of a package: what the first usable one of `fields` names,
/// else the [`fallback_entry`]. The fields are those of the manifest, in the
/// order in which they count.
pub open spec fn entry_of_fields(
    tree: &FileTree,
    package: Seq<char>,
    fields: Seq<Option<Seq<char>>>,
    extensions: Seq<Seq<char>>,
) -> Seq<char>
    decreases fields.len(),
{
    if fields.len() == 0 {
        fallback_entry(tree, package, extensions)
    } else {
        match fields[0] {
            Some(entry) => if usable_entry(tree, package, entry, extensions) {
                joined_path(package, entry)
            } else {
                entry_of_fields(tree, package, fields.drop_first(), extensions)
            },
            None => entry_of_fields(tree, package, fields.drop_first(), extensions),
        }
    }
}

/// The position of the first alias with the pattern `pattern` at or after
/// `from`, and the number of aliases where there is none.
pub open spec fn alias_position(
    aliases: Seq<(Seq<char>, Seq<Seq<char>>)>,
    pattern: Seq<char>,
    from: int,
) -> int
    decreases aliases.len() - from,
{
    if from >= aliases.len() {
        aliases.len() as int
    } else if from >= 0 && aliases[from].0 == pattern {
        from
    } else {
        alias_position(aliases, pattern, from + 1)
    }
}

/// The aliases with `targets` for `pattern`, in place of what the pattern
/// had before, or at the end where it is new.
pub open spec fn with_alias(
    aliases: Seq<(Seq<char>, Seq<Seq<char>>)>,
    pattern: Seq<char>,
    targets: Seq<Seq<char>>,
) -> Seq<(Seq<char>, Seq<Seq<char>>)> {
    let at = alias_position(aliases, pattern, 0);
    if 0 <= at < aliases.len() {
        aliases.update(at, (pattern, targets))
    } else {
        aliases.push((pattern, targets))
    }
}

/// The aliases with each of `entries` set, one after the other.
pub open spec fn with_aliases(
    aliases: Seq<(Seq<char>, Seq<Seq<char>>)>,
    entries: Seq<(Seq<char>, Seq<Seq<char>>)>,
) -> Seq<(Seq<char>, Seq<Seq<char>>)>
    decreases entries.len(),
{
    if entries.len() == 0 {
        aliases
    } else {
        let before = with_aliases(aliases, entries.drop_last());
        with_alias(before, entries.last().0, entries.last().1)
    }
}

/// The texts among the elements of an array.
pub open spec fn texts_only(items: Seq<Option<Seq<char>>>) -> Seq<Seq<char>>
    decreases items.len(),
{
    if items.len() == 0 {
        Seq::empty()
    } else {
        match items.last() {
            Some(text) => texts_only(items.drop_last()).push(text),
            None => texts_only(items.drop_last()),
        }
    }
}

/// The aliases that the project configuration `text` holds under the
/// member names `keys` of `compilerOptions.paths`: each name whose member
/// is an array, with the texts among its elements.
pub open spec fn aliases_of(text: Seq<char>, keys: Seq<Seq<char>>) -> Seq<
    (Seq<char>, Seq<Seq<char>>),
>
    decreases keys.len(),
{
    if keys.len() == 0 {
        Seq::empty()
    } else {
        let rest = aliases_of(text, keys.drop_last());
        match json_texts_at(text, seq!["compilerOptions"@, "paths"@, keys.last()]) {
            Some(items) => rest.push((keys.last(), texts_only(items))),
            None => rest,
        }
    }
}

/// The resolution settings of the project configuration `text`: the text
/// `compilerOptions.baseUrl`, and the aliases under `compilerOptions.paths`.
/// `None` where the text is no JSON.
pub open spec fn settings_of(text: Seq<char>) -> Option<
    (Option<Seq<char>>, Seq<(Seq<char>, Seq<Seq<char>>)>),
> {
    match json_text_at(text, seq!["compilerOptions"@, "baseUrl"@]) {
        None => None,
        Some(base_url) => Some(
            (
                base_url,
                match json_keys_at(text, seq!["compilerOptions"@, "paths"@]) {
                    Some(keys) => aliases_of(text, keys),
                    None => Seq::empty(),
                },
            ),
        ),
    }
}

/// A text member of a document, and nothing where the document cannot be read.
pub open spec fn text_member(text: Seq<char>, name: Seq<char>) -> Option<Seq<char>> {
    match json_text_at(text, seq![name]) {
        Some(found) => found,
        None => None,
    }
}

/// What the package manifest `text` names as entries: its text members
/// `source`, `main`, `module` and `types`, in this order. `None` where the
/// text is no JSON.
pub open spec fn manifest_reading(text: Seq<char>) -> Option<Seq<Option<Seq<char>>>> {
    if json_text_at(text, seq!["source"@]) is None {
        None
    } else {
        Some(
            seq![
                text_member(text, "source"@),
                text_member(text, "main"@),
                text_member(text, "module"@),
                text_member(text, "types"@),
            ],
        )
    }
}

/// What was read of a project configuration: the base URL, and the
/// aliases in the order of the file.
pub struct ProjectSettings {
    pub base_url: Option<String>,
    pub paths: Vec<(String, Vec<String>)>,
}

/// What was read of a package manifest.
pub enum Manifest {
    /// The text is missing or is no JSON.
    Unreadable,
    /// The text fields `source`, `main`, `module` and `types`, in this order.
    Fields(Vec<Option<String>>),
}

/// The views of the fields of a manifest.
pub open spec fn field_views(fields: Seq<Option<String>>) -> Seq<Option<Seq<char>>> {
    fields.map_values(
        |f: Option<String>|
            match f {
                Some(s) => Some(s@),
                None => None,
            },
    )
}

impl PathResolver {
    /// The extensions that are tried.
    pub open spec fn extensions(&self) -> Seq<Seq<char>> {
        self.config.extensions.deep_view()
    }

    /// The directory that alias targets are relative to: the base URL, and
    /// the root where none is set.
    pub open spec fn alias_dir(&self) -> Seq<char> {
        match self.config.base_url {
            Some(url) => url@,
            None => self.root@,
        }
    }

    /// The directory of the package that `import` names.
    pub open spec fn package_dir(&self, import: Seq<char>) -> Seq<char> {
        joined_path(joined_path(self.root@, "node_modules"@), package_name(import))
    }

    /// The canonical directory of the package that `import` names, where the
    /// package is installed and lies, canonically, within the root.
    pub open spec fn installed_package(&self, tree: &FileTree, import: Seq<char>) -> Option<Seq<char>> {
        match (tree.canonical_of(self.package_dir(import)), tree.canonical_of(self.root@)) {
            (Some(home), Some(root)) => if relative_to(home, root) is Some {
                Some(home)
            } else {
                None
            },
            _ => None,
        }
    }

    /// What is resolved inside an installed package: the subpath, or the
    /// entry of the package. `fields` is what was read of the manifest, where
    /// one had to be read.
    pub open spec fn package_target(
        &self,
        tree: &FileTree,
        import: Seq<char>,
        home: Seq<char>,
        fields: Option<Seq<Option<Seq<char>>>>,
    ) -> Option<Seq<char>> {
        if package_subpath(import).len() > 0 {
            Some(joined_path(home, package_subpath(import)))
        } else if !tree.has(joined_path(home, "package.json"@)) {
            Some(home)
        } else {
            match fields {
                Some(f) => Some(entry_of_fields(tree, home, f, self.extensions())),
                None => None,
            }
        }
    }

    /// The form in which a file found in a package is handed back: below the
    /// root as the project names it, where its canonical form lies below the
    /// canonical root.
    pub open spec fn as_seen_from_root(&self, tree: &FileTree, found: Seq<char>) -> Seq<char> {
        match (tree.canonical_of(found), tree.canonical_of(self.root@)) {
            (Some(home), Some(root)) => match relative_to(home, root) {
                Some(rest) => joined_path(self.root@, rest),
                None => home,
            },
            (Some(home), None) => home,
            _ => found,
        }
    }

    /// What `import` resolves to as a package of the workspace.
    pub open spec fn found_in_workspace(
        &self,
        tree: &FileTree,
        import: Seq<char>,
        fields: Option<Seq<Option<Seq<char>>>>,
    ) -> Option<Seq<char>> {
        match self.installed_package(tree, import) {
            None => None,
            Some(home) => match self.package_target(tree, import, home, fields) {
                None => None,
                Some(target) => match found_with_extensions(tree, target, self.extensions()) {
                    None => None,
                    Some(found) => Some(self.as_seen_from_root(tree, found)),
                },
            },
        }
    }

    /// The specifier is relative or absolute: it begins with `.` or `/`.
    pub open spec fn is_relative(import: Seq<char>) -> bool {
        import.len() > 0 && (import[0] == '.' || import[0] == '/')
    }

    /// The path that a relative specifier stands for, seen from the importing file.
    pub open spec fn relative_base(from: Seq<char>, import: Seq<char>) -> Seq<char> {
        normalized(joined_path(parent_of(from), import))
    }

    /// What `import` in the file `from` resolves to. A relative specifier
    /// is resolved against the directory of `from`, and nothing else is tried
    /// for it. Any other specifier is resolved by the first alias that finds
    /// something, else as a package of the workspace.
    pub open spec fn resolved(
        &self,
        tree: &FileTree,
        from: Seq<char>,
        import: Seq<char>,
        fields: Option<Seq<Option<Seq<char>>>>,
    ) -> Option<Seq<char>> {
        if Self::is_relative(import) {
            found_with_extensions(tree, Self::relative_base(from, import), self.extensions())
        } else {
            match found_by_alias(
                tree,
                self.alias_dir(),
                self.config.paths.deep_view(),
                import,
                self.extensions(),
            ) {
                Some(p) => Some(p),
                None => self.found_in_workspace(tree, import, fields),
            }
        }
    }

    /// What is named in the error for a specifier that was not resolved.
    pub open spec fn missing(from: Seq<char>, import: Seq<char>) -> Seq<char> {
        if Self::is_relative(import) {
            Self::relative_base(from, import)
        } else {
            "External module: "@ + import
        }
    }

    /// A resolver for the project at `root`, without aliases, that tries
    /// `.ts`, `.tsx`, `.js` and `.jsx`, in this order.
    pub fn new(root: String) -> (resolver: Self)
        ensures
            resolver.root@ == root@,
            resolver.config.base_url is None,
            resolver.config.paths@.len() == 0,
            resolver.extensions() == seq![".ts"@, ".tsx"@, ".js"@, ".jsx"@],
    {
        let mut extensions: Vec<String> = Vec::new();
        extensions.push(String::from_str(".ts"));
        extensions.push(String::from_str(".tsx"));
        extensions.push(String::from_str(".js"));
        extensions.push(String::from_str(".jsx"));
        assert(extensions.deep_view() =~= seq![".ts"@, ".tsx"@, ".js"@, ".jsx"@]);
        PathResolver { config: ResolverConfig { base_url: None, paths: Vec::new(), extensions }, root }
    }

    /// Sets the targets of the alias `pattern`.
    pub fn set_alias(&mut self, pattern: String, targets: Vec<String>)
        ensures
            final(self).config.paths.deep_view() == with_alias(
                old(self).config.paths.deep_view(),
                pattern@,
                targets.deep_view(),
            ),
            final(self).root == old(self).root,
            final(self).config.base_url == old(self).config.base_url,
            final(self).config.extensions == old(self).config.extensions,
    {
        let ghost aliases = self.config.paths.deep_view();
        let mut i: usize = 0;
        while i < self.config.paths.len()
            invariant
                i <= self.config.paths@.len(),
                *self == *old(self),
                aliases == self.config.paths.deep_view(),
                alias_position(aliases, pattern@, 0) == alias_position(aliases, pattern@, i as int),
            decreases self.config.paths@.len() - i,
        {
            assert(aliases[i as int] == self.config.paths@[i as int].deep_view());
            if self.config.paths[i].0 == pattern {
                self.config.paths.set(i, (pattern, targets));
                assert(self.config.paths.deep_view() =~= aliases.update(
                    i as int,
                    (pattern@, targets.deep_view()),
                ));
                return ;
            }
            i += 1;
        }
        self.config.paths.push((pattern, targets));
        assert(self.config.paths.deep_view() =~= aliases.push((pattern@, targets.deep_view())));
    }

    /// Takes over what was read of the project configuration at
    /// `tsconfig_path`: a base URL counts from the directory of the file, and
    /// each alias replaces what its pattern had.
    pub fn apply_tsconfig(&mut self, tsconfig_path: &str, settings: ProjectSettings)
        ensures
            final(self).root == old(self).root,
            final(self).config.extensions == old(self).config.extensions,
            match settings.base_url {
                Some(url) => final(self).config.base_url.deep_view() == Some(
                    joined_path(parent_of(tsconfig_path@), url@),
                ),
                None => final(self).config.base_url == old(self).config.base_url,
            },
            final(self).config.paths.deep_view() == with_aliases(
                old(self).config.paths.deep_view(),
                settings.paths.deep_view(),
            ),
    {
        let ProjectSettings { base_url, paths } = settings;
        match base_url {
            Some(url) => {
                let dir = parent_chars(&to_chars(tsconfig_path));
                self.config.base_url = Some(
                    from_chars(&join_chars(&dir, &to_chars(url.as_str()))),
                );
            },
            None => {},
        }
        let ghost entries = paths.deep_view();
        let ghost start = self.config.paths.deep_view();
        let mut i: usize = 0;
        while i < paths.len()
            invariant
                i <= paths@.len(),
                entries == paths.deep_view(),
                self.root == old(self).root,
                self.config.extensions == old(self).config.extensions,
                match base_url {
                    Some(url) => self.config.base_url.deep_view() == Some(
                        joined_path(parent_of(tsconfig_path@), url@),
                    ),
                    None => self.config.base_url == old(self).config.base_url,
                },
                self.config.paths.deep_view() == with_aliases(start, entries.take(i as int)),
            decreases paths@.len() - i,
        {
            proof {
                assert(entries.take(i + 1).drop_last() =~= entries.take(i as int));
                assert(entries.take(i + 1).last() == paths@[i as int].deep_view());
            }
            let pattern = paths[i].0.clone();
            let targets = copy_strings(&paths[i].1);
            self.set_alias(pattern, targets);
            i += 1;
        }
        assert(entries.take(i as int) =~= entries);
    }

    /// Reads the resolution settings of a project configuration.
    pub fn read_tsconfig(text: &str) -> (settings: Option<ProjectSettings>)
        ensures
            match settings {
                Some(read) => settings_of(text@) == Some(
                    (read.base_url.deep_view(), read.paths.deep_view()),
                ),
                None => settings_of(text@) is None,
            },
    {
        let base_url = match json::text_at(text, &strings2("compilerOptions", "baseUrl")) {
            Some(base_url) => base_url,
            None => {
                return None;
            },
        };
        let mut paths: Vec<(String, Vec<String>)> = Vec::new();
        assert(paths.deep_view() =~= Seq::<(Seq<char>, Seq<Seq<char>>)>::empty());
        match json::keys_at(text, &strings2("compilerOptions", "paths")) {
            Some(keys) => {
                let ghost names = keys.deep_view();
                let mut i: usize = 0;
                assert(paths.deep_view() =~= aliases_of(text@, names.take(0)));
                while i < keys.len()
                    invariant
                        i <= keys@.len(),
                        names == keys.deep_view(),
                        paths.deep_view() == aliases_of(text@, names.take(i as int)),
                    decreases keys@.len() - i,
                {
                    proof {
                        assert(names.take(i + 1).drop_last() =~= names.take(i as int));
                        assert(names.take(i + 1).last() == keys@[i as int]@);
                    }
                    let ghost before = paths.deep_view();
                    let mut at = strings2("compilerOptions", "paths");
                    let ghost head = at.deep_view();
                    at.push(keys[i].clone());
                    assert(at.deep_view() =~= head.push(keys@[i as int]@));
                    assert(at.deep_view() =~= seq!["compilerOptions"@, "paths"@, keys@[i as int]@]);
                    match json::texts_at(text, &at) {
                        Some(items) => {
                            let targets = only_texts(&items);
                            paths.push((keys[i].clone(), targets));
                            assert(paths.deep_view() =~= before.push(
                                (keys@[i as int]@, texts_only(items.deep_view())),
                            ));
                        },
                        None => {},
                    }
                    i += 1;
                }
                assert(names.take(i as int) =~= names);
            },
            None => {},
        }
        Some(ProjectSettings { base_url, paths })
    }

    /// Takes over the resolution settings of the project configuration
    /// at `tsconfig_path`, whose text `tree` holds. Where `tree` holds no
    /// text for the path, or the text is no JSON, the resolver stays as it
    /// is and the error says so.
    pub fn load_tsconfig(&mut self, tsconfig_path: &str, tree: &FileTree) -> (loaded: Result<
        (),
        ResolveError,
    >)
        requires
            tree.wf(),
        ensures
            final(self).root == old(self).root,
            final(self).config.extensions == old(self).config.extensions,
            match Self::settings_at(tree, tsconfig_path@) {
                None => loaded matches Err(e) && e is ConfigError && *final(self) == *old(self),
                Some((base_url, paths)) => loaded is Ok && final(self).config.paths.deep_view()
                    == with_aliases(old(self).config.paths.deep_view(), paths) && match base_url {
                    Some(url) => final(self).config.base_url.deep_view() == Some(
                        joined_path(parent_of(tsconfig_path@), url),
                    ),
                    None => final(self).config.base_url == old(self).config.base_url,
                },
            },
    {
        let text = match tree.read_to_string(tsconfig_path) {
            Some(text) => text,
            None => {
                return Err(
                    ResolveError::ConfigError(
                        String::from_str("no text for ").concat(tsconfig_path),
                    ),
                );
            },
        };
        match Self::read_tsconfig(text.as_str()) {
            Some(settings) => {
                self.apply_tsconfig(tsconfig_path, settings);
                Ok(())
            },
            None => Err(
                ResolveError::ConfigError(String::from_str("not JSON: ").concat(tsconfig_path)),
            ),
        }
    }

    /// The resolution settings that `tree` holds at `path`.
    pub open spec fn settings_at(tree: &FileTree, path: Seq<char>) -> Option<
        (Option<Seq<char>>, Seq<(Seq<char>, Seq<Seq<char>>)>),
    > {
        match tree.content_of(path) {
            Some(text) => settings_of(text),
            None => None,
        }
    }

    /// The path with `.` and `..` resolved.
    pub fn normalize_path(&self, path: &str) -> (out: String)
        ensures
            out@ == normalized(path@),
    {
        crate::path::normalize(path)
    }

    /// The name of the package that a bare specifier names, and what follows it.
    pub fn parse_package_import(&self, import_path: &str) -> (parts: (String, String))
        ensures
            parts.0@ == package_name(import_path@),
            parts.1@ == package_subpath(import_path@),
    {
        let import = to_chars(import_path);
        let first = find_from(&import, '/', 0);
        let end = if import.len() > 0 && import[0] == '@' && first < import.len() {
            find_from(&import, '/', first + 1)
        } else {
            first
        };
        let name = slice(&import, 0, end);
        assert(name@ =~= import@.take(end as int));
        let rest = if end < import.len() {
            let rest = slice(&import, end + 1, import.len());
            assert(rest@ =~= import@.skip(end + 1));
            rest
        } else {
            Vec::new()
        };
        (from_chars(&name), from_chars(&rest))
    }

    /// The candidates of `base_path`, in the order in which they are tried.
    pub fn candidates_of(&self, base_path: &str) -> (candidates: Vec<String>)
        ensures
            candidates.deep_view() == extension_candidates(base_path@, self.extensions()),
    {
        let base = to_chars(base_path);
        let index = to_chars("index");
        let ghost exts = self.extensions();
        let mut candidates: Vec<String> = Vec::new();
        let mut i: usize = 0;
        while i < self.config.extensions.len()
            invariant
                i <= self.config.extensions@.len(),
                exts == self.config.extensions.deep_view(),
                base@ == base_path@,
                candidates.deep_view() == exts.take(i as int).map_values(appended_to(base@)),
            decreases self.config.extensions@.len() - i,
        {
            let ghost before = candidates.deep_view();
            let ext = to_chars(self.config.extensions[i].as_str());
            assert(exts[i as int] == ext@);
            let mut path: Vec<char> = slice(&base, 0, base.len());
            assert(path@ =~= base@);
            append_chars(&mut path, &ext);
            candidates.push(from_chars(&path));
            assert(candidates.deep_view() =~= before.push(base@ + ext@));
            assert(exts.take(i + 1).map_values(appended_to(base@)) =~= before.push(base@ + ext@));
            i += 1;
        }
        assert(exts.take(i as int) =~= exts);
        let ghost first_half = candidates.deep_view();
        let mut k: usize = 0;
        while k < self.config.extensions.len()
            invariant
                k <= self.config.extensions@.len(),
                exts == self.config.extensions.deep_view(),
                base@ == base_path@,
                index@ == "index"@,
                candidates.deep_view() == first_half + exts.take(k as int).map_values(
                    index_below(base@),
                ),
            decreases self.config.extensions@.len() - k,
        {
            let ghost before = candidates.deep_view();
            let ext = to_chars(self.config.extensions[k].as_str());
            assert(exts[k as int] == ext@);
            let mut name: Vec<char> = slice(&index, 0, index.len());
            assert(name@ =~= index@);
            append_chars(&mut name, &ext);
            let path = join_chars(&base, &name);
            candidates.push(from_chars(&path));
            assert(candidates.deep_view() =~= before.push(joined_path(base@, "index"@ + ext@)));
            assert(first_half + exts.take(k + 1).map_values(index_below(base@)) =~= before.push(
                joined_path(base@, "index"@ + ext@),
            ));
            k += 1;
        }
        assert(exts.take(k as int) =~= exts);
        assert(candidates.deep_view() == extension_candidates(base_path@, exts));
        candidates
    }

    /// What `base_path` resolves to: itself where it is a file, else the
    /// first listed candidate.
    pub fn resolve_with_extensions(&self, base_path: &str, tree: &FileTree) -> (found: Result<
        String,
        ResolveError,
    >)
        requires
            tree.wf(),
        ensures
            match found {
                Ok(p) => found_with_extensions(tree, base_path@, self.extensions()) == Some(p@),
                Err(e) => found_with_extensions(tree, base_path@, self.extensions()) is None
                    && is_not_found(e, base_path@),
            },
    {
        if tree.is_file(base_path) {
            return Ok(String::from_str(base_path));
        }
        match self.first_candidate(base_path, tree) {
            Some(p) => Ok(p),
            None => Err(ResolveError::NotFound(String::from_str(base_path))),
        }
    }

    /// The first listed one of the candidates of `base_path`.
    pub fn first_candidate(&self, base_path: &str, tree: &FileTree) -> (found: Option<String>)
        requires
            tree.wf(),
        ensures
            match found {
                Some(p) => first_listed(tree, extension_candidates(base_path@, self.extensions()))
                    == Some(p@),
                None => first_listed(tree, extension_candidates(base_path@, self.extensions()))
                    is None,
            },
    {
        let candidates = self.candidates_of(base_path);
        match first_listed_of(&candidates, tree) {
            Some(at) => Some(candidates[at].clone()),
            None => None,
        }
    }

    /// What the first alias that resolves `import_path` resolves it to.
    pub fn resolve_alias(&self, import_path: &str, tree: &FileTree) -> (found: Option<String>)
        requires
            tree.wf(),
        ensures
            match found {
                Some(p) => found_by_alias(
                    tree,
                    self.alias_dir(),
                    self.config.paths.deep_view(),
                    import_path@,
                    self.extensions(),
                ) == Some(p@),
                None => found_by_alias(
                    tree,
                    self.alias_dir(),
                    self.config.paths.deep_view(),
                    import_path@,
                    self.extensions(),
                ) is None,
            },
    {
        let import = to_chars(import_path);
        let dir = match &self.config.base_url {
            Some(url) => to_chars(url.as_str()),
            None => to_chars(self.root.as_str()),
        };
        let ghost aliases = self.config.paths.deep_view();
        let ghost exts = self.extensions();
        let mut i: usize = 0;
        assert(aliases.skip(0) =~= aliases);
        while i < self.config.paths.len()
            invariant
                tree.wf(),
                i <= self.config.paths@.len(),
                aliases == self.config.paths.deep_view(),
                exts == self.extensions(),
                import@ == import_path@,
                dir@ == self.alias_dir(),
                found_by_alias(tree, dir@, aliases, import@, exts) == found_by_alias(
                    tree,
                    dir@,
                    aliases.skip(i as int),
                    import@,
                    exts,
                ),
            decreases self.config.paths@.len() - i,
        {
            proof {
                assert(aliases.skip(i as int).drop_first() =~= aliases.skip(i + 1));
                assert(aliases.skip(i as int)[0] == aliases[i as int]);
                assert(aliases[i as int] == self.config.paths@[i as int].deep_view());
            }
            let pattern = trim_stars(&to_chars(self.config.paths[i].0.as_str()));
            if starts_with(&import, &pattern) {
                let suffix = slice(&import, pattern.len(), import.len());
                assert(suffix@ =~= import@.skip(pattern@.len() as int));
                let targets = &self.config.paths[i].1;
                let ghost all = targets.deep_view();
                let mut k: usize = 0;
                assert(all.skip(0) =~= all);
                assert(all == aliases[i as int].1);
                assert(pattern@ == without_trailing_stars(aliases[i as int].0));
                while k < targets.len()
                    invariant
                        tree.wf(),
                        k <= targets@.len(),
                        i < aliases.len(),
                        all == targets.deep_view(),
                        all == aliases[i as int].1,
                        pattern@ == without_trailing_stars(aliases[i as int].0),
                        has_prefix(import@, pattern@),
                        suffix@ == import@.skip(pattern@.len() as int),
                        aliases == self.config.paths.deep_view(),
                        import@ == import_path@,
                        dir@ == self.alias_dir(),
                        found_by_alias(tree, dir@, aliases, import@, exts) == found_by_alias(
                            tree,
                            dir@,
                            aliases.skip(i as int),
                            import@,
                            exts,
                        ),
                        exts == self.extensions(),
                        found_among_targets(tree, dir@, all, suffix@, exts) == found_among_targets(
                            tree,
                            dir@,
                            all.skip(k as int),
                            suffix@,
                            exts,
                        ),
                    decreases targets@.len() - k,
                {
                    proof {
                        assert(all.skip(k as int).drop_first() =~= all.skip(k + 1));
                        assert(all.skip(k as int)[0] == targets@[k as int]@);
                    }
                    let target = trim_stars(&to_chars(targets[k].as_str()));
                    let candidate = normalize_chars(&join_chars(&join_chars(&dir, &target), &suffix));
                    assert(candidate@ == alias_candidate(dir@, all.skip(k as int)[0], suffix@));
                    match self.resolve_with_extensions(from_chars(&candidate).as_str(), tree) {
                        Ok(p) => {
                            proof {
                                assert(found_among_targets(tree, dir@, all, suffix@, exts) == Some(
                                    p@,
                                ));
                                assert(found_by_one_alias(
                                    tree,
                                    dir@,
                                    aliases.skip(i as int)[0],
                                    import@,
                                    exts,
                                ) == Some(p@));
                            }
                            return Some(p);
                        },
                        Err(_) => {},
                    }
                    k += 1;
                }
                assert(all.skip(k as int) =~= Seq::<Seq<char>>::empty());
                assert(found_by_one_alias(tree, dir@, aliases.skip(i as int)[0], import@, exts)
                    is None);
            } else {
                assert(pattern@ == without_trailing_stars(aliases.skip(i as int)[0].0));
                assert(found_by_one_alias(tree, dir@, aliases.skip(i as int)[0], import@, exts)
                    is None);
            }
            i += 1;
        }
        assert(aliases.skip(i as int) =~= Seq::<(Seq<char>, Seq<Seq<char>>)>::empty());
        None
    }

    /// The entry of the package at `package_path` whose manifest holds `fields`.
    pub fn package_entry_from_fields(
        &self,
        package_path: &str,
        fields: &Vec<Option<String>>,
        tree: &FileTree,
    ) -> (entry: String)
        requires
            tree.wf(),
        ensures
            entry@ == entry_of_fields(tree, package_path@, field_views(fields@), self.extensions()),
    {
        let package = to_chars(package_path);
        let ghost all = field_views(fields@);
        let ghost exts = self.extensions();
        let mut i: usize = 0;
        assert(all.skip(0) =~= all);
        while i < fields.len()
            invariant
                tree.wf(),
                i <= fields@.len(),
                all == field_views(fields@),
                exts == self.extensions(),
                package@ == package_path@,
                entry_of_fields(tree, package@, all, exts) == entry_of_fields(
                    tree,
                    package@,
                    all.skip(i as int),
                    exts,
                ),
            decreases fields@.len() - i,
        {
            proof {
                assert(all.skip(i as int).drop_first() =~= all.skip(i + 1));
                assert(all.skip(i as int)[0] == all[i as int]);
            }
            match &fields[i] {
                Some(entry) => {
                    let path = from_chars(&join_chars(&package, &to_chars(entry.as_str())));
                    if tree.is_listed(path.as_str()) || self.resolve_with_extensions(
                        path.as_str(),
                        tree,
                    ).is_ok() {
                        return path;
                    }
                },
                None => {},
            }
            i += 1;
        }
        assert(all.skip(i as int) =~= Seq::<Option<Seq<char>>>::empty());
        let in_src = from_chars(
            &join_chars(&join_chars(&package, &to_chars("src")), &to_chars("index")),
        );
        if self.resolve_with_extensions(in_src.as_str(), tree).is_ok() {
            in_src
        } else {
            from_chars(&join_chars(&package, &to_chars("index")))
        }
    }

    /// Reads the entry fields of a package manifest.
    pub fn read_manifest(text: &str) -> (manifest: Manifest)
        ensures
            manifest_fields(manifest) == manifest_reading(text@),
    {
        let source = match json::text_at(text, &strings1("source")) {
            Some(source) => source,
            None => {
                return Manifest::Unreadable;
            },
        };
        let mut fields: Vec<Option<String>> = Vec::new();
        fields.push(source);
        fields.push(flat(json::text_at(text, &strings1("main"))));
        fields.push(flat(json::text_at(text, &strings1("module"))));
        fields.push(flat(json::text_at(text, &strings1("types"))));
        assert(field_views(fields@) =~= manifest_reading(text@).unwrap());
        Manifest::Fields(fields)
    }

    /// The directory of the installed package that `import_path` names.
    fn find_installed_package(&self, import_path: &str, tree: &FileTree) -> (found: Option<String>)
        requires
            tree.wf(),
        ensures
            match found {
                Some(home) => self.installed_package(tree, import_path@) == Some(home@),
                None => self.installed_package(tree, import_path@) is None,
            },
    {
        let (name, _) = self.parse_package_import(import_path);
        let dir = from_chars(
            &join_chars(
                &join_chars(&to_chars(self.root.as_str()), &to_chars("node_modules")),
                &to_chars(name.as_str()),
            ),
        );
        let home = match tree.canonicalize(dir.as_str()) {
            Some(home) => home,
            None => {
                return None;
            },
        };
        let root = match tree.canonicalize(self.root.as_str()) {
            Some(root) => root,
            None => {
                return None;
            },
        };
        match relative(&to_chars(home.as_str()), &to_chars(root.as_str())) {
            Some(_) => Some(home),
            None => None,
        }
    }

    /// What `import_path` resolves to as a package of the workspace, given
    /// what was read of the manifest of the package.
    pub fn resolve_in_workspace(&self, import_path: &str, manifest: &Manifest, tree: &FileTree) -> (found:
        Option<String>)
        requires
            tree.wf(),
        ensures
            match found {
                Some(p) => self.found_in_workspace(tree, import_path@, manifest_fields(*manifest))
                    == Some(p@),
                None => self.found_in_workspace(tree, import_path@, manifest_fields(*manifest))
                    is None,
            },
    {
        let home = match self.find_installed_package(import_path, tree) {
            Some(home) => home,
            None => {
                return None;
            },
        };
        let (_, subpath) = self.parse_package_import(import_path);
        let manifest_path = from_chars(
            &join_chars(&to_chars(home.as_str()), &to_chars("package.json")),
        );
        let target: String = if subpath.as_str().unicode_len() > 0 {
            from_chars(&join_chars(&to_chars(home.as_str()), &to_chars(subpath.as_str())))
        } else if !tree.is_listed(manifest_path.as_str()) {
            home
        } else {
            match manifest {
                Manifest::Fields(fields) => self.package_entry_from_fields(
                    home.as_str(),
                    fields,
                    tree,
                ),
                Manifest::Unreadable => {
                    return None;
                },
            }
        };
        let found = match self.resolve_with_extensions(target.as_str(), tree) {
            Ok(found) => found,
            Err(_) => {
                return None;
            },
        };
        let real_found = match tree.canonicalize(found.as_str()) {
            Some(c) => c,
            None => {
                return Some(found);
            },
        };
        match tree.canonicalize(self.root.as_str()) {
            Some(root) => match relative(&to_chars(real_found.as_str()), &to_chars(root.as_str())) {
                Some(rest) => Some(
                    from_chars(&join_chars(&to_chars(self.root.as_str()), &rest)),
                ),
                None => Some(real_found),
            },
            None => Some(real_found),
        }
    }

    /// What is read of the manifest of the package that `import` names:
    /// nothing where no such package is installed, where `tree` holds no
    /// text for its manifest, or where the text is no JSON.
    pub open spec fn manifest_read(&self, tree: &FileTree, import: Seq<char>) -> Option<
        Seq<Option<Seq<char>>>,
    > {
        match self.installed_package(tree, import) {
            Some(home) => match tree.content_of(joined_path(home, "package.json"@)) {
                Some(text) => manifest_reading(text),
                None => None,
            },
            None => None,
        }
    }

    /// What `import_path` resolves to as a package of the workspace.
    pub fn resolve_workspace_package(&self, import_path: &str, tree: &FileTree) -> (found: Option<
        String,
    >)
        requires
            tree.wf(),
        ensures
            found.deep_view() == self.found_in_workspace(
                tree,
                import_path@,
                self.manifest_read(tree, import_path@),
            ),
    {
        let manifest = self.manifest_for(import_path, tree);
        self.resolve_in_workspace(import_path, &manifest, tree)
    }

    /// Reads the manifest of the package that `import_path` names.
    pub fn manifest_for(&self, import_path: &str, tree: &FileTree) -> (manifest: Manifest)
        requires
            tree.wf(),
        ensures
            manifest_fields(manifest) == self.manifest_read(tree, import_path@),
    {
        match self.find_installed_package(import_path, tree) {
            None => Manifest::Unreadable,
            Some(home) => {
                let manifest_path = from_chars(
                    &join_chars(&to_chars(home.as_str()), &to_chars("package.json")),
                );
                match tree.read_to_string(manifest_path.as_str()) {
                    Some(text) => Self::read_manifest(text.as_str()),
                    None => Manifest::Unreadable,
                }
            },
        }
    }

    /// What `import_path` in the file `from` resolves to, given what was
    /// read of the manifest of the package that it may name.
    pub fn resolve_given(&self, from: &str, import_path: &str, manifest: &Manifest, tree: &FileTree) -> (found:
        Result<String, ResolveError>)
        requires
            tree.wf(),
        ensures
            match found {
                Ok(p) => self.resolved(tree, from@, import_path@, manifest_fields(*manifest))
                    == Some(p@),
                Err(e) => self.resolved(tree, from@, import_path@, manifest_fields(*manifest))
                    is None && is_not_found(e, Self::missing(from@, import_path@)),
            },
    {
        let import = to_chars(import_path);
        if import.len() > 0 && (import[0] == '.' || import[0] == '/') {
            let dir = parent_chars(&to_chars(from));
            let base = normalize_chars(&join_chars(&dir, &import));
            return self.resolve_with_extensions(from_chars(&base).as_str(), tree);
        }
        match self.resolve_alias(import_path, tree) {
            Some(p) => {
                return Ok(p);
            },
            None => {},
        }
        match self.resolve_in_workspace(import_path, manifest, tree) {
            Some(p) => Ok(p),
            None => Err(
                ResolveError::NotFound(String::from_str("External module: ").concat(import_path)),
            ),
        }
    }

    /// What `import_path` in the file `from` resolves to, with the
    /// manifest of the package that the specifier may name as `tree` holds it.
    pub open spec fn resolution(&self, tree: &FileTree, from: Seq<char>, import: Seq<char>) -> Option<
        Seq<char>,
    > {
        self.resolved(tree, from, import, self.manifest_read(tree, import))
    }

    /// What `import_path` in the file `from` resolves to: the file that a
    /// relative specifier names, else what the first alias finds, else what
    /// the package of the workspace gives that the specifier names. The
    /// error names what was not found.
    pub fn resolve(&self, from: &str, import_path: &str, tree: &FileTree) -> (found: Result<
        String,
        ResolveError,
    >)
        requires
            tree.wf(),
        ensures
            match found {
                Ok(p) => self.resolution(tree, from@, import_path@) == Some(p@),
                Err(e) => self.resolution(tree, from@, import_path@) is None && is_not_found(
                    e,
                    Self::missing(from@, import_path@),
                ),
            },
    {
        let manifest = self.manifest_for(import_path, tree);
        self.resolve_given(from, import_path, &manifest, tree)
    }
}

/// Resolving what was resolved gives the same again: a result that is an
/// absolute path without `.` and `..` and names a regular file is, taken as
/// a specifier in the same file, resolved to itself.
pub proof fn lemma_resolve_again(
    resolver: &PathResolver,
    tree: &FileTree,
    from: Seq<char>,
    import: Seq<char>,
    found: Seq<char>,
)
    requires
        resolver.resolution(tree, from, import) == Some(found),
        crate::path::is_absolute(found),
        normalized(found) == found,
        tree.has_file(found),
    ensures
        resolver.resolution(tree, from, found) == Some(found),
{
    assert(PathResolver::is_relative(found));
    assert(joined_path(parent_of(from), found) == found);
}

/// A copy of a list of strings.
fn copy_strings(list: &Vec<String>) -> (copy: Vec<String>)
    ensures
        copy.deep_view() == list.deep_view(),
{
    let mut copy: Vec<String> = Vec::new();
    let mut i: usize = 0;
    while i < list.len()
        invariant
            i <= list@.len(),
            copy.deep_view() == list.deep_view().take(i as int),
        decreases list@.len() - i,
    {
        let ghost before = copy.deep_view();
        copy.push(list[i].clone());
        assert(copy.deep_view() =~= before.push(list@[i as int]@));
        assert(list.deep_view().take(i + 1) =~= before.push(list@[i as int]@));
        i += 1;
    }
    assert(list.deep_view().take(i as int) =~= list.deep_view());
    copy
}

/// The fields that a manifest reading holds.
pub open spec fn manifest_fields(manifest: Manifest) -> Option<Seq<Option<Seq<char>>>> {
    match manifest {
        Manifest::Unreadable => None,
        Manifest::Fields(fields) => Some(field_views(fields@)),
    }
}

/// A list of one string.
fn strings1(first: &str) -> (list: Vec<String>)
    ensures
        list.deep_view() == seq![first@],
{
    let mut list: Vec<String> = Vec::new();
    list.push(String::from_str(first));
    assert(list.deep_view() =~= seq![first@]);
    list
}

/// A list of two strings.
fn strings2(first: &str, second: &str) -> (list: Vec<String>)
    ensures
        list.deep_view() == seq![first@, second@],
{
    let mut list: Vec<String> = Vec::new();
    list.push(String::from_str(first));
    list.push(String::from_str(second));
    assert(list.deep_view() =~= seq![first@, second@]);
    list
}

/// The text that was found, if any.
fn flat(found: Option<Option<String>>) -> (text: Option<String>)
    ensures
        text.deep_view() == match found.deep_view() {
            Some(inner) => inner,
            None => None,
        },
{
    match found {
        Some(inner) => inner,
        None => None,
    }
}

/// Computes [`texts_only`].
fn only_texts(items: &Vec<Option<String>>) -> (texts: Vec<String>)
    ensures
        texts.deep_view() == texts_only(items.deep_view()),
{
    let ghost all = items.deep_view();
    let mut texts: Vec<String> = Vec::new();
    assert(texts.deep_view() =~= texts_only(all.take(0)));
    let mut i: usize = 0;
    while i < items.len()
        invariant
            i <= items@.len(),
            all == items.deep_view(),
            texts.deep_view() == texts_only(all.take(i as int)),
        decreases items@.len() - i,
    {
        proof {
            assert(all.take(i + 1).drop_last() =~= all.take(i as int));
            assert(all.take(i + 1).last() == items@[i as int].deep_view());
        }
        let ghost before = texts.deep_view();
        match &items[i] {
            Some(text) => {
                texts.push(text.clone());
                assert(texts.deep_view() =~= before.push(text@));
            },
            None => {},
        }
        i += 1;
    }
    assert(all.take(i as int) =~= all);
    texts
}

/// Computes [`next_index_of`].
fn find_from(s: &Vec<char>, c: char, from: usize) -> (at: usize)
    requires
        from <= s@.len(),
    ensures
        at == next_index_of(s@, c, from as int),
        from <= at <= s@.len(),
{
    let mut i: usize = from;
    while i < s.len()
        invariant
            from <= i <= s@.len(),
            next_index_of(s@, c, from as int) == next_index_of(s@, c, i as int),
        decreases s@.len() - i,
    {
        if s[i] == c {
            return i;
        }
        i += 1;
    }
    i
}

/// Appends the characters of `tail` to `s`.
fn append_chars(s: &mut Vec<char>, tail: &Vec<char>)
    ensures
        final(s)@ == old(s)@ + tail@,
{
    let mut i: usize = 0;
    while i < tail.len()
        invariant
            i <= tail@.len(),
            s@ == old(s)@ + tail@.take(i as int),
        decreases tail@.len() - i,
    {
        s.push(tail[i]);
        assert(s@ =~= old(s)@ + tail@.take(i + 1));
        i += 1;
    }
    assert(tail@.take(i as int) =~= tail@);
}

/// Computes [`without_trailing_stars`].
fn trim_stars(s: &Vec<char>) -> (out: Vec<char>)
    ensures
        out@ == without_trailing_stars(s@),
{
    let mut end: usize = s.len();
    assert(s@.take(end as int) =~= s@);
    while end > 0 && s[end - 1] == '*'
        invariant
            end <= s@.len(),
            without_trailing_stars(s@) == without_trailing_stars(s@.take(end as int)),
        decreases end,
    {
        assert(s@.take(end as int).drop_last() =~= s@.take(end - 1));
        end -= 1;
    }
    let out = slice(s, 0, end);
    assert(out@ =~= s@.take(end as int));
    out
}

/// The position of the first of `candidates` that `tree` lists.
fn first_listed_of(candidates: &Vec<String>, tree: &FileTree) -> (at: Option<usize>)
    requires
        tree.wf(),
    ensures
        match at {
            Some(i) => i < candidates@.len() && first_listed(tree, candidates.deep_view()) == Some(
                candidates@[i as int]@,
            ),
            None => first_listed(tree, candidates.deep_view()) is None,
        },
{
    let ghost all = candidates.deep_view();
    let mut i: usize = 0;
    assert(all.skip(0) =~= all);
    while i < candidates.len()
        invariant
            tree.wf(),
            i <= candidates@.len(),
            all == candidates.deep_view(),
            first_listed(tree, all) == first_listed(tree, all.skip(i as int)),
        decreases candidates@.len() - i,
    {
        proof {
            assert(all.skip(i as int).drop_first() =~= all.skip(i + 1));
            assert(all.skip(i as int)[0] == candidates@[i as int]@);
        }
        if tree.is_listed(candidates[i].as_str()) {
            return Some(i);
        }
        i += 1;
    }
    assert(all.skip(i as int) =~= Seq::<Seq<char>>::empty());
    None
}

/// Computes [`relative_to`].
fn relative(child: &Vec<char>, parent: &Vec<char>) -> (rest: Option<Vec<char>>)
    ensures
        match rest {
            Some(r) => relative_to(child@, parent@) == Some(r@),
            None => relative_to(child@, parent@) is None,
        },
{
    if crate::config::same_chars(child, parent) {
        let rest: Vec<char> = Vec::new();
        assert(rest@ =~= Seq::<char>::empty());
        return Some(rest);
    }
    let mut dir: Vec<char> = slice(parent, 0, parent.len());
    assert(dir@ =~= parent@);
    if !(parent.len() > 0 && parent[parent.len() - 1] == '/') {
        dir.push('/');
    }
    assert(dir@ =~= as_directory(parent@));
    if starts_with(child, &dir) {
        let rest = slice(child, dir.len(), child.len());
        assert(rest@ =~= child@.skip(dir@.len() as int));
        Some(rest)
    } else {
        None
    }
}

} // verus!
