//! The configuration and the predicates on paths that it decides.

use crate::path::{extension_chars, extension_of, file_name_chars, file_name_of};
use crate::text::{contains, has_substring, to_chars};
use vstd::prelude::*;
use vstd::string::StringExecFns;

verus! {

/// What went wrong when the configuration was read.
#[derive(Debug)]
pub enum ConfigError {
    /// The file could not be read.
    ReadError(String),
    /// The file does not hold a configuration.
    ParseError(String),
}

impl ConfigError {
    /// The message of the error.
    pub open spec fn message(&self) -> Seq<char> {
        match self {
            ConfigError::ReadError(m) => "Failed to read config: "@ + m@,
            ConfigError::ParseError(m) => "Failed to parse config: "@ + m@,
        }
    }

    /// The message of the error, as text.
    pub fn to_string(&self) -> (text: String)
        ensures
            text@ == self.message(),
    {
        match self {
            ConfigError::ReadError(m) => String::from_str("Failed to read config: ").concat(
                m.as_str(),
            ),
            ConfigError::ParseError(m) => String::from_str("Failed to parse config: ").concat(
                m.as_str(),
            ),
        }
    }
}

/// The settings of a project.
#[derive(Debug)]
pub struct Config {
    /// Glob patterns of test files.
    pub test_patterns: Vec<String>,
    /// Glob patterns of paths to pass over.
    pub ignore_patterns: Vec<String>,
    /// The extensions of source files, each with its dot.
    pub extensions: Vec<String>,
    pub cache_enabled: bool,
    /// The reference that changes are counted from where none is given.
    pub default_base: String,
    pub expand_barrels: bool,
}

/// The test patterns of a project that configures none.
pub fn default_test_patterns() -> (patterns: Vec<String>)
    ensures
        patterns.deep_view() == seq![
            "**/*.spec.ts"@,
            "**/*.spec.tsx"@,
            "**/*.test.ts"@,
            "**/*.test.tsx"@,
            "**/*.spec.js"@,
            "**/*.spec.jsx"@,
            "**/*.test.js"@,
            "**/*.test.jsx"@,
        ],
{
    let mut patterns: Vec<String> = Vec::new();
    patterns.push(String::from_str("**/*.spec.ts"));
    patterns.push(String::from_str("**/*.spec.tsx"));
    patterns.push(String::from_str("**/*.test.ts"));
    patterns.push(String::from_str("**/*.test.tsx"));
    patterns.push(String::from_str("**/*.spec.js"));
    patterns.push(String::from_str("**/*.spec.jsx"));
    patterns.push(String::from_str("**/*.test.js"));
    patterns.push(String::from_str("**/*.test.jsx"));
    assert(patterns.deep_view() =~= seq![
        "**/*.spec.ts"@,
        "**/*.spec.tsx"@,
        "**/*.test.ts"@,
        "**/*.test.tsx"@,
        "**/*.spec.js"@,
        "**/*.spec.jsx"@,
        "**/*.test.js"@,
        "**/*.test.jsx"@,
    ]);
    patterns
}

/// The ignore patterns of a project that configures none.
pub fn default_ignore_patterns() -> (patterns: Vec<String>)
    ensures
        patterns.deep_view() == seq![
            "**/node_modules/**"@,
            "**/dist/**"@,
            "**/build/**"@,
            "**/.git/**"@,
            "**/coverage/**"@,
        ],
{
    let mut patterns: Vec<String> = Vec::new();
    patterns.push(String::from_str("**/node_modules/**"));
    patterns.push(String::from_str("**/dist/**"));
    patterns.push(String::from_str("**/build/**"));
    patterns.push(String::from_str("**/.git/**"));
    patterns.push(String::from_str("**/coverage/**"));
    assert(patterns.deep_view() =~= seq![
        "**/node_modules/**"@,
        "**/dist/**"@,
        "**/build/**"@,
        "**/.git/**"@,
        "**/coverage/**"@,
    ]);
    patterns
}

/// The extensions of source files where none are configured.
pub fn default_extensions() -> (extensions: Vec<String>)
    ensures
        extensions.deep_view() == seq![".ts"@, ".tsx"@, ".js"@, ".jsx"@, ".mjs"@, ".cjs"@],
{
    let mut extensions: Vec<String> = Vec::new();
    extensions.push(String::from_str(".ts"));
    extensions.push(String::from_str(".tsx"));
    extensions.push(String::from_str(".js"));
    extensions.push(String::from_str(".jsx"));
    extensions.push(String::from_str(".mjs"));
    extensions.push(String::from_str(".cjs"));
    assert(extensions.deep_view() =~= seq![".ts"@, ".tsx"@, ".js"@, ".jsx"@, ".mjs"@, ".cjs"@]);
    extensions
}

/// Whether the graph is cached where nothing is configured.
pub fn default_cache_enabled() -> (enabled: bool)
    ensures
        enabled,
{
    true
}

/// The base reference where none is configured.
pub fn default_base() -> (base: String)
    ensures
        base@ == "main"@,
{
    String::from_str("main")
}

/// Whether barrels are expanded where nothing is configured.
pub fn default_expand_barrels() -> (expand: bool)
    ensures
        expand,
{
    true
}

impl Default for Config {
    fn default() -> (config: Self)
        ensures
            config.test_patterns.deep_view() == seq![
                "**/*.spec.ts"@,
                "**/*.spec.tsx"@,
                "**/*.test.ts"@,
                "**/*.test.tsx"@,
                "**/*.spec.js"@,
                "**/*.spec.jsx"@,
                "**/*.test.js"@,
                "**/*.test.jsx"@,
            ],
            config.ignore_patterns.deep_view() == seq![
                "**/node_modules/**"@,
                "**/dist/**"@,
                "**/build/**"@,
                "**/.git/**"@,
                "**/coverage/**"@,
            ],
            config.extensions.deep_view() == seq![
                ".ts"@,
                ".tsx"@,
                ".js"@,
                ".jsx"@,
                ".mjs"@,
                ".cjs"@,
            ],
            config.cache_enabled,
            config.default_base@ == "main"@,
            config.expand_barrels,
    {
        Config {
            test_patterns: default_test_patterns(),
            ignore_patterns: default_ignore_patterns(),
            extensions: default_extensions(),
            cache_enabled: default_cache_enabled(),
            default_base: default_base(),
            expand_barrels: default_expand_barrels(),
        }
    }
}

/// What the glob pattern `pattern` answers for `path`: `None` where the
/// text is no pattern, else whether the pattern matches all of `path`.
pub uninterp spec fn glob_answer(pattern: Seq<char>, path: Seq<char>) -> Option<bool>;

/// The text holds no backslash. Some platforms read a backslash as a
/// separator of path components and others as an ordinary character;
/// without one a text reads the same everywhere.
pub open spec fn portable(text: Seq<char>) -> bool {
    !text.contains('\\')
}

/// Each of the texts is [`portable`].
pub open spec fn all_portable(texts: Seq<Seq<char>>) -> bool {
    forall|i: int| 0 <= i < texts.len() ==> portable(#[trigger] texts[i])
}

/// What each of `patterns` answers for `path`, in their order.
pub open spec fn answers(patterns: Seq<Seq<char>>, path: Seq<char>) -> Seq<Option<bool>> {
    Seq::new(patterns.len(), |i: int| glob_answer(patterns[i], path))
}

/// Compiles `pattern` with `glob::Pattern::new` and matches `path` against
/// it with `glob::Pattern::matches`: `None` where the text is no pattern.
/// Both look at nothing but the two texts, and at the platform only to
/// tell whether a character is a separator, which differs for the
/// backslash alone. So for texts without one the answer is taken on trust
/// under a name; of other texts nothing is claimed.
#[verifier::external_body]
fn glob_matches(pattern: &str, path: &str) -> (hit: Option<bool>)
    ensures
        portable(pattern@) && portable(path@) ==> hit == glob_answer(pattern@, path@),
{
    match glob::Pattern::new(pattern) {
        Ok(compiled) => Some(compiled.matches(path)),
        Err(_) => None,
    }
}

/// What matching `path` against each of `patterns` gives, in their order.
pub fn match_outcomes(patterns: &Vec<String>, path: &str) -> (outcomes: Vec<Option<bool>>)
    ensures
        outcomes@.len() == patterns@.len(),
        all_portable(patterns.deep_view()) && portable(path@) ==> outcomes@ == answers(
            patterns.deep_view(),
            path@,
        ),
{
    let ghost texts = patterns.deep_view();
    let mut outcomes: Vec<Option<bool>> = Vec::new();
    let mut i: usize = 0;
    while i < patterns.len()
        invariant
            i <= patterns@.len(),
            outcomes@.len() == i,
            texts == patterns.deep_view(),
            all_portable(texts) && portable(path@) ==> forall|k: int|
                0 <= k < i ==> #[trigger] outcomes@[k] == glob_answer(texts[k], path@),
        decreases patterns@.len() - i,
    {
        assert(texts[i as int] == patterns@[i as int]@);
        outcomes.push(glob_matches(patterns[i].as_str(), path));
        i += 1;
    }
    assert(all_portable(texts) && portable(path@) ==> outcomes@ =~= answers(texts, path@));
    outcomes
}

/// Some pattern matched.
pub open spec fn any_hit(outcomes: Seq<Option<bool>>) -> bool {
    exists|i: int| 0 <= i < outcomes.len() && outcomes[i] == Some(true)
}

/// Decides [`any_hit`].
pub fn has_hit(outcomes: &Vec<Option<bool>>) -> (hit: bool)
    ensures
        hit == any_hit(outcomes@),
{
    let mut i: usize = 0;
    while i < outcomes.len()
        invariant
            i <= outcomes@.len(),
            forall|j: int| 0 <= j < i ==> outcomes@[j] != Some(true),
        decreases outcomes@.len() - i,
    {
        match outcomes[i] {
            Some(true) => {
                return true;
            },
            _ => {},
        }
        i += 1;
    }
    false
}

/// The name of the file says that it is a test: it holds `.spec.` or `.test.`.
pub open spec fn has_test_marker(path: Seq<char>) -> bool {
    match file_name_of(path) {
        Some(name) => has_substring(name, ".spec."@) || has_substring(name, ".test."@),
        None => false,
    }
}

/// A segment of the path is `node_modules`.
pub open spec fn in_node_modules(path: Seq<char>) -> bool {
    crate::path::has_segment(path, "node_modules"@)
}

/// The extension of the path, with its dot, is one of `extensions`.
pub open spec fn extension_among(path: Seq<char>, extensions: Seq<Seq<char>>) -> bool {
    match extension_of(path) {
        Some(ext) => extensions.contains(seq!['.'] + ext),
        None => false,
    }
}

/// A path is a test where a test pattern matched it or its name has a test marker.
pub open spec fn test_verdict(outcomes: Seq<Option<bool>>, path: Seq<char>) -> bool {
    any_hit(outcomes) || has_test_marker(path)
}

/// A path is passed over where an ignore pattern matched it or one of its
/// segments is `node_modules`.
pub open spec fn ignore_verdict(outcomes: Seq<Option<bool>>, path: Seq<char>) -> bool {
    any_hit(outcomes) || in_node_modules(path)
}

/// Decides [`has_test_marker`].
pub fn test_marker(path: &str) -> (marked: bool)
    ensures
        marked == has_test_marker(path@),
{
    match file_name_chars(&to_chars(path)) {
        Some(name) => contains(&name, &to_chars(".spec.")) || contains(&name, &to_chars(".test.")),
        None => false,
    }
}

/// Decides [`test_verdict`] from the outcomes of the test patterns.
pub fn classify_test(outcomes: &Vec<Option<bool>>, path: &str) -> (is_test: bool)
    ensures
        is_test == test_verdict(outcomes@, path@),
{
    has_hit(outcomes) || test_marker(path)
}

/// Decides [`ignore_verdict`] from the outcomes of the ignore patterns.
pub fn classify_ignored(outcomes: &Vec<Option<bool>>, path: &str) -> (ignored: bool)
    ensures
        ignored == ignore_verdict(outcomes@, path@),
{
    has_hit(outcomes) || crate::path::contains_segment(&to_chars(path), &to_chars("node_modules"))
}

/// Decides [`extension_among`].
pub fn extension_listed(path: &str, extensions: &Vec<String>) -> (listed: bool)
    ensures
        listed == extension_among(path@, extensions.deep_view()),
{
    match extension_chars(&to_chars(path)) {
        None => false,
        Some(ext) => {
            let mut dotted: Vec<char> = Vec::new();
            dotted.push('.');
            let mut k: usize = 0;
            while k < ext.len()
                invariant
                    k <= ext@.len(),
                    dotted@ == seq!['.'] + ext@.take(k as int),
                decreases ext@.len() - k,
            {
                dotted.push(ext[k]);
                assert(dotted@ =~= seq!['.'] + ext@.take(k + 1));
                k += 1;
            }
            assert(ext@.take(k as int) =~= ext@);
            let ghost list = extensions.deep_view();
            let mut i: usize = 0;
            while i < extensions.len()
                invariant
                    i <= extensions@.len(),
                    list == extensions.deep_view(),
                    dotted@ == seq!['.'] + ext@,
                    extension_of(path@) == Some(ext@),
                    forall|j: int| 0 <= j < i ==> list[j] != dotted@,
                decreases extensions@.len() - i,
            {
                let candidate = to_chars(extensions[i].as_str());
                assert(list[i as int] == candidate@);
                if same_chars(&candidate, &dotted) {
                    assert(list[i as int] == seq!['.'] + ext@);
                    assert(list.contains(seq!['.'] + ext@));
                    return true;
                }
                i += 1;
            }
            false
        },
    }
}

/// Whether two character vectors hold the same text.
pub fn same_chars(a: &Vec<char>, b: &Vec<char>) -> (same: bool)
    ensures
        same == (a@ == b@),
{
    if a.len() != b.len() {
        return false;
    }
    let mut i: usize = 0;
    while i < a.len()
        invariant
            i <= a@.len(),
            a@.len() == b@.len(),
            forall|j: int| 0 <= j < i ==> a@[j] == b@[j],
        decreases a@.len() - i,
    {
        if a[i] != b[i] {
            return false;
        }
        i += 1;
    }
    assert(a@ =~= b@);
    true
}

impl Config {
    /// `path` is a test: a test pattern matches it, or the name of the
    /// file holds `.spec.` or `.test.`.
    pub open spec fn counts_as_test(&self, path: Seq<char>) -> bool {
        test_verdict(answers(self.test_patterns.deep_view(), path), path)
    }

    /// `path` is passed over: an ignore pattern matches it, or it lies
    /// below `node_modules`.
    pub open spec fn passes_over(&self, path: Seq<char>) -> bool {
        ignore_verdict(answers(self.ignore_patterns.deep_view(), path), path)
    }

    /// Whether `path` is a test: a test pattern matches it, or the name of
    /// the file holds `.spec.` or `.test.`. Of a path or a pattern with a
    /// backslash only what holds whatever the patterns answer is stated;
    /// [`classify_test`] says what follows from their answers.
    pub fn is_test_file(&self, path: &str) -> (is_test: bool)
        ensures
            all_portable(self.test_patterns.deep_view()) && portable(path@) ==> is_test
                == self.counts_as_test(path@),
            has_test_marker(path@) ==> is_test,
            self.test_patterns@.len() == 0 ==> is_test == has_test_marker(path@),
    {
        let outcomes = match_outcomes(&self.test_patterns, path);
        classify_test(&outcomes, path)
    }

    /// Whether `path` is passed over: an ignore pattern matches it, or it
    /// lies below `node_modules`. Of a path or a pattern with a backslash
    /// only what holds whatever the patterns answer is stated;
    /// [`classify_ignored`] says what follows from their answers.
    pub fn should_ignore(&self, path: &str) -> (ignored: bool)
        ensures
            all_portable(self.ignore_patterns.deep_view()) && portable(path@) ==> ignored
                == self.passes_over(path@),
            in_node_modules(path@) ==> ignored,
            self.ignore_patterns@.len() == 0 ==> ignored == in_node_modules(path@),
    {
        let outcomes = match_outcomes(&self.ignore_patterns, path);
        classify_ignored(&outcomes, path)
    }

    /// Whether the extension of `path` is one of the configured ones.
    pub fn is_supported_extension(&self, path: &str) -> (supported: bool)
        ensures
            supported == extension_among(path@, self.extensions.deep_view()),
    {
        extension_listed(path, &self.extensions)
    }
}

} // verus!
