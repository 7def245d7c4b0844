//! Rendering results for people and for test runners.

use crate::document_lemmas::{lemma_json_document, lemma_threshold_document};
use crate::grammar::is_json;
use crate::path::{file_name_chars, file_name_of};
use crate::text::{from_chars, join, joined, to_chars};
use vstd::hash_map::StringHashMap;
use vstd::prelude::*;
use vstd::string::StringExecFns;

verus! {

/// The forms in which a result can be printed.
#[derive(Debug, Clone, Copy, PartialEq, Eq, Structural)]
pub enum OutputFormat {
    Jest,
    Json,
    List,
    Coverage,
}

/// An ASCII capital letter as a small one, any other character as it is.
pub open spec fn lower(c: char) -> char {
    if 'A' <= c <= 'Z' {
        ((c as u8) + 32) as char
    } else {
        c
    }
}

/// [`lower`] as a function value.
pub open spec fn lowering() -> spec_fn(char) -> char {
    |c: char| lower(c)
}

/// The format that a name stands for; capital letters count as small ones.
pub open spec fn format_named(name: Seq<char>) -> Option<OutputFormat> {
    let small = name.map_values(lowering());
    if small == "jest"@ {
        Some(OutputFormat::Jest)
    } else if small == "json"@ {
        Some(OutputFormat::Json)
    } else if small == "list"@ {
        Some(OutputFormat::List)
    } else if small == "coverage"@ {
        Some(OutputFormat::Coverage)
    } else {
        None
    }
}

fn lower_char(c: char) -> (small: char)
    ensures
        small == lower(c),
{
    if 'A' <= c && c <= 'Z' {
        ((c as u8) + 32) as char
    } else {
        c
    }
}

impl OutputFormat {
    /// Reads the name of a format. An unknown name is answered with a message that holds it.
    pub fn parse(name: &str) -> (parsed: Result<OutputFormat, String>)
        ensures
            match parsed {
                Ok(format) => format_named(name@) == Some(format),
                Err(message) => format_named(name@) is None && message@ == "Unknown format: "@
                    + name@,
            },
    {
        let chars = to_chars(name);
        let mut small: Vec<char> = Vec::new();
        let mut i: usize = 0;
        while i < chars.len()
            invariant
                i <= chars@.len(),
                small@ == chars@.take(i as int).map_values(lowering()),
            decreases chars@.len() - i,
        {
            small.push(lower_char(chars[i]));
            assert(small@ =~= chars@.take(i + 1).map_values(lowering()));
            i += 1;
        }
        assert(chars@.take(i as int) =~= chars@);
        if crate::config::same_chars(&small, &to_chars("jest")) {
            Ok(OutputFormat::Jest)
        } else if crate::config::same_chars(&small, &to_chars("json")) {
            Ok(OutputFormat::Json)
        } else if crate::config::same_chars(&small, &to_chars("list")) {
            Ok(OutputFormat::List)
        } else if crate::config::same_chars(&small, &to_chars("coverage")) {
            Ok(OutputFormat::Coverage)
        } else {
            Err(String::from_str("Unknown format: ").concat(name))
        }
    }
}

impl std::str::FromStr for OutputFormat {
    type Err = String;

    /// Reads the name of a format, as [`OutputFormat::parse`] does.
    fn from_str(s: &str) -> (parsed: Result<Self, Self::Err>)
        ensures
            match parsed {
                Ok(format) => format_named(s@) == Some(format),
                Err(message) => format_named(s@) is None && message@ == "Unknown format: "@ + s@,
            },
    {
        OutputFormat::parse(s)
    }
}

/// How many tests and sources there are, and how many of them are affected.
#[derive(Debug)]
pub struct AffectedStats {
    pub total_tests: usize,
    pub affected_tests: usize,
    pub total_sources: usize,
    pub affected_sources: usize,
}

/// What the JSON form of a result holds.
#[derive(Debug)]
pub struct JsonOutput {
    pub tests: Vec<String>,
    pub sources: Vec<String>,
    pub stats: AffectedStats,
}

/// The coverage that a run must reach, in percent.
#[derive(Debug)]
pub struct CoverageThreshold {
    pub branches: u8,
    pub lines: u8,
    pub functions: u8,
    pub statements: u8,
}

impl Default for CoverageThreshold {
    fn default() -> (threshold: Self)
        ensures
            threshold.branches == 80,
            threshold.lines == 80,
            threshold.functions == 80,
            threshold.statements == 80,
    {
        CoverageThreshold { branches: 80, lines: 80, functions: 80, statements: 80 }
    }
}

/// A character that means something in a regular expression.
pub open spec fn is_meta_character(c: char) -> bool {
    c == '\\' || c == '.' || c == '+' || c == '*' || c == '?' || c == '(' || c == ')' || c == '|'
        || c == '[' || c == ']' || c == '{' || c == '}' || c == '^' || c == '$' || c == '#' || c
        == '&' || c == '-' || c == '~'
}

/// `text` with a backslash before each of its meta characters.
pub open spec fn escaped(text: Seq<char>) -> Seq<char>
    decreases text.len(),
{
    if text.len() == 0 {
        Seq::empty()
    } else if is_meta_character(text.last()) {
        escaped(text.drop_last()).push('\\').push(text.last())
    } else {
        escaped(text.drop_last()).push(text.last())
    }
}

/// `regex::escape`: the text with a backslash before each character that
/// `regex_syntax::is_meta_character` accepts, which are the eighteen that
/// [`is_meta_character`] lists.
#[verifier::external_body]
fn regex_escape(text: &str) -> (quoted: String)
    ensures
        quoted@ == escaped(text@),
{
    regex::escape(text)
}

/// The file names of `paths`, escaped for a regular expression; paths
/// without a file name are passed over.
pub open spec fn escaped_names(paths: Seq<Seq<char>>) -> Seq<Seq<char>>
    decreases paths.len(),
{
    if paths.len() == 0 {
        Seq::empty()
    } else {
        match file_name_of(paths.last()) {
            Some(name) => escaped_names(paths.drop_last()).push(escaped(name)),
            None => escaped_names(paths.drop_last()),
        }
    }
}

/// The pattern that matches exactly the given names: the names with `|`
/// between them, and a pattern that matches nothing but the empty text where
/// no test is given at all.
pub open spec fn jest_pattern(tests: nat, names: Seq<Seq<char>>) -> Seq<char> {
    if tests == 0 {
        "^$"@
    } else {
        joined(names, "|"@)
    }
}

/// Renders results.
pub struct OutputFormatter;

impl OutputFormatter {
    /// The pattern for `tests` test files whose escaped names are `names`.
    pub fn pattern_of_names(tests: usize, names: &Vec<String>) -> (pattern: String)
        ensures
            pattern@ == jest_pattern(tests as nat, names.deep_view()),
    {
        if tests == 0 {
            String::from_str("^$")
        } else {
            join(names, "|")
        }
    }

    /// A pattern for the test runner that selects the files of `tests` by
    /// their names.
    pub fn format_jest_pattern(tests: &[String]) -> (pattern: String)
        ensures
            pattern@ == jest_pattern(tests@.len(), escaped_names(tests.deep_view())),
    {
        let ghost all = tests.deep_view();
        let mut names: Vec<String> = Vec::new();
        let mut i: usize = 0;
        while i < tests.len()
            invariant
                i <= tests@.len(),
                all == tests.deep_view(),
                names.deep_view() == escaped_names(all.take(i as int)),
            decreases tests@.len() - i,
        {
            let ghost before = names.deep_view();
            proof {
                assert(all.take(i + 1).drop_last() =~= all.take(i as int));
                assert(all.take(i + 1).last() == tests@[i as int]@);
            }
            match file_name_chars(&to_chars(tests[i].as_str())) {
                Some(name) => {
                    let quoted = regex_escape(from_chars(&name).as_str());
                    names.push(quoted);
                    assert(names.deep_view() =~= before.push(escaped(name@)));
                },
                None => {},
            }
            i += 1;
        }
        assert(all.take(i as int) =~= all);
        Self::pattern_of_names(tests.len(), &names)
    }

    /// The counts that go with the lists of a result.
    pub fn json_output(
        tests: Vec<String>,
        sources: Vec<String>,
        total_tests: usize,
        total_sources: usize,
    ) -> (output: JsonOutput)
        ensures
            output.tests == tests,
            output.sources == sources,
            output.stats.total_tests == total_tests,
            output.stats.affected_tests == tests@.len(),
            output.stats.total_sources == total_sources,
            output.stats.affected_sources == sources@.len(),
    {
        let stats = AffectedStats {
            total_tests,
            affected_tests: tests.len(),
            total_sources,
            affected_sources: sources.len(),
        };
        JsonOutput { tests, sources, stats }
    }

    /// The paths, one on each line.
    pub fn format_list(files: &Vec<String>) -> (text: String)
        ensures
            text@ == joined(files.deep_view(), "\n"@),
    {
        join(files, "\n")
    }

    /// The paths with commas between them, as the coverage option takes them.
    pub fn format_coverage_from(sources: &Vec<String>) -> (text: String)
        ensures
            text@ == joined(sources.deep_view(), ","@),
    {
        join(sources, ",")
    }
}

/// The hexadecimal digit for a number below sixteen, in lower case.
pub open spec fn hex_digit(n: nat) -> char {
    if n < 10 {
        digit(n)
    } else if n == 10 {
        'a'
    } else if n == 11 {
        'b'
    } else if n == 12 {
        'c'
    } else if n == 13 {
        'd'
    } else if n == 14 {
        'e'
    } else {
        'f'
    }
}

/// What stands for the character `c` in a JSON string: a backslash
/// before the quote and the backslash, the short escapes for backspace,
/// tab, line feed, form feed and carriage return, `\u00` and two
/// hexadecimal digits for the other control characters, and any other
/// character itself.
pub open spec fn json_escape(c: char) -> Seq<char> {
    if c == '"' {
        seq!['\\', '"']
    } else if c == '\\' {
        seq!['\\', '\\']
    } else if c == '\u{8}' {
        seq!['\\', 'b']
    } else if c == '\t' {
        seq!['\\', 't']
    } else if c == '\n' {
        seq!['\\', 'n']
    } else if c == '\u{c}' {
        seq!['\\', 'f']
    } else if c == '\r' {
        seq!['\\', 'r']
    } else if !(c >= ' ') {
        seq![
            '\\',
            'u',
            '0',
            '0',
            hex_digit((c as u32 / 16) as nat),
            hex_digit((c as u32 % 16) as nat),
        ]
    } else {
        seq![c]
    }
}

/// The characters of `text`, each as it stands in a JSON string.
pub open spec fn json_body(text: Seq<char>) -> Seq<char>
    decreases text.len(),
{
    if text.len() == 0 {
        Seq::empty()
    } else {
        json_body(text.drop_last()) + json_escape(text.last())
    }
}

/// The JSON string literal for `text`: its characters between quotes,
/// escaped where JSON asks for it.
pub open spec fn json_literal(text: Seq<char>) -> Seq<char> {
    seq!['"'] + json_body(text) + seq!['"']
}

/// `serde_json::to_string` for a string: the text between quotes, with
/// the quote, the backslash and the control characters escaped as
/// [`json_escape`] says.
#[verifier::external_body]
fn quoted(text: &str) -> (literal: String)
    ensures
        literal@ == json_literal(text@),
{
    serde_json::to_string(text).unwrap_or_default()
}

/// The digit for a number below ten.
pub open spec fn digit(n: nat) -> char {
    if n == 0 {
        '0'
    } else if n == 1 {
        '1'
    } else if n == 2 {
        '2'
    } else if n == 3 {
        '3'
    } else if n == 4 {
        '4'
    } else if n == 5 {
        '5'
    } else if n == 6 {
        '6'
    } else if n == 7 {
        '7'
    } else if n == 8 {
        '8'
    } else {
        '9'
    }
}

/// A number in decimal digits.
pub open spec fn decimal(n: nat) -> Seq<char>
    decreases n,
{
    if n < 10 {
        seq![digit(n)]
    } else {
        decimal(n / 10).push(digit(n % 10))
    }
}

fn digit_char(n: usize) -> (c: char)
    requires
        n < 10,
    ensures
        c == digit(n as nat),
{
    if n == 0 {
        '0'
    } else if n == 1 {
        '1'
    } else if n == 2 {
        '2'
    } else if n == 3 {
        '3'
    } else if n == 4 {
        '4'
    } else if n == 5 {
        '5'
    } else if n == 6 {
        '6'
    } else if n == 7 {
        '7'
    } else if n == 8 {
        '8'
    } else {
        '9'
    }
}

/// Computes [`decimal`].
pub fn decimal_chars(n: usize) -> (digits: Vec<char>)
    ensures
        digits@ == decimal(n as nat),
    decreases n,
{
    if n < 10 {
        let mut digits: Vec<char> = Vec::new();
        digits.push(digit_char(n));
        assert(digits@ =~= seq![digit(n as nat)]);
        digits
    } else {
        let mut digits = decimal_chars(n / 10);
        digits.push(digit_char(n % 10));
        digits
    }
}

/// The lines of a JSON array of strings behind its opening bracket:
/// each literal on a line of its own behind `indent`, a comma behind all
/// but the last.
pub open spec fn array_lines(items: Seq<Seq<char>>, indent: Seq<char>) -> Seq<char>
    decreases items.len(),
{
    if items.len() == 0 {
        Seq::empty()
    } else if items.len() == 1 {
        indent + json_literal(items[0]) + "\n"@
    } else {
        array_lines(items.drop_last(), indent).drop_last() + ",\n"@ + indent + json_literal(
            items.last(),
        ) + "\n"@
    }
}

/// A JSON array of strings as it stands behind a member name one level
/// deep: `[]` where it is empty, else one literal to the line.
pub open spec fn array_text(items: Seq<Seq<char>>) -> Seq<char> {
    if items.len() == 0 {
        "[]"@
    } else {
        "[\n"@ + array_lines(items, "    "@) + "  ]"@
    }
}

/// The JSON document of a result: the tests, the sources and the counts.
pub open spec fn json_document(
    tests: Seq<Seq<char>>,
    sources: Seq<Seq<char>>,
    total_tests: nat,
    total_sources: nat,
) -> Seq<char> {
    "{\n  \"tests\": "@ + array_text(tests) + ",\n  \"sources\": "@ + array_text(sources)
        + ",\n  \"stats\": {\n    \"total_tests\": "@ + decimal(total_tests)
        + ",\n    \"affected_tests\": "@ + decimal(tests.len()) + ",\n    \"total_sources\": "@
        + decimal(total_sources) + ",\n    \"affected_sources\": "@ + decimal(sources.len())
        + "\n  }\n}"@
}

fn push_all(out: &mut Vec<char>, text: &str)
    ensures
        final(out)@ == old(out)@ + text@,
{
    let chars = to_chars(text);
    let mut i: usize = 0;
    while i < chars.len()
        invariant
            i <= chars@.len(),
            chars@ == text@,
            out@ == old(out)@ + chars@.take(i as int),
        decreases chars@.len() - i,
    {
        out.push(chars[i]);
        assert(out@ =~= old(out)@ + chars@.take(i + 1));
        i += 1;
    }
    assert(chars@.take(i as int) =~= chars@);
}

fn push_chars(out: &mut Vec<char>, chars: &Vec<char>)
    ensures
        final(out)@ == old(out)@ + chars@,
{
    let mut i: usize = 0;
    while i < chars.len()
        invariant
            i <= chars@.len(),
            out@ == old(out)@ + chars@.take(i as int),
        decreases chars@.len() - i,
    {
        out.push(chars[i]);
        assert(out@ =~= old(out)@ + chars@.take(i + 1));
        i += 1;
    }
    assert(chars@.take(i as int) =~= chars@);
}

fn push_array(out: &mut Vec<char>, items: &[String])
    ensures
        final(out)@ == old(out)@ + array_text(items.deep_view()),
{
    let ghost all = items.deep_view();
    if items.len() == 0 {
        push_all(out, "[]");
        return ;
    }
    push_all(out, "[\n");
    let ghost head = out@;
    let mut i: usize = 0;
    while i < items.len()
        invariant
            i <= items@.len(),
            items@.len() > 0,
            all == items.deep_view(),
            out@ == head + array_lines(all.take(i as int), "    "@),
            i > 0 ==> array_lines(all.take(i as int), "    "@).len() > 0 && array_lines(
                all.take(i as int),
                "    "@,
            ).last() == '\n',
        decreases items@.len() - i,
    {
        proof {
            assert(all.take(i + 1).drop_last() =~= all.take(i as int));
            assert(all.take(i + 1).last() == items@[i as int]@);
            assert(all.take(i + 1)[0] == all[0]);
            reveal_strlit("\n");
            reveal_strlit(",\n");
        }
        let ghost lines = array_lines(all.take(i as int), "    "@);
        if i > 0 {
            out.pop();
            assert(out@ =~= head + lines.drop_last());
            push_all(out, ",\n");
        }
        push_all(out, "    ");
        push_all(out, quoted(items[i].as_str()).as_str());
        push_all(out, "\n");
        proof {
            let next = array_lines(all.take(i + 1), "    "@);
            if i == 0 {
                assert(all.take(1).len() == 1);
                assert(out@ =~= head + next);
            } else {
                assert(out@ =~= head + next);
            }
            assert(next.last() == '\n');
        }
        i += 1;
    }
    assert(all.take(i as int) =~= all);
    push_all(out, "  ]");
    assert(out@ =~= old(out)@ + array_text(all));
}

impl OutputFormatter {
    /// The result as a JSON document: the lists as arrays of strings, and
    /// the counts under `stats`.
    pub fn format_json(tests: &[String], sources: &[String], total_tests: usize, total_sources: usize) -> (text:
        String)
        ensures
            text@ == json_document(
                tests.deep_view(),
                sources.deep_view(),
                total_tests as nat,
                total_sources as nat,
            ),
            is_json(text@),
    {
        let mut out: Vec<char> = Vec::new();
        push_all(&mut out, "{\n  \"tests\": ");
        push_array(&mut out, tests);
        push_all(&mut out, ",\n  \"sources\": ");
        push_array(&mut out, sources);
        push_all(&mut out, ",\n  \"stats\": {\n    \"total_tests\": ");
        push_chars(&mut out, &decimal_chars(total_tests));
        push_all(&mut out, ",\n    \"affected_tests\": ");
        push_chars(&mut out, &decimal_chars(tests.len()));
        push_all(&mut out, ",\n    \"total_sources\": ");
        push_chars(&mut out, &decimal_chars(total_sources));
        push_all(&mut out, ",\n    \"affected_sources\": ");
        push_chars(&mut out, &decimal_chars(sources.len()));
        push_all(&mut out, "\n  }\n}");
        assert(out@ =~= json_document(
            tests.deep_view(),
            sources.deep_view(),
            total_tests as nat,
            total_sources as nat,
        ));
        proof {
            lemma_json_document(
                tests.deep_view(),
                sources.deep_view(),
                total_tests as nat,
                total_sources as nat,
            );
        }
        from_chars(&out)
    }
}

/// The paths of `paths` without repetitions, each where it stands first.
pub open spec fn distinct(paths: Seq<Seq<char>>) -> Seq<Seq<char>>
    decreases paths.len(),
{
    if paths.len() == 0 {
        Seq::empty()
    } else if paths.drop_last().contains(paths.last()) {
        distinct(paths.drop_last())
    } else {
        distinct(paths.drop_last()).push(paths.last())
    }
}

/// The member of the threshold document for one source.
pub open spec fn threshold_entry(path: Seq<char>, threshold: CoverageThreshold) -> Seq<char> {
    "    "@ + json_literal(path) + ": {\n      \"branches\": "@ + decimal(threshold.branches as nat)
        + ",\n      \"lines\": "@ + decimal(threshold.lines as nat) + ",\n      \"functions\": "@
        + decimal(threshold.functions as nat) + ",\n      \"statements\": "@ + decimal(
        threshold.statements as nat,
    ) + "\n    }"@
}

/// The members of the threshold document for `paths`.
pub open spec fn threshold_entries(paths: Seq<Seq<char>>, threshold: CoverageThreshold) -> Seq<
    Seq<char>,
>
    decreases paths.len(),
{
    if paths.len() == 0 {
        Seq::empty()
    } else {
        threshold_entries(paths.drop_last(), threshold).push(
            threshold_entry(paths.last(), threshold),
        )
    }
}

/// The JSON document that asks the same coverage of every source.
pub open spec fn threshold_document(sources: Seq<Seq<char>>, threshold: CoverageThreshold) -> Seq<
    char,
> {
    if sources.len() == 0 {
        "{\n  \"coverageThreshold\": {}\n}"@
    } else {
        "{\n  \"coverageThreshold\": {\n"@ + joined(
            threshold_entries(distinct(sources), threshold),
            ",\n"@,
        ) + "\n  }\n}"@
    }
}

fn byte_chars(n: u8) -> (digits: Vec<char>)
    ensures
        digits@ == decimal(n as nat),
{
    decimal_chars(n as usize)
}

impl OutputFormatter {
    /// The sources without repetitions, each where it stands first.
    pub fn distinct_sources(sources: &[String]) -> (kept: Vec<String>)
        ensures
            kept.deep_view() == distinct(sources.deep_view()),
    {
        let ghost all = sources.deep_view();
        let mut seen: StringHashMap<bool> = StringHashMap::new();
        let mut kept: Vec<String> = Vec::new();
        assert(kept.deep_view() =~= distinct(all.take(0)));
        let mut i: usize = 0;
        while i < sources.len()
            invariant
                i <= sources@.len(),
                all == sources.deep_view(),
                kept.deep_view() == distinct(all.take(i as int)),
                forall|p: Seq<char>| seen@.contains_key(p) <==> all.take(i as int).contains(p),
            decreases sources@.len() - i,
        {
            let ghost before = kept.deep_view();
            let ghost prefix = all.take(i as int);
            let ghost next = all.take(i + 1);
            proof {
                assert(next.drop_last() =~= prefix);
                assert(next.last() == sources@[i as int]@);
            }
            if !seen.contains_key(sources[i].as_str()) {
                seen.insert(sources[i].clone(), true);
                kept.push(sources[i].clone());
                assert(kept.deep_view() =~= before.push(sources@[i as int]@));
            }
            proof {
                assert forall|p: Seq<char>| seen@.contains_key(p) <==> next.contains(p) by {
                    if next.contains(p) {
                        let k = choose|k: int| 0 <= k < next.len() && next[k] == p;
                        if k < prefix.len() {
                            assert(prefix[k] == p);
                        }
                    }
                    if prefix.contains(p) {
                        let k = choose|k: int| 0 <= k < prefix.len() && prefix[k] == p;
                        assert(next[k] == p);
                    }
                    if p == sources@[i as int]@ {
                        assert(next[i as int] == p);
                    }
                }
            }
            i += 1;
        }
        assert(all.take(i as int) =~= all);
        kept
    }

    /// A JSON document for the test runner that asks the coverage
    /// `threshold` of each of `sources`.
    pub fn format_coverage_threshold(sources: &[String], threshold: CoverageThreshold) -> (text:
        String)
        ensures
            text@ == threshold_document(sources.deep_view(), threshold),
            is_json(text@),
    {
        if sources.len() == 0 {
            proof {
                lemma_threshold_document(sources.deep_view(), threshold);
            }
            return String::from_str("{\n  \"coverageThreshold\": {}\n}");
        }
        let kept = Self::distinct_sources(sources);
        let ghost paths = kept.deep_view();
        let mut entries: Vec<String> = Vec::new();
        assert(entries.deep_view() =~= threshold_entries(paths.take(0), threshold));
        let mut i: usize = 0;
        while i < kept.len()
            invariant
                i <= kept@.len(),
                paths == kept.deep_view(),
                entries.deep_view() == threshold_entries(paths.take(i as int), threshold),
            decreases kept@.len() - i,
        {
            proof {
                assert(paths.take(i + 1).drop_last() =~= paths.take(i as int));
                assert(paths.take(i + 1).last() == kept@[i as int]@);
            }
            let ghost before = entries.deep_view();
            let mut out: Vec<char> = Vec::new();
            push_all(&mut out, "    ");
            push_all(&mut out, quoted(kept[i].as_str()).as_str());
            push_all(&mut out, ": {\n      \"branches\": ");
            push_chars(&mut out, &byte_chars(threshold.branches));
            push_all(&mut out, ",\n      \"lines\": ");
            push_chars(&mut out, &byte_chars(threshold.lines));
            push_all(&mut out, ",\n      \"functions\": ");
            push_chars(&mut out, &byte_chars(threshold.functions));
            push_all(&mut out, ",\n      \"statements\": ");
            push_chars(&mut out, &byte_chars(threshold.statements));
            push_all(&mut out, "\n    }");
            assert(out@ =~= threshold_entry(kept@[i as int]@, threshold));
            entries.push(from_chars(&out));
            assert(entries.deep_view() =~= before.push(threshold_entry(kept@[i as int]@, threshold)));
            i += 1;
        }
        assert(paths.take(i as int) =~= paths);
        proof {
            lemma_threshold_document(sources.deep_view(), threshold);
        }
        String::from_str("{\n  \"coverageThreshold\": {\n").concat(
            join(&entries, ",\n").as_str(),
        ).concat("\n  }\n}")
    }
}

} // verus!
