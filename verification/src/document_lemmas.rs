//! The documents of the renderer are JSON texts.

use crate::grammar::{
    is_blank, is_digit, is_elements, is_escape, is_hex, is_json, is_member, is_members, is_number,
    is_string, is_string_body, is_value, lemma_array, lemma_element, lemma_elements_then,
    lemma_elements_then_blank, lemma_member, lemma_members_then, lemma_members_then_blank,
    lemma_object, lemma_plain_string,
};
use crate::output::{
    array_lines, array_text, decimal, digit, json_body, json_document, json_escape, json_literal,
    threshold_document, threshold_entries, threshold_entry, CoverageThreshold,
};
use crate::text::joined;
use vstd::prelude::*;

verus! {

/// Two bodies of strings in a row are the body of a string.
pub proof fn lemma_bodies(first: Seq<char>, second: Seq<char>)
    requires
        is_string_body(first),
        is_string_body(second),
    ensures
        is_string_body(first + second),
    decreases first.len(),
{
    let s = first + second;
    if first.len() == 0 {
        assert(s =~= second);
    } else {
        assert(s[0] == first[0]);
        if first[0] == '\\' {
            assert(first.len() >= 2);
            assert(s[1] == first[1]);
            if first[1] == 'u' {
                assert(first.len() >= 6);
                assert(s[2] == first[2] && s[3] == first[3] && s[4] == first[4] && s[5]
                    == first[5]);
                lemma_bodies(first.skip(6), second);
                assert(s.skip(6) =~= first.skip(6) + second);
            } else {
                lemma_bodies(first.skip(2), second);
                assert(s.skip(2) =~= first.skip(2) + second);
            }
        } else {
            lemma_bodies(first.skip(1), second);
            assert(s.skip(1) =~= first.skip(1) + second);
        }
    }
}

/// What stands for a character in a JSON string is the body of a string.
pub proof fn lemma_escape(c: char)
    ensures
        is_string_body(json_escape(c)),
{
    let s = json_escape(c);
    if c == '"' || c == '\\' || c == '\u{8}' || c == '\t' || c == '\n' || c == '\u{c}' || c == '\r' {
        assert(s.len() == 2 && s[0] == '\\' && is_escape(s[1]) && s[1] != 'u');
        assert(s.skip(2) =~= Seq::<char>::empty());
        assert(is_string_body(s.skip(2)));
    } else if !(c >= ' ') {
        assert(s.len() == 6 && s[0] == '\\' && s[1] == 'u');
        assert(is_hex(s[2]) && is_hex(s[3]) && is_hex(s[4]) && is_hex(s[5]));
        assert(s.skip(6) =~= Seq::<char>::empty());
        assert(is_string_body(s.skip(6)));
    } else {
        assert(s.len() == 1 && s[0] == c);
        assert(s.skip(1) =~= Seq::<char>::empty());
        assert(is_string_body(s.skip(1)));
    }
}

/// The characters of a text, escaped, are the body of a string.
pub proof fn lemma_body(text: Seq<char>)
    ensures
        is_string_body(json_body(text)),
    decreases text.len(),
{
    if text.len() > 0 {
        lemma_body(text.drop_last());
        lemma_escape(text.last());
        lemma_bodies(json_body(text.drop_last()), json_escape(text.last()));
    }
}

/// The literal of a text is a string of the grammar.
pub proof fn lemma_literal(text: Seq<char>)
    ensures
        is_string(json_literal(text)),
        is_value(json_literal(text)),
{
    lemma_body(text);
    let s = json_literal(text);
    assert(s.subrange(1, s.len() - 1) =~= json_body(text));
}

/// A number in decimal digits is a whole number of the grammar.
pub proof fn lemma_decimal(n: nat)
    ensures
        is_number(decimal(n)),
        is_value(decimal(n)),
        decimal(n)[0] == '0' ==> n == 0,
    decreases n,
{
    if n >= 10 {
        lemma_decimal(n / 10);
        let shorter = decimal(n / 10);
        let digits = decimal(n);
        assert(digits == shorter.push(digit(n % 10)));
        assert forall|i: int| 0 <= i < digits.len() implies is_digit(#[trigger] digits[i]) by {
            if i < shorter.len() {
                assert(digits[i] == shorter[i]);
            }
        }
        assert(digits[0] == shorter[0]);
    }
}

/// The lines of an array of strings, without the last line break and
/// behind a line break of their own, are elements.
pub proof fn lemma_array_lines(items: Seq<Seq<char>>)
    requires
        items.len() > 0,
    ensures
        array_lines(items, "    "@).len() > 0,
        array_lines(items, "    "@).last() == '\n',
        is_elements(seq!['\n'] + array_lines(items, "    "@).drop_last()),
    decreases items.len(),
{
    reveal_strlit("    ");
    reveal_strlit("\n");
    reveal_strlit(",\n");
    let indent = "    "@;
    let lines = array_lines(items, indent);
    let literal = json_literal(items.last());
    lemma_literal(items.last());
    let before = seq!['\n'] + indent;
    lemma_element(before, literal, Seq::empty());
    let element = before + literal + Seq::<char>::empty();
    if items.len() == 1 {
        assert(seq!['\n'] + lines.drop_last() =~= element);
    } else {
        let earlier = items.drop_last();
        lemma_array_lines(earlier);
        let shorter = seq!['\n'] + array_lines(earlier, indent).drop_last();
        lemma_elements_then(shorter, element);
        assert(seq!['\n'] + lines.drop_last() =~= shorter + seq![','] + element);
    }
}

/// An array of strings as the documents hold it is a value.
pub proof fn lemma_array_text(items: Seq<Seq<char>>)
    ensures
        is_value(array_text(items)),
{
    reveal_strlit("[]");
    reveal_strlit("[\n");
    reveal_strlit("  ]");
    if items.len() == 0 {
        lemma_array(Seq::empty());
        assert(array_text(items) =~= seq!['['] + Seq::<char>::empty() + seq![']']);
    } else {
        lemma_array_lines(items);
        let lines = array_lines(items, "    "@);
        let elements = seq!['\n'] + lines.drop_last();
        let tail = seq!['\n', ' ', ' '];
        lemma_elements_then_blank(elements, tail);
        lemma_array(elements + tail);
        assert(array_text(items) =~= seq!['['] + (elements + tail) + seq![']']);
    }
}

/// A name between quotes.
pub open spec fn quote(name: Seq<char>) -> Seq<char> {
    seq!['"'] + name + seq!['"']
}

/// The beginning of a member as the documents write it: the name behind
/// white space, a colon and a space.
pub open spec fn member_head(before: Seq<char>, name: Seq<char>) -> Seq<char> {
    before + name + seq![':', ' ']
}

/// A name of plain characters, between quotes, is a string.
pub proof fn lemma_quote(name: Seq<char>)
    requires
        forall|i: int| 0 <= i < name.len() ==> crate::grammar::is_plain(#[trigger] name[i]),
    ensures
        is_string(quote(name)),
{
    let s = quote(name);
    assert forall|i: int| 1 <= i < s.len() - 1 implies crate::grammar::is_plain(
        #[trigger] s[i],
    ) by {
        assert(s[i] == name[i - 1]);
    }
    lemma_plain_string(s);
}

/// A member as the documents write it is a member.
pub proof fn lemma_named(before: Seq<char>, name: Seq<char>, value: Seq<char>)
    requires
        is_blank(before),
        is_string(name),
        is_value(value),
    ensures
        is_member(member_head(before, name) + value),
        is_members(member_head(before, name) + value),
{
    let element = seq![' '] + value + Seq::<char>::empty();
    lemma_element(seq![' '], value, Seq::empty());
    lemma_member(before, name, Seq::empty(), element);
    assert(member_head(before, name) + value =~= before + name + Seq::<char>::empty() + seq![
        ':',
    ] + element);
}

/// The white space of the documents is white space.
proof fn lemma_blanks()
    ensures
        is_blank("\n"@),
        is_blank("\n  "@),
        is_blank("\n    "@),
        is_blank("\n      "@),
{
    reveal_strlit("\n");
    reveal_strlit("\n  ");
    reveal_strlit("\n    ");
    reveal_strlit("\n      ");
}

/// The names of the result document are strings.
proof fn lemma_result_names()
    ensures
        is_string(quote("tests"@)),
        is_string(quote("sources"@)),
        is_string(quote("stats"@)),
        is_string(quote("total_tests"@)),
        is_string(quote("affected_tests"@)),
        is_string(quote("total_sources"@)),
        is_string(quote("affected_sources"@)),
{
    reveal_strlit("tests");
    reveal_strlit("sources");
    reveal_strlit("stats");
    reveal_strlit("total_tests");
    reveal_strlit("affected_tests");
    reveal_strlit("total_sources");
    reveal_strlit("affected_sources");
    lemma_quote("tests"@);
    lemma_quote("sources"@);
    lemma_quote("stats"@);
    lemma_quote("total_tests"@);
    lemma_quote("affected_tests"@);
    lemma_quote("total_sources"@);
    lemma_quote("affected_sources"@);
}

/// How the beginning of the result document is made up.
proof fn lemma_tests_head()
    ensures
        "{\n  \"tests\": "@ == seq!['{'] + member_head("\n  "@, quote("tests"@)),
{
    reveal_strlit("{\n  \"tests\": ");
    reveal_strlit("\n  ");
    reveal_strlit("tests");
    assert("{\n  \"tests\": "@ =~= seq!['{'] + member_head("\n  "@, quote("tests"@)));
}

/// How what stands before the sources is made up.
proof fn lemma_sources_head()
    ensures
        ",\n  \"sources\": "@ == seq![','] + member_head("\n  "@, quote("sources"@)),
{
    reveal_strlit(",\n  \"sources\": ");
    reveal_strlit("\n  ");
    reveal_strlit("sources");
    assert(",\n  \"sources\": "@ =~= seq![','] + member_head("\n  "@, quote("sources"@)));
}

/// How what stands before the first count is made up.
proof fn lemma_stats_head()
    ensures
        ",\n  \"stats\": {\n    \"total_tests\": "@ == seq![','] + member_head(
            "\n  "@,
            quote("stats"@),
        ) + seq!['{'] + member_head("\n    "@, quote("total_tests"@)),
{
    reveal_strlit(",\n  \"stats\": {\n    \"total_tests\": ");
    reveal_strlit("\n  ");
    reveal_strlit("stats");
    reveal_strlit("\n    ");
    reveal_strlit("total_tests");
    assert(",\n  \"stats\": {\n    \"total_tests\": "@ =~= seq![','] + member_head(
        "\n  "@,
        quote("stats"@),
    ) + seq!['{'] + member_head("\n    "@, quote("total_tests"@)));
}

/// How what stands before the other counts is made up.
proof fn lemma_count_heads()
    ensures
        ",\n    \"affected_tests\": "@ == seq![','] + member_head("\n    "@, quote("affected_tests"@)),
        ",\n    \"total_sources\": "@ == seq![','] + member_head("\n    "@, quote("total_sources"@)),
        ",\n    \"affected_sources\": "@ == seq![','] + member_head(
            "\n    "@,
            quote("affected_sources"@),
        ),
{
    reveal_strlit("\n    ");
    assert(",\n    \"affected_tests\": "@ =~= seq![','] + member_head(
        "\n    "@,
        quote("affected_tests"@),
    )) by {
        reveal_strlit(",\n    \"affected_tests\": ");
        reveal_strlit("affected_tests");
    }
    assert(",\n    \"total_sources\": "@ =~= seq![','] + member_head(
        "\n    "@,
        quote("total_sources"@),
    )) by {
        reveal_strlit(",\n    \"total_sources\": ");
        reveal_strlit("total_sources");
    }
    assert(",\n    \"affected_sources\": "@ =~= seq![','] + member_head(
        "\n    "@,
        quote("affected_sources"@),
    )) by {
        reveal_strlit(",\n    \"affected_sources\": ");
        reveal_strlit("affected_sources");
    }
}

/// How the end of the result document is made up.
proof fn lemma_result_end()
    ensures
        "\n  }\n}"@ == "\n  "@ + seq!['}'] + "\n"@ + seq!['}'],
{
    reveal_strlit("\n  }\n}");
    reveal_strlit("\n  ");
    reveal_strlit("\n");
    assert("\n  }\n}"@ =~= "\n  "@ + seq!['}'] + "\n"@ + seq!['}']);
}

/// The four counts of a result, written as the members of an object.
pub open spec fn count_members(total_tests: nat, tests: nat, total_sources: nat, sources: nat) -> Seq<
    char,
> {
    member_head("\n    "@, quote("total_tests"@)) + decimal(total_tests) + seq![','] + (member_head(
        "\n    "@,
        quote("affected_tests"@),
    ) + decimal(tests)) + seq![','] + (member_head("\n    "@, quote("total_sources"@)) + decimal(
        total_sources,
    )) + seq![','] + (member_head("\n    "@, quote("affected_sources"@)) + decimal(sources))
}

/// The four counts are members.
proof fn lemma_count_members(total_tests: nat, tests: nat, total_sources: nat, sources: nat)
    ensures
        is_members(count_members(total_tests, tests, total_sources, sources)),
{
    lemma_blanks();
    lemma_result_names();
    lemma_decimal(total_tests);
    lemma_decimal(tests);
    lemma_decimal(total_sources);
    lemma_decimal(sources);
    let before = "\n    "@;
    let m1 = member_head(before, quote("total_tests"@)) + decimal(total_tests);
    let m2 = member_head(before, quote("affected_tests"@)) + decimal(tests);
    let m3 = member_head(before, quote("total_sources"@)) + decimal(total_sources);
    let m4 = member_head(before, quote("affected_sources"@)) + decimal(sources);
    lemma_named(before, quote("total_tests"@), decimal(total_tests));
    lemma_named(before, quote("affected_tests"@), decimal(tests));
    lemma_named(before, quote("total_sources"@), decimal(total_sources));
    lemma_named(before, quote("affected_sources"@), decimal(sources));
    lemma_members_then(m1, m2);
    lemma_members_then(m1 + seq![','] + m2, m3);
    lemma_members_then(m1 + seq![','] + m2 + seq![','] + m3, m4);
}

/// The members of the result document.
pub open spec fn result_members(
    tests: Seq<Seq<char>>,
    sources: Seq<Seq<char>>,
    total_tests: nat,
    total_sources: nat,
) -> Seq<char> {
    member_head("\n  "@, quote("tests"@)) + array_text(tests) + seq![','] + (member_head(
        "\n  "@,
        quote("sources"@),
    ) + array_text(sources)) + seq![','] + (member_head("\n  "@, quote("stats"@)) + (seq!['{'] + (
    count_members(total_tests, tests.len(), total_sources, sources.len()) + "\n  "@) + seq![
        '}',
    ]))
}

/// The members of the result document are members.
proof fn lemma_result_members(
    tests: Seq<Seq<char>>,
    sources: Seq<Seq<char>>,
    total_tests: nat,
    total_sources: nat,
)
    ensures
        is_members(result_members(tests, sources, total_tests, total_sources)),
{
    lemma_blanks();
    lemma_result_names();
    lemma_array_text(tests);
    lemma_array_text(sources);
    let counts = count_members(total_tests, tests.len(), total_sources, sources.len());
    lemma_count_members(total_tests, tests.len(), total_sources, sources.len());
    lemma_members_then_blank(counts, "\n  "@);
    lemma_object(counts + "\n  "@);
    let stats = seq!['{'] + (counts + "\n  "@) + seq!['}'];
    let before = "\n  "@;
    let m1 = member_head(before, quote("tests"@)) + array_text(tests);
    let m2 = member_head(before, quote("sources"@)) + array_text(sources);
    let m3 = member_head(before, quote("stats"@)) + stats;
    lemma_named(before, quote("tests"@), array_text(tests));
    lemma_named(before, quote("sources"@), array_text(sources));
    lemma_named(before, quote("stats"@), stats);
    lemma_members_then(m1, m2);
    lemma_members_then(m1 + seq![','] + m2, m3);
}

/// Three texts in a row can be read from the left or from the right.
proof fn lemma_regroup(a: Seq<char>, b: Seq<char>, c: Seq<char>)
    ensures
        a + b + c == a + (b + c),
{
    assert(a + b + c =~= a + (b + c));
}

/// The counts as the document writes them are the four members.
proof fn lemma_count_parts(total_tests: nat, tests: nat, total_sources: nat, sources: nat)
    ensures
        member_head("\n    "@, quote("total_tests"@)) + decimal(total_tests)
            + ",\n    \"affected_tests\": "@ + decimal(tests) + ",\n    \"total_sources\": "@
            + decimal(total_sources) + ",\n    \"affected_sources\": "@ + decimal(sources)
            == count_members(total_tests, tests, total_sources, sources),
{
    lemma_count_heads();
    let c1 = member_head("\n    "@, quote("total_tests"@));
    let c2 = member_head("\n    "@, quote("affected_tests"@));
    let c3 = member_head("\n    "@, quote("total_sources"@));
    let c4 = member_head("\n    "@, quote("affected_sources"@));
    let d1 = decimal(total_tests);
    let d2 = decimal(tests);
    let d3 = decimal(total_sources);
    let d4 = decimal(sources);
    let comma = seq![','];
    let r1 = c1 + d1;
    lemma_regroup(r1, comma, c2);
    lemma_regroup(r1 + comma, c2, d2);
    let r2 = r1 + comma + (c2 + d2);
    assert(r1 + (comma + c2) + d2 == r2);
    lemma_regroup(r2, comma, c3);
    lemma_regroup(r2 + comma, c3, d3);
    let r3 = r2 + comma + (c3 + d3);
    assert(r2 + (comma + c3) + d3 == r3);
    lemma_regroup(r3, comma, c4);
    lemma_regroup(r3 + comma, c4, d4);
    let r4 = r3 + comma + (c4 + d4);
    assert(r3 + (comma + c4) + d4 == r4);
}

/// The beginning of the result document: a brace and two members.
proof fn lemma_document_lists(tests: Seq<Seq<char>>, sources: Seq<Seq<char>>)
    ensures
        "{\n  \"tests\": "@ + array_text(tests) + ",\n  \"sources\": "@ + array_text(sources)
            == seq!['{'] + (member_head("\n  "@, quote("tests"@)) + array_text(tests) + seq![','] + (
        member_head("\n  "@, quote("sources"@)) + array_text(sources))),
{
    lemma_tests_head();
    lemma_sources_head();
    let a1 = array_text(tests);
    let a2 = array_text(sources);
    let h1 = member_head("\n  "@, quote("tests"@));
    let h2 = member_head("\n  "@, quote("sources"@));
    let open = seq!['{'];
    let comma = seq![','];
    assert((open + h1) + a1 + (comma + h2) + a2 =~= open + (h1 + a1 + comma + (h2 + a2)));
}

/// The counts behind what stands before them.
proof fn lemma_document_counts(
    lists: Seq<char>,
    total_tests: nat,
    tests: nat,
    total_sources: nat,
    sources: nat,
)
    ensures
        lists + ",\n  \"stats\": {\n    \"total_tests\": "@ + decimal(total_tests)
            + ",\n    \"affected_tests\": "@ + decimal(tests) + ",\n    \"total_sources\": "@
            + decimal(total_sources) + ",\n    \"affected_sources\": "@ + decimal(sources) == lists
            + (seq![','] + member_head("\n  "@, quote("stats"@)) + seq!['{']) + count_members(
            total_tests,
            tests,
            total_sources,
            sources,
        ),
{
    lemma_stats_head();
    lemma_count_parts(total_tests, tests, total_sources, sources);
    let d1 = decimal(total_tests);
    let d2 = decimal(tests);
    let d3 = decimal(total_sources);
    let d4 = decimal(sources);
    let t2 = ",\n    \"affected_tests\": "@;
    let t3 = ",\n    \"total_sources\": "@;
    let t4 = ",\n    \"affected_sources\": "@;
    let c1 = member_head("\n    "@, quote("total_tests"@));
    let before = lists + (seq![','] + member_head("\n  "@, quote("stats"@)) + seq!['{']);
    assert(lists + ",\n  \"stats\": {\n    \"total_tests\": "@ =~= before + c1);
    lemma_regroup(before, c1, d1);
    let r1 = c1 + d1;
    lemma_regroup(before, r1, t2);
    lemma_regroup(before, r1 + t2, d2);
    let r2 = r1 + t2 + d2;
    lemma_regroup(before, r2, t3);
    lemma_regroup(before, r2 + t3, d3);
    let r3 = r2 + t3 + d3;
    lemma_regroup(before, r3, t4);
    lemma_regroup(before, r3 + t4, d4);
}

/// An object around three members, the last of which is an object.
proof fn lemma_nested(
    first: Seq<char>,
    head: Seq<char>,
    inner: Seq<char>,
    blank: Seq<char>,
    end: Seq<char>,
)
    ensures
        seq!['{'] + first + (seq![','] + head + seq!['{']) + inner + (blank + seq!['}'] + end
            + seq!['}']) == seq!['{'] + (first + seq![','] + (head + (seq!['{'] + (inner + blank)
            + seq!['}'])) + end) + seq!['}'],
{
    assert(seq!['{'] + first + (seq![','] + head + seq!['{']) + inner + (blank + seq!['}'] + end
        + seq!['}']) =~= seq!['{'] + (first + seq![','] + (head + (seq!['{'] + (inner + blank)
        + seq!['}'])) + end) + seq!['}']);
}

/// The result document is an object around its members.
proof fn lemma_document_parts(
    tests: Seq<Seq<char>>,
    sources: Seq<Seq<char>>,
    total_tests: nat,
    total_sources: nat,
)
    ensures
        json_document(tests, sources, total_tests, total_sources) == seq!['{'] + (result_members(
            tests,
            sources,
            total_tests,
            total_sources,
        ) + "\n"@) + seq!['}'],
{
    let lists = "{\n  \"tests\": "@ + array_text(tests) + ",\n  \"sources\": "@ + array_text(
        sources,
    );
    let first = member_head("\n  "@, quote("tests"@)) + array_text(tests) + seq![','] + (
    member_head("\n  "@, quote("sources"@)) + array_text(sources));
    let counts = count_members(total_tests, tests.len(), total_sources, sources.len());
    lemma_document_lists(tests, sources);
    lemma_document_counts(lists, total_tests, tests.len(), total_sources, sources.len());
    lemma_result_end();
    lemma_nested(first, member_head("\n  "@, quote("stats"@)), counts, "\n  "@, "\n"@);
}

/// The document of a result is a JSON text.
pub proof fn lemma_json_document(
    tests: Seq<Seq<char>>,
    sources: Seq<Seq<char>>,
    total_tests: nat,
    total_sources: nat,
)
    ensures
        is_json(json_document(tests, sources, total_tests, total_sources)),
{
    let members = result_members(tests, sources, total_tests, total_sources);
    let document = json_document(tests, sources, total_tests, total_sources);
    lemma_blanks();
    lemma_result_members(tests, sources, total_tests, total_sources);
    lemma_members_then_blank(members, "\n"@);
    lemma_object(members + "\n"@);
    lemma_document_parts(tests, sources, total_tests, total_sources);
    lemma_element(Seq::empty(), document, Seq::empty());
    assert(document =~= Seq::<char>::empty() + document + Seq::<char>::empty());
}

/// The names of the threshold document are strings.
proof fn lemma_threshold_names()
    ensures
        is_string(quote("coverageThreshold"@)),
        is_string(quote("branches"@)),
        is_string(quote("lines"@)),
        is_string(quote("functions"@)),
        is_string(quote("statements"@)),
{
    reveal_strlit("coverageThreshold");
    reveal_strlit("branches");
    reveal_strlit("lines");
    reveal_strlit("functions");
    reveal_strlit("statements");
    lemma_quote("coverageThreshold"@);
    lemma_quote("branches"@);
    lemma_quote("lines"@);
    lemma_quote("functions"@);
    lemma_quote("statements"@);
}

/// The four limits of a threshold, written as the members of an object.
pub open spec fn limit_members(threshold: CoverageThreshold) -> Seq<char> {
    member_head("\n      "@, quote("branches"@)) + decimal(threshold.branches as nat) + seq![
        ',',
    ] + (member_head("\n      "@, quote("lines"@)) + decimal(threshold.lines as nat)) + seq![','] + (
    member_head("\n      "@, quote("functions"@)) + decimal(threshold.functions as nat)) + seq![
        ',',
    ] + (member_head("\n      "@, quote("statements"@)) + decimal(threshold.statements as nat))
}

/// The four limits are members.
proof fn lemma_limit_members(threshold: CoverageThreshold)
    ensures
        is_members(limit_members(threshold)),
{
    lemma_blanks();
    lemma_threshold_names();
    let d1 = decimal(threshold.branches as nat);
    let d2 = decimal(threshold.lines as nat);
    let d3 = decimal(threshold.functions as nat);
    let d4 = decimal(threshold.statements as nat);
    lemma_decimal(threshold.branches as nat);
    lemma_decimal(threshold.lines as nat);
    lemma_decimal(threshold.functions as nat);
    lemma_decimal(threshold.statements as nat);
    let before = "\n      "@;
    let m1 = member_head(before, quote("branches"@)) + d1;
    let m2 = member_head(before, quote("lines"@)) + d2;
    let m3 = member_head(before, quote("functions"@)) + d3;
    let m4 = member_head(before, quote("statements"@)) + d4;
    lemma_named(before, quote("branches"@), d1);
    lemma_named(before, quote("lines"@), d2);
    lemma_named(before, quote("functions"@), d3);
    lemma_named(before, quote("statements"@), d4);
    lemma_members_then(m1, m2);
    lemma_members_then(m1 + seq![','] + m2, m3);
    lemma_members_then(m1 + seq![','] + m2 + seq![','] + m3, m4);
}

/// How what stands before the limits is made up.
proof fn lemma_limit_heads()
    ensures
        ": {\n      \"branches\": "@ == seq![':', ' '] + seq!['{'] + member_head(
            "\n      "@,
            quote("branches"@),
        ),
        ",\n      \"lines\": "@ == seq![','] + member_head("\n      "@, quote("lines"@)),
        ",\n      \"functions\": "@ == seq![','] + member_head("\n      "@, quote("functions"@)),
        ",\n      \"statements\": "@ == seq![','] + member_head("\n      "@, quote("statements"@)),
{
    reveal_strlit("\n      ");
    assert(": {\n      \"branches\": "@ =~= seq![':', ' '] + seq!['{'] + member_head(
        "\n      "@,
        quote("branches"@),
    )) by {
        reveal_strlit(": {\n      \"branches\": ");
        reveal_strlit("branches");
    }
    assert(",\n      \"lines\": "@ =~= seq![','] + member_head("\n      "@, quote("lines"@))) by {
        reveal_strlit(",\n      \"lines\": ");
        reveal_strlit("lines");
    }
    assert(",\n      \"functions\": "@ =~= seq![','] + member_head(
        "\n      "@,
        quote("functions"@),
    )) by {
        reveal_strlit(",\n      \"functions\": ");
        reveal_strlit("functions");
    }
    assert(",\n      \"statements\": "@ =~= seq![','] + member_head(
        "\n      "@,
        quote("statements"@),
    )) by {
        reveal_strlit(",\n      \"statements\": ");
        reveal_strlit("statements");
    }
}

/// The limits as the document writes them are the four members.
proof fn lemma_limit_parts(threshold: CoverageThreshold)
    ensures
        member_head("\n      "@, quote("branches"@)) + decimal(threshold.branches as nat)
            + ",\n      \"lines\": "@ + decimal(threshold.lines as nat)
            + ",\n      \"functions\": "@ + decimal(threshold.functions as nat)
            + ",\n      \"statements\": "@ + decimal(threshold.statements as nat)
            == limit_members(threshold),
{
    lemma_limit_heads();
    let c1 = member_head("\n      "@, quote("branches"@));
    let c2 = member_head("\n      "@, quote("lines"@));
    let c3 = member_head("\n      "@, quote("functions"@));
    let c4 = member_head("\n      "@, quote("statements"@));
    let d1 = decimal(threshold.branches as nat);
    let d2 = decimal(threshold.lines as nat);
    let d3 = decimal(threshold.functions as nat);
    let d4 = decimal(threshold.statements as nat);
    let comma = seq![','];
    let r1 = c1 + d1;
    lemma_regroup(r1, comma, c2);
    lemma_regroup(r1 + comma, c2, d2);
    let r2 = r1 + comma + (c2 + d2);
    assert(r1 + (comma + c2) + d2 == r2);
    lemma_regroup(r2, comma, c3);
    lemma_regroup(r2 + comma, c3, d3);
    let r3 = r2 + comma + (c3 + d3);
    assert(r2 + (comma + c3) + d3 == r3);
    lemma_regroup(r3, comma, c4);
    lemma_regroup(r3 + comma, c4, d4);
    let r4 = r3 + comma + (c4 + d4);
    assert(r3 + (comma + c4) + d4 == r4);
}

/// The member of the threshold document for one source, behind the line
/// break that stands before it.
pub open spec fn entry_member(path: Seq<char>, threshold: CoverageThreshold) -> Seq<char> {
    member_head("\n    "@, json_literal(path)) + (seq!['{'] + (limit_members(threshold)
        + "\n    "@) + seq!['}'])
}

/// What stands before the limits of an entry.
pub open spec fn entry_head(path: Seq<char>) -> Seq<char> {
    "\n"@ + "    "@ + json_literal(path) + (seq![':', ' '] + seq!['{'])
}

/// An entry behind a line break: its head, the limits and its end.
proof fn lemma_entry_parts(path: Seq<char>, threshold: CoverageThreshold)
    ensures
        "\n"@ + threshold_entry(path, threshold) == entry_head(path) + limit_members(threshold)
            + "\n    }"@,
{
    lemma_limit_parts(threshold);
    lemma_limit_heads();
    let limits = limit_members(threshold);
    let literal = json_literal(path);
    let c1 = member_head("\n      "@, quote("branches"@));
    let d1 = decimal(threshold.branches as nat);
    let d2 = decimal(threshold.lines as nat);
    let d3 = decimal(threshold.functions as nat);
    let d4 = decimal(threshold.statements as nat);
    let t2 = ",\n      \"lines\": "@;
    let t3 = ",\n      \"functions\": "@;
    let t4 = ",\n      \"statements\": "@;
    let before = entry_head(path);
    let inner = "    "@ + literal + ": {\n      \"branches\": "@;
    assert("\n"@ + inner =~= before + c1);
    let e = threshold_entry(path, threshold);
    assert(e == inner + d1 + t2 + d2 + t3 + d3 + t4 + d4 + "\n    }"@);
    lemma_regroup("\n"@, inner, d1);
    lemma_regroup("\n"@, inner + d1, t2);
    lemma_regroup("\n"@, inner + d1 + t2, d2);
    lemma_regroup("\n"@, inner + d1 + t2 + d2, t3);
    lemma_regroup("\n"@, inner + d1 + t2 + d2 + t3, d3);
    lemma_regroup("\n"@, inner + d1 + t2 + d2 + t3 + d3, t4);
    lemma_regroup("\n"@, inner + d1 + t2 + d2 + t3 + d3 + t4, d4);
    lemma_regroup("\n"@, inner + d1 + t2 + d2 + t3 + d3 + t4 + d4, "\n    }"@);
    assert("\n"@ + e == before + c1 + d1 + t2 + d2 + t3 + d3 + t4 + d4 + "\n    }"@);
    lemma_regroup(before, c1, d1);
    let r1 = c1 + d1;
    lemma_regroup(before, r1, t2);
    lemma_regroup(before, r1 + t2, d2);
    let r2 = r1 + t2 + d2;
    lemma_regroup(before, r2, t3);
    lemma_regroup(before, r2 + t3, d3);
    let r3 = r2 + t3 + d3;
    lemma_regroup(before, r3, t4);
    lemma_regroup(before, r3 + t4, d4);
    assert(before + c1 + d1 + t2 + d2 + t3 + d3 + t4 + d4 == before + limits);
}

/// The head of an entry, the limits and its end are the member of the entry.
proof fn lemma_entry_text(path: Seq<char>, threshold: CoverageThreshold)
    ensures
        entry_head(path) + limit_members(threshold) + "\n    }"@ == entry_member(path, threshold),
{
    reveal_strlit("\n    }");
    reveal_strlit("\n    ");
    reveal_strlit("\n");
    reveal_strlit("    ");
    assert("\n    }"@ =~= "\n    "@ + seq!['}']);
    assert("\n"@ + "    "@ =~= "\n    "@);
    let limits = limit_members(threshold);
    let literal = json_literal(path);
    assert(entry_head(path) =~= member_head("\n    "@, literal) + seq!['{']);
    lemma_regroup(member_head("\n    "@, literal), seq!['{'], limits);
    lemma_regroup(member_head("\n    "@, literal), seq!['{'] + limits, "\n    "@ + seq!['}']);
    assert(seq!['{'] + limits + ("\n    "@ + seq!['}']) =~= seq!['{'] + (limits + "\n    "@) + seq![
        '}',
    ]);
}

/// The entry of a source, behind a line break, is a member.
proof fn lemma_entry(path: Seq<char>, threshold: CoverageThreshold)
    ensures
        "\n"@ + threshold_entry(path, threshold) == entry_member(path, threshold),
        is_member(entry_member(path, threshold)),
{
    lemma_blanks();
    lemma_limit_members(threshold);
    let limits = limit_members(threshold);
    lemma_members_then_blank(limits, "\n    "@);
    lemma_object(limits + "\n    "@);
    let object = seq!['{'] + (limits + "\n    "@) + seq!['}'];
    lemma_literal(path);
    lemma_named("\n    "@, json_literal(path), object);
    lemma_entry_parts(path, threshold);
    lemma_entry_text(path, threshold);
}

/// The entries of the sources, each behind a line break and with commas
/// between them, are members.
proof fn lemma_entries(paths: Seq<Seq<char>>, threshold: CoverageThreshold)
    requires
        paths.len() > 0,
    ensures
        is_members("\n"@ + joined(threshold_entries(paths, threshold), ",\n"@)),
    decreases paths.len(),
{
    let entries = threshold_entries(paths, threshold);
    let last = threshold_entry(paths.last(), threshold);
    lemma_entry(paths.last(), threshold);
    assert(entries == threshold_entries(paths.drop_last(), threshold).push(last));
    if paths.len() == 1 {
        assert(threshold_entries(paths.drop_last(), threshold) =~= Seq::<Seq<char>>::empty());
        assert(entries.len() == 1 && entries[0] == last);
        assert(joined(entries, ",\n"@) == last);
    } else {
        let earlier = paths.drop_last();
        lemma_entries(earlier, threshold);
        lemma_entries_len(earlier, threshold);
        let before = threshold_entries(earlier, threshold);
        assert(entries.drop_last() =~= before);
        assert(entries.last() == last);
        let shorter = "\n"@ + joined(before, ",\n"@);
        lemma_members_then(shorter, "\n"@ + last);
        assert("\n"@ + joined(entries, ",\n"@) =~= shorter + seq![','] + ("\n"@ + last)) by {
            reveal_strlit(",\n");
            reveal_strlit("\n");
            assert(",\n"@ =~= seq![','] + "\n"@);
            assert(joined(entries, ",\n"@) == joined(before, ",\n"@) + ",\n"@ + last);
        }
    }
}

/// There is an entry for each source.
proof fn lemma_entries_len(paths: Seq<Seq<char>>, threshold: CoverageThreshold)
    ensures
        threshold_entries(paths, threshold).len() == paths.len(),
    decreases paths.len(),
{
    if paths.len() > 0 {
        lemma_entries_len(paths.drop_last(), threshold);
    }
}

/// Sources without repetitions are no fewer than one where there are any.
proof fn lemma_distinct_len(paths: Seq<Seq<char>>)
    ensures
        paths.len() > 0 ==> crate::output::distinct(paths).len() > 0,
    decreases paths.len(),
{
    if paths.len() > 1 {
        lemma_distinct_len(paths.drop_last());
    }
}

/// The threshold document without sources is an object with one member.
proof fn lemma_threshold_empty()
    ensures
        "{\n  \"coverageThreshold\": {}\n}"@ == seq!['{'] + (member_head(
            "\n  "@,
            quote("coverageThreshold"@),
        ) + (seq!['{'] + Seq::<char>::empty() + seq!['}']) + "\n"@) + seq!['}'],
{
    reveal_strlit("{\n  \"coverageThreshold\": {}\n}");
    reveal_strlit("\n  ");
    reveal_strlit("coverageThreshold");
    reveal_strlit("\n");
    assert("{\n  \"coverageThreshold\": {}\n}"@ =~= seq!['{'] + (member_head(
        "\n  "@,
        quote("coverageThreshold"@),
    ) + (seq!['{'] + Seq::<char>::empty() + seq!['}']) + "\n"@) + seq!['}']);
}

/// How the beginning of the threshold document is made up.
proof fn lemma_threshold_head()
    ensures
        "{\n  \"coverageThreshold\": {\n"@ == seq!['{'] + member_head(
            "\n  "@,
            quote("coverageThreshold"@),
        ) + seq!['{'] + "\n"@,
{
    reveal_strlit("{\n  \"coverageThreshold\": {\n");
    reveal_strlit("\n  ");
    reveal_strlit("coverageThreshold");
    reveal_strlit("\n");
    assert("{\n  \"coverageThreshold\": {\n"@ =~= seq!['{'] + member_head(
        "\n  "@,
        quote("coverageThreshold"@),
    ) + seq!['{'] + "\n"@);
}

/// The threshold document with entries is an object with one member.
proof fn lemma_threshold_parts(entries: Seq<char>)
    ensures
        "{\n  \"coverageThreshold\": {\n"@ + entries + "\n  }\n}"@ == seq!['{'] + (member_head(
            "\n  "@,
            quote("coverageThreshold"@),
        ) + (seq!['{'] + ("\n"@ + entries + "\n  "@) + seq!['}']) + "\n"@) + seq!['}'],
{
    lemma_threshold_head();
    lemma_result_end();
    let head = member_head("\n  "@, quote("coverageThreshold"@));
    let open = seq!['{'];
    let close = seq!['}'];
    let text = "{\n  \"coverageThreshold\": {\n"@ + entries + "\n  }\n}"@;
    assert(text == (open + head + open + "\n"@) + entries + ("\n  "@ + close + "\n"@ + close));
    let members = "\n"@ + entries + "\n  "@;
    assert((open + head + open + "\n"@) + entries =~= open + head + open + ("\n"@ + entries));
    assert(open + head + open + ("\n"@ + entries) + ("\n  "@ + close + "\n"@ + close) =~= open
        + head + (open + members + close) + "\n"@ + close);
    assert(open + head + (open + members + close) + "\n"@ + close =~= open + (head + (open
        + members + close) + "\n"@) + close);
}

/// The threshold document is a JSON text.
pub proof fn lemma_threshold_document(sources: Seq<Seq<char>>, threshold: CoverageThreshold)
    ensures
        is_json(threshold_document(sources, threshold)),
{
    lemma_blanks();
    lemma_threshold_names();
    let document = threshold_document(sources, threshold);
    let head = member_head("\n  "@, quote("coverageThreshold"@));
    if sources.len() == 0 {
        lemma_object(Seq::empty());
        let inner = seq!['{'] + Seq::<char>::empty() + seq!['}'];
        lemma_named("\n  "@, quote("coverageThreshold"@), inner);
        lemma_members_then_blank(head + inner, "\n"@);
        lemma_object(head + inner + "\n"@);
        lemma_threshold_empty();
    } else {
        let paths = crate::output::distinct(sources);
        lemma_distinct_len(sources);
        lemma_entries(paths, threshold);
        let entries = joined(threshold_entries(paths, threshold), ",\n"@);
        let members = "\n"@ + entries;
        lemma_members_then_blank(members, "\n  "@);
        lemma_object(members + "\n  "@);
        let inner = seq!['{'] + (members + "\n  "@) + seq!['}'];
        lemma_named("\n  "@, quote("coverageThreshold"@), inner);
        lemma_members_then_blank(head + inner, "\n"@);
        lemma_object(head + inner + "\n"@);
        lemma_threshold_parts(entries);
    }
    lemma_element(Seq::empty(), document, Seq::empty());
    assert(document =~= Seq::<char>::empty() + document + Seq::<char>::empty());
}

} // verus!
