//! A grammar of JSON texts.
//!
//! The grammar covers what the documents of this library are made of:
//! objects, arrays, strings and whole numbers, with white space between
//! them. It leaves out fractions, exponents, signs and the three literal
//! names, so every text that it accepts is a JSON text, though not every
//! JSON text is accepted.

use vstd::prelude::*;

verus! {

/// White space: a space, a line feed, a carriage return or a tab.
pub open spec fn is_space(c: char) -> bool {
    c == ' ' || c == '\n' || c == '\r' || c == '\t'
}

/// Nothing but white space.
pub open spec fn is_blank(s: Seq<char>) -> bool {
    forall|i: int| 0 <= i < s.len() ==> is_space(#[trigger] s[i])
}

/// A decimal digit.
pub open spec fn is_digit(c: char) -> bool {
    '0' <= c <= '9'
}

/// A hexadecimal digit.
pub open spec fn is_hex(c: char) -> bool {
    is_digit(c) || ('a' <= c <= 'f') || ('A' <= c <= 'F')
}

/// A character that may follow a backslash by itself.
pub open spec fn is_escape(c: char) -> bool {
    c == '"' || c == '\\' || c == '/' || c == 'b' || c == 'f' || c == 'n' || c == 'r' || c == 't'
}

/// What may stand between the quotes of a string: characters other than
/// the quote, the backslash and the control characters, and escapes, which
/// are a backslash with one of eight characters or with `u` and four
/// hexadecimal digits.
pub open spec fn is_string_body(s: Seq<char>) -> bool
    decreases s.len(),
{
    if s.len() == 0 {
        true
    } else if s[0] == '\\' {
        if s.len() >= 2 && s[1] == 'u' {
            s.len() >= 6 && is_hex(s[2]) && is_hex(s[3]) && is_hex(s[4]) && is_hex(s[5])
                && is_string_body(s.skip(6))
        } else {
            s.len() >= 2 && is_escape(s[1]) && is_string_body(s.skip(2))
        }
    } else {
        s[0] != '"' && s[0] >= ' ' && is_string_body(s.skip(1))
    }
}

/// A string: a body between quotes.
pub open spec fn is_string(s: Seq<char>) -> bool {
    s.len() >= 2 && s[0] == '"' && s.last() == '"' && is_string_body(s.subrange(1, s.len() - 1))
}

/// A whole number: digits, the first of which is a zero only where it is
/// the only one.
pub open spec fn is_number(s: Seq<char>) -> bool {
    &&& s.len() > 0
    &&& forall|i: int| 0 <= i < s.len() ==> is_digit(#[trigger] s[i])
    &&& s.len() > 1 ==> s[0] != '0'
}

/// An array: brackets around white space or around elements.
pub open spec fn is_array(s: Seq<char>) -> bool
    decreases s.len(), 0nat,
{
    s.len() >= 2 && s[0] == '[' && s.last() == ']' && {
        let inner = s.subrange(1, s.len() - 1);
        is_blank(inner) || is_elements(inner)
    }
}

/// An object: braces around white space or around members.
pub open spec fn is_object(s: Seq<char>) -> bool
    decreases s.len(), 0nat,
{
    s.len() >= 2 && s[0] == '{' && s.last() == '}' && {
        let inner = s.subrange(1, s.len() - 1);
        is_blank(inner) || is_members(inner)
    }
}

/// A value: a string, a number, an array or an object.
pub open spec fn is_value(s: Seq<char>) -> bool
    decreases s.len(), 1nat,
{
    is_string(s) || is_number(s) || is_array(s) || is_object(s)
}

/// An element: a value with white space before and behind it.
pub open spec fn is_element(s: Seq<char>) -> bool
    decreases s.len(), 2nat,
{
    exists|i: int, j: int|
        0 <= i <= j <= s.len() && is_blank(s.take(i)) && is_value(#[trigger] s.subrange(i, j))
            && is_blank(s.skip(j))
}

/// Elements: one element, or several with commas between them.
pub open spec fn is_elements(s: Seq<char>) -> bool
    decreases s.len(), 3nat,
{
    is_element(s) || exists|k: int|
        0 <= k < s.len() && s[k] == ',' && is_element(#[trigger] s.take(k)) && is_elements(
            s.skip(k + 1),
        )
}

/// A member: a string as its name, a colon and an element, with white
/// space around the name.
pub open spec fn is_member(s: Seq<char>) -> bool
    decreases s.len(), 3nat,
{
    exists|i: int, j: int, k: int|
        #![trigger s.subrange(i, j), s.subrange(j, k)]
        0 <= i <= j <= k < s.len() && is_blank(s.take(i)) && is_string(s.subrange(i, j))
            && is_blank(s.subrange(j, k)) && s[k] == ':' && is_element(s.skip(k + 1))
}

/// Members: one member, or several with commas between them.
pub open spec fn is_members(s: Seq<char>) -> bool
    decreases s.len(), 4nat,
{
    is_member(s) || exists|k: int|
        0 <= k < s.len() && s[k] == ',' && is_member(#[trigger] s.take(k)) && is_members(
            s.skip(k + 1),
        )
}

/// A JSON text: an element.
pub open spec fn is_json(s: Seq<char>) -> bool {
    is_element(s)
}

/// A value between white space is an element.
pub proof fn lemma_element(before: Seq<char>, value: Seq<char>, behind: Seq<char>)
    requires
        is_blank(before),
        is_value(value),
        is_blank(behind),
    ensures
        is_element(before + value + behind),
{
    let s = before + value + behind;
    let i = before.len() as int;
    let j = i + value.len();
    assert(s.take(i) =~= before);
    assert(s.subrange(i, j) =~= value);
    assert(s.skip(j) =~= behind);
}

/// A name, a colon and an element are a member.
pub proof fn lemma_member(before: Seq<char>, name: Seq<char>, behind: Seq<char>, element: Seq<char>)
    requires
        is_blank(before),
        is_string(name),
        is_blank(behind),
        is_element(element),
    ensures
        is_member(before + name + behind + seq![':'] + element),
{
    let s = before + name + behind + seq![':'] + element;
    let i = before.len() as int;
    let j = i + name.len();
    let k = j + behind.len();
    assert(s.take(i) =~= before);
    assert(s.subrange(i, j) =~= name);
    assert(s.subrange(j, k) =~= behind);
    assert(s[k] == ':');
    assert(s.skip(k + 1) =~= element);
}

/// White space may follow an element.
pub proof fn lemma_element_then_blank(element: Seq<char>, blank: Seq<char>)
    requires
        is_element(element),
        is_blank(blank),
    ensures
        is_element(element + blank),
{
    let (i, j) = choose|i: int, j: int|
        0 <= i <= j <= element.len() && is_blank(element.take(i)) && is_value(
            #[trigger] element.subrange(i, j),
        ) && is_blank(element.skip(j));
    let s = element + blank;
    assert(s.take(i) =~= element.take(i));
    assert(s.subrange(i, j) =~= element.subrange(i, j));
    assert(s.skip(j) =~= element.skip(j) + blank);
}

/// White space may follow a member.
pub proof fn lemma_member_then_blank(member: Seq<char>, blank: Seq<char>)
    requires
        is_member(member),
        is_blank(blank),
    ensures
        is_member(member + blank),
{
    let (i, j, k) = choose|i: int, j: int, k: int|
        #![trigger member.subrange(i, j), member.subrange(j, k)]
        0 <= i <= j <= k < member.len() && is_blank(member.take(i)) && is_string(
            member.subrange(i, j),
        ) && is_blank(member.subrange(j, k)) && member[k] == ':' && is_element(
            member.skip(k + 1),
        );
    let s = member + blank;
    lemma_element_then_blank(member.skip(k + 1), blank);
    assert(s.take(i) =~= member.take(i));
    assert(s.subrange(i, j) =~= member.subrange(i, j));
    assert(s.subrange(j, k) =~= member.subrange(j, k));
    assert(s.skip(k + 1) =~= member.skip(k + 1) + blank);
}

/// One more element behind a comma.
pub proof fn lemma_elements_then(elements: Seq<char>, element: Seq<char>)
    requires
        is_elements(elements),
        is_element(element),
    ensures
        is_elements(elements + seq![','] + element),
    decreases elements.len(),
{
    let s = elements + seq![','] + element;
    if is_element(elements) {
        let k = elements.len() as int;
        assert(s.take(k) =~= elements);
        assert(s.skip(k + 1) =~= element);
        assert(is_elements(element));
        assert(s[k] == ',' && is_element(s.take(k)) && is_elements(s.skip(k + 1)));
    } else {
        let k = choose|k: int|
            0 <= k < elements.len() && elements[k] == ',' && is_element(
                #[trigger] elements.take(k),
            ) && is_elements(elements.skip(k + 1));
        lemma_elements_then(elements.skip(k + 1), element);
        assert(s.take(k) =~= elements.take(k));
        assert(s.skip(k + 1) =~= elements.skip(k + 1) + seq![','] + element);
        assert(s[k] == ',' && is_element(s.take(k)) && is_elements(s.skip(k + 1)));
    }
}

/// One more member behind a comma.
pub proof fn lemma_members_then(members: Seq<char>, member: Seq<char>)
    requires
        is_members(members),
        is_member(member),
    ensures
        is_members(members + seq![','] + member),
    decreases members.len(),
{
    let s = members + seq![','] + member;
    if is_member(members) {
        let k = members.len() as int;
        assert(s.take(k) =~= members);
        assert(s.skip(k + 1) =~= member);
        assert(is_members(member));
        assert(s[k] == ',' && is_member(s.take(k)) && is_members(s.skip(k + 1)));
    } else {
        let k = choose|k: int|
            0 <= k < members.len() && members[k] == ',' && is_member(#[trigger] members.take(k))
                && is_members(members.skip(k + 1));
        lemma_members_then(members.skip(k + 1), member);
        assert(s.take(k) =~= members.take(k));
        assert(s.skip(k + 1) =~= members.skip(k + 1) + seq![','] + member);
        assert(s[k] == ',' && is_member(s.take(k)) && is_members(s.skip(k + 1)));
    }
}

/// White space may follow elements.
pub proof fn lemma_elements_then_blank(elements: Seq<char>, blank: Seq<char>)
    requires
        is_elements(elements),
        is_blank(blank),
    ensures
        is_elements(elements + blank),
    decreases elements.len(),
{
    let s = elements + blank;
    if is_element(elements) {
        lemma_element_then_blank(elements, blank);
    } else {
        let k = choose|k: int|
            0 <= k < elements.len() && elements[k] == ',' && is_element(
                #[trigger] elements.take(k),
            ) && is_elements(elements.skip(k + 1));
        lemma_elements_then_blank(elements.skip(k + 1), blank);
        assert(s.take(k) =~= elements.take(k));
        assert(s.skip(k + 1) =~= elements.skip(k + 1) + blank);
        assert(s[k] == ',' && is_element(s.take(k)) && is_elements(s.skip(k + 1)));
    }
}

/// White space may follow members.
pub proof fn lemma_members_then_blank(members: Seq<char>, blank: Seq<char>)
    requires
        is_members(members),
        is_blank(blank),
    ensures
        is_members(members + blank),
    decreases members.len(),
{
    let s = members + blank;
    if is_member(members) {
        lemma_member_then_blank(members, blank);
    } else {
        let k = choose|k: int|
            0 <= k < members.len() && members[k] == ',' && is_member(#[trigger] members.take(k))
                && is_members(members.skip(k + 1));
        lemma_members_then_blank(members.skip(k + 1), blank);
        assert(s.take(k) =~= members.take(k));
        assert(s.skip(k + 1) =~= members.skip(k + 1) + blank);
        assert(s[k] == ',' && is_member(s.take(k)) && is_members(s.skip(k + 1)));
    }
}

/// Elements between brackets are an array.
pub proof fn lemma_array(elements: Seq<char>)
    requires
        is_elements(elements) || is_blank(elements),
    ensures
        is_array(seq!['['] + elements + seq![']']),
        is_value(seq!['['] + elements + seq![']']),
{
    let s = seq!['['] + elements + seq![']'];
    assert(s.subrange(1, s.len() - 1) =~= elements);
}

/// Members between braces are an object.
pub proof fn lemma_object(members: Seq<char>)
    requires
        is_members(members) || is_blank(members),
    ensures
        is_object(seq!['{'] + members + seq!['}']),
        is_value(seq!['{'] + members + seq!['}']),
{
    let s = seq!['{'] + members + seq!['}'];
    assert(s.subrange(1, s.len() - 1) =~= members);
}

/// A character that stands for itself in a string.
pub open spec fn is_plain(c: char) -> bool {
    c != '"' && c != '\\' && c >= ' '
}

/// Characters that stand for themselves are the body of a string.
pub proof fn lemma_plain_body(s: Seq<char>)
    requires
        forall|i: int| 0 <= i < s.len() ==> is_plain(#[trigger] s[i]),
    ensures
        is_string_body(s),
    decreases s.len(),
{
    if s.len() > 0 {
        assert(is_plain(s[0]));
        assert forall|i: int| 0 <= i < s.skip(1).len() implies is_plain(#[trigger] s.skip(1)[i]) by {
            assert(s.skip(1)[i] == s[i + 1]);
        }
        lemma_plain_body(s.skip(1));
    }
}

/// Characters that stand for themselves, between quotes, are a string.
pub proof fn lemma_plain_string(s: Seq<char>)
    requires
        s.len() >= 2,
        s[0] == '"',
        s.last() == '"',
        forall|i: int| 1 <= i < s.len() - 1 ==> is_plain(#[trigger] s[i]),
    ensures
        is_string(s),
{
    let body = s.subrange(1, s.len() - 1);
    assert forall|i: int| 0 <= i < body.len() implies is_plain(#[trigger] body[i]) by {
        assert(body[i] == s[i + 1]);
    }
    lemma_plain_body(body);
}

} // verus!
