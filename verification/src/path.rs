//! Paths as text, with `/` between their components.
//!
//! The functions here only look at the text of a path. None of them asks
//! whether a file exists.

use crate::text::{from_chars, joined, slice, split, split_on, to_chars, views};
use vstd::prelude::*;

verus! {

/// The position of the last `c` in `s`, and `-1` where there is none.
pub open spec fn last_index_of(s: Seq<char>, c: char) -> int
    decreases s.len(),
{
    if s.len() == 0 {
        -1
    } else if s.last() == c {
        s.len() - 1
    } else {
        last_index_of(s.drop_last(), c)
    }
}

/// Where [`last_index_of`] points.
pub proof fn lemma_last_index_of(s: Seq<char>, c: char)
    ensures
        -1 <= last_index_of(s, c) < s.len(),
        last_index_of(s, c) >= 0 ==> s[last_index_of(s, c)] == c,
        forall|j: int| last_index_of(s, c) < j < s.len() ==> s[j] != c,
    decreases s.len(),
{
    if s.len() > 0 && s.last() != c {
        lemma_last_index_of(s.drop_last(), c);
        assert forall|j: int| last_index_of(s, c) < j < s.len() implies s[j] != c by {
            if j < s.len() - 1 {
                assert(s.drop_last()[j] == s[j]);
            }
        }
    }
}

/// Computes [`last_index_of`].
pub fn find_last(s: &Vec<char>, c: char) -> (at: Option<usize>)
    ensures
        match at {
            Some(i) => i == last_index_of(s@, c),
            None => last_index_of(s@, c) == -1,
        },
{
    let mut i: usize = s.len();
    assert(s@.take(i as int) =~= s@);
    while i > 0
        invariant
            i <= s@.len(),
            last_index_of(s@, c) == last_index_of(s@.take(i as int), c),
        decreases i,
    {
        i -= 1;
        assert(s@.take(i + 1).drop_last() =~= s@.take(i as int));
        if s[i] == c {
            return Some(i);
        }
    }
    assert(s@.take(0) =~= Seq::<char>::empty());
    None
}

/// `c` comes before `d` in the order of paths: the separator comes before
/// every other character, and the others follow by their code points.
pub open spec fn char_before(c: char, d: char) -> bool {
    c != d && (c == '/' || (d != '/' && c < d))
}

/// `a` comes before `b` in the order of paths: component by component,
/// a component before every longer one that begins with it, and
/// otherwise by the first character in which the two differ. That is the
/// lexicographic order of the characters with the separator before every
/// other character.
pub open spec fn path_less(a: Seq<char>, b: Seq<char>) -> bool
    decreases a.len(),
{
    if b.len() == 0 {
        false
    } else if a.len() == 0 {
        true
    } else if a[0] != b[0] {
        char_before(a[0], b[0])
    } else {
        path_less(a.drop_first(), b.drop_first())
    }
}

/// Nothing comes before itself.
pub proof fn lemma_path_irreflexive(a: Seq<char>)
    ensures
        !path_less(a, a),
    decreases a.len(),
{
    if a.len() > 0 {
        lemma_path_irreflexive(a.drop_first());
    }
}

/// The order is transitive.
pub proof fn lemma_path_transitive(a: Seq<char>, b: Seq<char>, c: Seq<char>)
    requires
        path_less(a, b),
        path_less(b, c),
    ensures
        path_less(a, c),
    decreases a.len(),
{
    if a.len() > 0 && b.len() > 0 && c.len() > 0 {
        if a[0] == b[0] && b[0] == c[0] {
            lemma_path_transitive(a.drop_first(), b.drop_first(), c.drop_first());
        }
    }
}

/// Of two different sequences one comes before the other.
pub proof fn lemma_path_total(a: Seq<char>, b: Seq<char>)
    ensures
        a == b || path_less(a, b) || path_less(b, a),
    decreases a.len(),
{
    if a.len() == 0 || b.len() == 0 {
        if a.len() == 0 && b.len() == 0 {
            assert(a =~= b);
        }
    } else if a[0] == b[0] {
        lemma_path_total(a.drop_first(), b.drop_first());
        if a.drop_first() == b.drop_first() {
            assert(a =~= seq![a[0]] + a.drop_first());
            assert(b =~= seq![b[0]] + b.drop_first());
        }
    }
}

/// Skipping a common prefix does not change the order.
proof fn lemma_path_skip(a: Seq<char>, b: Seq<char>, k: int)
    requires
        0 <= k <= a.len(),
        k <= b.len(),
        a.take(k) == b.take(k),
    ensures
        path_less(a, b) == path_less(a.skip(k), b.skip(k)),
    decreases k,
{
    if k == 0 {
        assert(a.skip(0) =~= a);
        assert(b.skip(0) =~= b);
    } else {
        assert(a[0] == a.take(k)[0]);
        assert(b[0] == b.take(k)[0]);
        let a1 = a.drop_first();
        let b1 = b.drop_first();
        assert(a1.take(k - 1) =~= a.take(k).drop_first());
        assert(b1.take(k - 1) =~= b.take(k).drop_first());
        lemma_path_skip(a1, b1, k - 1);
        assert(a1.skip(k - 1) =~= a.skip(k));
        assert(b1.skip(k - 1) =~= b.skip(k));
    }
}

/// Decides [`path_less`].
pub fn before(a: &Vec<char>, b: &Vec<char>) -> (before: bool)
    ensures
        before == path_less(a@, b@),
{
    let mut i: usize = 0;
    while i < a.len() && i < b.len()
        invariant
            i <= a@.len(),
            i <= b@.len(),
            a@.take(i as int) == b@.take(i as int),
        decreases a@.len() - i,
    {
        if a[i] != b[i] {
            proof {
                lemma_path_skip(a@, b@, i as int);
            }
            return a[i] == '/' || (b[i] != '/' && a[i] < b[i]);
        }
        assert(a@.take(i + 1) =~= a@.take(i as int).push(a@[i as int]));
        assert(b@.take(i + 1) =~= b@.take(i as int).push(b@[i as int]));
        i += 1;
    }
    proof {
        lemma_path_skip(a@, b@, i as int);
    }
    i < b.len()
}

/// Some segment of the path, between its `/`, is `name`.
pub open spec fn has_segment(path: Seq<char>, name: Seq<char>) -> bool {
    split_on(path, '/').contains(name)
}

/// Decides [`has_segment`].
pub fn contains_segment(path: &Vec<char>, name: &Vec<char>) -> (found: bool)
    ensures
        found == has_segment(path@, name@),
{
    let segments = split(path, '/');
    let ghost all = views(segments@);
    let mut i: usize = 0;
    while i < segments.len()
        invariant
            i <= segments@.len(),
            all == views(segments@),
            all == split_on(path@, '/'),
            forall|k: int| 0 <= k < i ==> all[k] != name@,
        decreases segments@.len() - i,
    {
        assert(all[i as int] == segments@[i as int]@);
        if crate::config::same_chars(&segments[i], name) {
            assert(all.contains(all[i as int]));
            return true;
        }
        i += 1;
    }
    false
}

/// The path starts at the root.
pub open spec fn is_absolute(p: Seq<char>) -> bool {
    p.len() > 0 && p[0] == '/'
}

/// `rel` seen from the directory `base`: an absolute `rel` stands for
/// itself, anything else is appended to `base`, behind a `/` where `base`
/// does not end in one.
pub open spec fn joined_path(base: Seq<char>, rel: Seq<char>) -> Seq<char> {
    if is_absolute(rel) || base.len() == 0 {
        rel
    } else if base.last() == '/' {
        base + rel
    } else {
        base + seq!['/'] + rel
    }
}

/// The directory part of a path: what stands before its last `/`, the root
/// for a path directly below it, and nothing for a path without `/`.
pub open spec fn parent_of(p: Seq<char>) -> Seq<char> {
    let at = last_index_of(p, '/');
    if at < 0 {
        Seq::empty()
    } else if at == 0 {
        seq!['/']
    } else {
        p.take(at)
    }
}

/// What stands behind the last `/` of a path.
pub open spec fn last_segment(p: Seq<char>) -> Seq<char> {
    p.skip(last_index_of(p, '/') + 1)
}

/// The name of the file that a path ends in: its last segment, unless that
/// is empty, `.` or `..`.
pub open spec fn file_name_of(p: Seq<char>) -> Option<Seq<char>> {
    let name = last_segment(p);
    if name.len() == 0 || name == seq!['.'] || name == seq!['.', '.'] {
        None
    } else {
        Some(name)
    }
}

/// The extension of a path, without its dot: what stands behind the last
/// dot of the file name, where the name has a dot that is not its first
/// character.
pub open spec fn extension_of(p: Seq<char>) -> Option<Seq<char>> {
    match file_name_of(p) {
        None => None,
        Some(name) => {
            let dot = last_index_of(name, '.');
            if dot <= 0 {
                None
            } else {
                Some(name.skip(dot + 1))
            }
        },
    }
}

/// What one segment does to the components collected so far: an empty
/// segment and `.` leave them alone, `..` takes the last one away if there
/// is one, and any other segment is added.
pub open spec fn with_segment(stack: Seq<Seq<char>>, segment: Seq<char>) -> Seq<Seq<char>> {
    if segment.len() == 0 || segment == seq!['.'] {
        stack
    } else if segment == seq!['.', '.'] {
        if stack.len() > 0 {
            stack.drop_last()
        } else {
            stack
        }
    } else {
        stack.push(segment)
    }
}

/// [`with_segment`] as a function value.
pub open spec fn segment_step() -> spec_fn(Seq<Seq<char>>, Seq<char>) -> Seq<Seq<char>> {
    |stack: Seq<Seq<char>>, segment: Seq<char>| with_segment(stack, segment)
}

/// The components that a path comes down to once `.` and `..` are
/// resolved. The root counts as a first component `/`.
pub open spec fn collapsed(p: Seq<char>) -> Seq<Seq<char>> {
    split_on(p, '/').fold_left(
        if is_absolute(p) {
            seq![seq!['/']]
        } else {
            Seq::empty()
        },
        segment_step(),
    )
}

/// The path made of `components`, each joined to those before it.
pub open spec fn assembled(components: Seq<Seq<char>>) -> Seq<char>
    decreases components.len(),
{
    if components.len() == 0 {
        Seq::empty()
    } else {
        joined_path(assembled(components.drop_last()), components.last())
    }
}

/// The path with `.` and `..` resolved.
pub open spec fn normalized(p: Seq<char>) -> Seq<char> {
    assembled(collapsed(p))
}

/// Computes [`joined_path`].
pub fn join_chars(base: &Vec<char>, rel: &Vec<char>) -> (out: Vec<char>)
    ensures
        out@ == joined_path(base@, rel@),
{
    let mut out: Vec<char> = Vec::new();
    let absolute = rel.len() > 0 && rel[0] == '/';
    if !absolute && base.len() > 0 {
        let mut i: usize = 0;
        while i < base.len()
            invariant
                i <= base@.len(),
                out@ == base@.take(i as int),
            decreases base@.len() - i,
        {
            out.push(base[i]);
            assert(out@ =~= base@.take(i + 1));
            i += 1;
        }
        assert(out@ =~= base@);
        if base[base.len() - 1] != '/' {
            out.push('/');
        }
    }
    let ghost head = out@;
    let mut j: usize = 0;
    while j < rel.len()
        invariant
            j <= rel@.len(),
            out@ == head + rel@.take(j as int),
        decreases rel@.len() - j,
    {
        out.push(rel[j]);
        assert(out@ =~= head + rel@.take(j + 1));
        j += 1;
    }
    assert(out@ =~= head + rel@);
    assert(Seq::<char>::empty() + rel@ =~= rel@);
    out
}

/// Computes [`joined_path`] for strings.
pub fn join(base: &str, rel: &str) -> (out: String)
    ensures
        out@ == joined_path(base@, rel@),
{
    from_chars(&join_chars(&to_chars(base), &to_chars(rel)))
}

/// Computes [`parent_of`].
pub fn parent_chars(p: &Vec<char>) -> (out: Vec<char>)
    ensures
        out@ == parent_of(p@),
{
    proof {
        lemma_last_index_of(p@, '/');
    }
    match find_last(p, '/') {
        None => Vec::new(),
        Some(at) => {
            if at == 0 {
                let mut out: Vec<char> = Vec::new();
                out.push('/');
                assert(out@ =~= seq!['/']);
                out
            } else {
                let out = slice(p, 0, at);
                assert(out@ =~= p@.take(at as int));
                out
            }
        },
    }
}

/// Computes [`parent_of`] for strings.
pub fn parent(p: &str) -> (out: String)
    ensures
        out@ == parent_of(p@),
{
    from_chars(&parent_chars(&to_chars(p)))
}

fn is_dot(s: &Vec<char>) -> (yes: bool)
    ensures
        yes == (s@ == seq!['.']),
{
    let yes = s.len() == 1 && s[0] == '.';
    proof {
        if yes {
            assert(s@ =~= seq!['.']);
        }
    }
    yes
}

fn is_dot_dot(s: &Vec<char>) -> (yes: bool)
    ensures
        yes == (s@ == seq!['.', '.']),
{
    let yes = s.len() == 2 && s[0] == '.' && s[1] == '.';
    proof {
        if yes {
            assert(s@ =~= seq!['.', '.']);
        }
    }
    yes
}

/// Computes [`file_name_of`].
pub fn file_name_chars(p: &Vec<char>) -> (name: Option<Vec<char>>)
    ensures
        match name {
            Some(n) => file_name_of(p@) == Some(n@),
            None => file_name_of(p@) is None,
        },
{
    proof {
        lemma_last_index_of(p@, '/');
    }
    let end: usize = p.len();
    let from: usize = match find_last(p, '/') {
        None => 0,
        Some(at) => {
            assert(at < end);
            at + 1
        },
    };
    let name = slice(p, from, end);
    assert(name@ =~= last_segment(p@));
    if name.len() == 0 || is_dot(&name) || is_dot_dot(&name) {
        None
    } else {
        Some(name)
    }
}

/// Computes [`extension_of`].
pub fn extension_chars(p: &Vec<char>) -> (ext: Option<Vec<char>>)
    ensures
        match ext {
            Some(e) => extension_of(p@) == Some(e@),
            None => extension_of(p@) is None,
        },
{
    match file_name_chars(p) {
        None => None,
        Some(name) => {
            proof {
                lemma_last_index_of(name@, '.');
            }
            match find_last(&name, '.') {
                None => None,
                Some(dot) => {
                    if dot == 0 {
                        None
                    } else {
                        let ext = slice(&name, dot + 1, name.len());
                        assert(ext@ =~= name@.skip(dot + 1));
                        Some(ext)
                    }
                },
            }
        },
    }
}

/// Computes [`collapsed`].
pub fn collapse(p: &Vec<char>) -> (stack: Vec<Vec<char>>)
    ensures
        views(stack@) == collapsed(p@),
{
    let segments = split(p, '/');
    let mut stack: Vec<Vec<char>> = Vec::new();
    if p.len() > 0 && p[0] == '/' {
        let mut root: Vec<char> = Vec::new();
        root.push('/');
        assert(root@ =~= seq!['/']);
        stack.push(root);
        assert(views(stack@) =~= seq![seq!['/']]);
    } else {
        assert(views(stack@) =~= Seq::<Seq<char>>::empty());
    }
    let ghost init = views(stack@);
    let ghost all = views(segments@);
    let mut i: usize = 0;
    while i < segments.len()
        invariant
            i <= segments@.len(),
            all == views(segments@),
            views(stack@) == all.take(i as int).fold_left(init, segment_step()),
        decreases segments@.len() - i,
    {
        let ghost before = views(stack@);
        proof {
            assert(all.take(i + 1).drop_last() =~= all.take(i as int));
            assert(all.take(i + 1).last() == segments@[i as int]@);
        }
        let segment = &segments[i];
        if segment.len() == 0 || is_dot(segment) {
        } else if is_dot_dot(segment) {
            if stack.len() > 0 {
                stack.pop();
                assert(views(stack@) =~= before.drop_last());
            }
        } else {
            stack.push(slice(segment, 0, segment.len()));
            assert(segment@.subrange(0, segment@.len() as int) =~= segment@);
            assert(views(stack@) =~= before.push(segment@));
        }
        i += 1;
    }
    assert(all.take(all.len() as int) =~= all);
    stack
}

/// Computes [`assembled`].
pub fn assemble(components: &Vec<Vec<char>>) -> (out: Vec<char>)
    ensures
        out@ == assembled(views(components@)),
{
    let ghost all = views(components@);
    let mut out: Vec<char> = Vec::new();
    let mut i: usize = 0;
    while i < components.len()
        invariant
            i <= components@.len(),
            all == views(components@),
            out@ == assembled(all.take(i as int)),
        decreases components@.len() - i,
    {
        proof {
            assert(all.take(i + 1).drop_last() =~= all.take(i as int));
            assert(all.take(i + 1).last() == components@[i as int]@);
        }
        out = join_chars(&out, &components[i]);
        i += 1;
    }
    assert(all.take(all.len() as int) =~= all);
    out
}

/// Computes [`normalized`].
pub fn normalize_chars(p: &Vec<char>) -> (out: Vec<char>)
    ensures
        out@ == normalized(p@),
{
    assemble(&collapse(p))
}

/// Computes [`normalized`] for strings.
pub fn normalize(p: &str) -> (out: String)
    ensures
        out@ == normalized(p@),
{
    from_chars(&normalize_chars(&to_chars(p)))
}

} // verus!
