//! Sorting paths in the order of their components.

use crate::path::{
    before, lemma_path_irreflexive, lemma_path_total, lemma_path_transitive, path_less,
};
use crate::text::{from_chars, to_chars, views};
use vstd::prelude::*;

verus! {

/// Each element comes before every later one.
pub open spec fn ascending(s: Seq<Seq<char>>) -> bool {
    forall|i: int, j: int| 0 <= i < j < s.len() ==> path_less(s[i], s[j])
}

/// No element comes before an earlier one.
pub open spec fn ordered(s: Seq<Seq<char>>) -> bool {
    forall|i: int, j: int| 0 <= i < j < s.len() ==> !path_less(s[j], s[i])
}

/// Without duplicates, ordered is ascending.
pub proof fn lemma_ordered_ascending(s: Seq<Seq<char>>)
    requires
        ordered(s),
        s.no_duplicates(),
    ensures
        ascending(s),
{
    assert forall|i: int, j: int| 0 <= i < j < s.len() implies path_less(s[i], s[j]) by {
        lemma_path_total(s[i], s[j]);
    }
}

/// An ascending sequence has no duplicates, and two ascending sequences
/// with the same members are equal.
pub proof fn lemma_ascending_unique(a: Seq<Seq<char>>, b: Seq<Seq<char>>)
    requires
        ascending(a),
        ascending(b),
        forall|p: Seq<char>| a.contains(p) <==> b.contains(p),
    ensures
        a == b,
        a.no_duplicates(),
    decreases a.len(),
{
    assert forall|i: int, j: int| 0 <= i < a.len() && 0 <= j < a.len() && i != j implies a[i]
        != a[j] by {
        lemma_path_irreflexive(a[i]);
    }
    if a.len() == 0 {
        if b.len() > 0 {
            assert(b.contains(b[0]));
        }
        assert(a =~= b);
    } else {
        if b.len() == 0 {
            assert(a.contains(a[0]));
        }
        // the first elements are the least of each, so they agree
        assert(a.contains(a[0]) && b.contains(b[0]));
        let i = choose|i: int| 0 <= i < b.len() && b[i] == a[0];
        let j = choose|j: int| 0 <= j < a.len() && a[j] == b[0];
        if i > 0 && j > 0 {
            lemma_path_transitive(a[0], a[j], b[i]);
            lemma_path_irreflexive(a[0]);
        }
        if i > 0 && j == 0 {
            lemma_path_irreflexive(a[0]);
        }
        assert(a[0] == b[0]);
        let ra = a.drop_first();
        let rb = b.drop_first();
        assert forall|p: Seq<char>| ra.contains(p) <==> rb.contains(p) by {
            lemma_path_irreflexive(a[0]);
            if ra.contains(p) {
                let k = choose|k: int| 0 <= k < ra.len() && ra[k] == p;
                assert(a[k + 1] == p);
                assert(a.contains(p));
                let m = choose|m: int| 0 <= m < b.len() && b[m] == p;
                assert(path_less(a[0], a[k + 1]));
                assert(m != 0);
                assert(rb[m - 1] == p);
            }
            if rb.contains(p) {
                let k = choose|k: int| 0 <= k < rb.len() && rb[k] == p;
                assert(b[k + 1] == p);
                assert(b.contains(p));
                let m = choose|m: int| 0 <= m < a.len() && a[m] == p;
                assert(path_less(b[0], b[k + 1]));
                assert(m != 0);
                assert(ra[m - 1] == p);
            }
        }
        lemma_ascending_unique(ra, rb);
        assert(a =~= seq![a[0]] + ra);
        assert(b =~= seq![b[0]] + rb);
    }
}

proof fn lemma_insert_ordered(s: Seq<Seq<char>>, key: Seq<char>, at: int)
    requires
        ordered(s),
        0 <= at <= s.len(),
        forall|j: int| 0 <= j < at ==> !path_less(key, s[j]),
        forall|j: int| at <= j < s.len() ==> path_less(key, s[j]),
    ensures
        ordered(s.insert(at, key)),
        forall|p: Seq<char>| s.insert(at, key).contains(p) <==> s.contains(p) || p == key,
{
    let t = s.insert(at, key);
    assert forall|a: int, b: int| 0 <= a < b < t.len() implies !path_less(t[b], t[a]) by {
        if a == at {
            assert(t[b] == s[b - 1]);
            if path_less(t[b], key) {
                lemma_path_transitive(t[b], key, s[b - 1]);
                lemma_path_irreflexive(t[b]);
            }
        } else if b == at {
            assert(t[a] == s[a]);
        } else {
            let a0 = if a < at {
                a
            } else {
                a - 1
            };
            let b0 = if b < at {
                b
            } else {
                b - 1
            };
            assert(t[a] == s[a0] && t[b] == s[b0]);
        }
    }
    assert forall|p: Seq<char>| t.contains(p) <==> s.contains(p) || p == key by {
        if t.contains(p) {
            let k = choose|k: int| 0 <= k < t.len() && t[k] == p;
            if k < at {
                assert(s[k] == p);
            } else if k > at {
                assert(s[k - 1] == p);
            }
        }
        if s.contains(p) {
            let k = choose|k: int| 0 <= k < s.len() && s[k] == p;
            if k < at {
                assert(t[k] == p);
            } else {
                assert(t[k + 1] == p);
            }
        }
        if p == key {
            assert(t[at] == p);
        }
    }
}

/// The position at which `key` keeps `sorted` ordered: behind everything
/// that does not come after it.
fn insertion_point(sorted: &Vec<Vec<char>>, key: &Vec<char>) -> (at: usize)
    requires
        ordered(views(sorted@)),
    ensures
        at <= sorted@.len(),
        forall|j: int| 0 <= j < at ==> !path_less(key@, views(sorted@)[j]),
        forall|j: int| at <= j < sorted@.len() ==> path_less(key@, views(sorted@)[j]),
{
    let ghost s = views(sorted@);
    let mut lo: usize = 0;
    let mut hi: usize = sorted.len();
    while lo < hi
        invariant
            s == views(sorted@),
            ordered(s),
            lo <= hi <= sorted@.len(),
            forall|j: int| 0 <= j < lo ==> !path_less(key@, s[j]),
            forall|j: int| hi <= j < s.len() ==> path_less(key@, s[j]),
        decreases hi - lo,
    {
        let mid = lo + (hi - lo) / 2;
        assert(s[mid as int] == sorted@[mid as int]@);
        if before(key, &sorted[mid]) {
            assert forall|j: int| mid <= j < s.len() implies path_less(key@, s[j]) by {
                if j > mid {
                    lemma_path_total(s[mid as int], s[j]);
                    if path_less(s[mid as int], s[j]) {
                        lemma_path_transitive(key@, s[mid as int], s[j]);
                    }
                }
            }
            hi = mid;
        } else {
            assert forall|j: int| 0 <= j < mid + 1 implies !path_less(key@, s[j]) by {
                if j < mid && path_less(key@, s[j]) {
                    lemma_path_total(s[j], s[mid as int]);
                    if path_less(s[j], s[mid as int]) {
                        lemma_path_transitive(key@, s[j], s[mid as int]);
                    }
                }
            }
            lo = mid + 1;
        }
    }
    lo
}

/// The paths of `paths` in the order of paths, component by component.
pub fn sort_paths(paths: &Vec<String>) -> (sorted: Vec<String>)
    ensures
        sorted@.len() == paths@.len(),
        ordered(sorted.deep_view()),
        forall|p: Seq<char>| sorted.deep_view().contains(p) <==> paths.deep_view().contains(p),
        paths.deep_view().no_duplicates() ==> ascending(sorted.deep_view()),
{
    let mut keys: Vec<Vec<char>> = Vec::new();
    let mut i: usize = 0;
    while i < paths.len()
        invariant
            i <= paths@.len(),
            keys@.len() == i,
            ordered(views(keys@)),
            forall|p: Seq<char>|
                views(keys@).contains(p) <==> paths.deep_view().take(i as int).contains(p),
            paths.deep_view().no_duplicates() ==> views(keys@).no_duplicates(),
        decreases paths@.len() - i,
    {
        let key = to_chars(paths[i].as_str());
        let at = insertion_point(&keys, &key);
        let ghost before = views(keys@);
        let ghost seen = paths.deep_view().take(i as int);
        let ghost next = paths.deep_view().take(i + 1);
        proof {
            lemma_insert_ordered(before, key@, at as int);
            assert(next =~= seen.push(key@));
            assert forall|p: Seq<char>| next.contains(p) <==> seen.contains(p) || p == key@ by {
                if next.contains(p) {
                    let k = choose|k: int| 0 <= k < next.len() && next[k] == p;
                    if k < seen.len() {
                        assert(seen[k] == p);
                    }
                }
                if seen.contains(p) {
                    let k = choose|k: int| 0 <= k < seen.len() && seen[k] == p;
                    assert(next[k] == p);
                }
                if p == key@ {
                    assert(next[i as int] == p);
                }
            }
            if paths.deep_view().no_duplicates() {
                if seen.contains(key@) {
                    let k = choose|k: int| 0 <= k < seen.len() && seen[k] == key@;
                    assert(paths.deep_view()[k] == paths.deep_view()[i as int]);
                }
                assert(!before.contains(key@));
                let t = before.insert(at as int, key@);
                assert forall|a: int, b: int|
                    0 <= a < t.len() && 0 <= b < t.len() && a != b implies t[a] != t[b] by {
                    let a0 = if a < at {
                        a
                    } else {
                        a - 1
                    };
                    let b0 = if b < at {
                        b
                    } else {
                        b - 1
                    };
                    if a == at {
                        assert(t[b] == before[b0]);
                        assert(before.contains(before[b0]));
                    } else if b == at {
                        assert(t[a] == before[a0]);
                        assert(before.contains(before[a0]));
                    } else {
                        assert(t[a] == before[a0] && t[b] == before[b0]);
                    }
                }
            }
        }
        let ghost key_view = key@;
        keys.insert(at, key);
        assert(views(keys@) =~= before.insert(at as int, key_view));
        assert forall|p: Seq<char>| views(keys@).contains(p) <==> next.contains(p) by {
            assert(views(keys@).contains(p) <==> before.contains(p) || p == key_view);
            assert(before.contains(p) <==> seen.contains(p));
            assert(next.contains(p) <==> seen.contains(p) || p == key_view);
        }
        i += 1;
    }
    assert(paths.deep_view().take(paths@.len() as int) =~= paths.deep_view());
    let mut sorted: Vec<String> = Vec::new();
    let mut k: usize = 0;
    while k < keys.len()
        invariant
            k <= keys@.len(),
            sorted@.len() == k,
            forall|j: int| 0 <= j < k ==> (#[trigger] sorted@[j])@ == keys@[j]@,
        decreases keys@.len() - k,
    {
        sorted.push(from_chars(&keys[k]));
        k += 1;
    }
    proof {
        assert(sorted.deep_view() =~= views(keys@));
        if paths.deep_view().no_duplicates() {
            lemma_ordered_ascending(views(keys@));
        }
    }
    sorted
}

} // verus!
