//! General facts about sequences.

use vstd::prelude::*;

verus! {

/// What a filter keeps: the members that pass.
pub proof fn lemma_filter_members<A>(s: Seq<A>, pred: spec_fn(A) -> bool)
    ensures
        forall|x: A| #[trigger] s.filter(pred).contains(x) <==> s.contains(x) && pred(x),
    decreases s.len(),
{
    reveal(Seq::filter);
    if s.len() > 0 {
        let front = s.drop_last();
        lemma_filter_members(front, pred);
        let sub = front.filter(pred);
        let f = s.filter(pred);
        assert forall|x: A| #[trigger] f.contains(x) <==> s.contains(x) && pred(x) by {
            if f.contains(x) {
                let i = choose|i: int| 0 <= i < f.len() && f[i] == x;
                if i < sub.len() {
                    assert(sub[i] == x);
                    assert(sub.contains(x));
                    let j = choose|j: int| 0 <= j < front.len() && front[j] == x;
                    assert(s[j] == x);
                } else {
                    assert(s[s.len() - 1] == x);
                }
            }
            if s.contains(x) && pred(x) {
                let j = choose|j: int| 0 <= j < s.len() && s[j] == x;
                if j < front.len() {
                    assert(front[j] == x);
                    assert(sub.contains(x));
                    let i = choose|i: int| 0 <= i < sub.len() && sub[i] == x;
                    assert(f[i] == x);
                } else {
                    assert(f[f.len() - 1] == x);
                }
            }
        }
    }
}

/// Filtering keeps a sequence free of duplicates.
pub proof fn lemma_filter_no_duplicates<A>(s: Seq<A>, pred: spec_fn(A) -> bool)
    requires
        s.no_duplicates(),
    ensures
        s.filter(pred).no_duplicates(),
        forall|x: A| s.filter(pred).contains(x) <==> s.contains(x) && pred(x),
    decreases s.len(),
{
    reveal(Seq::filter);
    if s.len() > 0 {
        let front = s.drop_last();
        lemma_filter_no_duplicates(front, pred);
        assert(front.push(s.last()) =~= s);
        assert forall|x: A| front.contains(x) implies x != s.last() by {
            let i = choose|i: int| 0 <= i < front.len() && front[i] == x;
            assert(s[i] == x);
            assert(s[s.len() - 1] == s.last());
        }
        assert forall|x: A| s.contains(x) <==> front.contains(x) || x == s.last() by {
            if s.contains(x) {
                let i = choose|i: int| 0 <= i < s.len() && s[i] == x;
                if i < front.len() {
                    assert(front[i] == x);
                }
            }
            if front.contains(x) {
                let i = choose|i: int| 0 <= i < front.len() && front[i] == x;
                assert(s[i] == x);
            }
            if x == s.last() {
                assert(s[s.len() - 1] == x);
            }
        }
        let sub = front.filter(pred);
        assert(!front.contains(s.last()));
        assert(!sub.contains(s.last()));
        if pred(s.last()) {
            assert(s.filter(pred) == sub.push(s.last()));
            assert forall|i: int, j: int|
                0 <= i < sub.len() + 1 && 0 <= j < sub.len() + 1 && i != j implies sub.push(
                s.last(),
            )[i] != sub.push(s.last())[j] by {
                if i < sub.len() {
                    assert(sub.contains(sub[i]));
                }
                if j < sub.len() {
                    assert(sub.contains(sub[j]));
                }
            }
            assert forall|x: A| s.filter(pred).contains(x) <==> s.contains(x) && pred(x) by {
                let f = s.filter(pred);
                if f.contains(x) {
                    let i = choose|i: int| 0 <= i < f.len() && f[i] == x;
                    if i < sub.len() {
                        assert(sub[i] == x);
                        assert(sub.contains(x));
                    }
                }
                if s.contains(x) && pred(x) {
                    if x == s.last() {
                        assert(f[f.len() - 1] == x);
                    } else {
                        assert(sub.contains(x));
                        let i = choose|i: int| 0 <= i < sub.len() && sub[i] == x;
                        assert(f[i] == x);
                    }
                }
            }
        } else {
            assert(s.filter(pred) == sub);
        }
    }
}

/// Two sequences with the same multiset have the same members, and
/// duplicates in neither or in both.
pub proof fn lemma_same_multiset<A>(s1: Seq<A>, s2: Seq<A>)
    requires
        s1.to_multiset() == s2.to_multiset(),
    ensures
        s1.len() == s2.len(),
        forall|x: A| s1.contains(x) <==> s2.contains(x),
        s2.no_duplicates() ==> s1.no_duplicates(),
{
    broadcast use vstd::seq_lib::group_to_multiset_ensures;

    s1.to_multiset_ensures();
    s2.to_multiset_ensures();
    assert forall|x: A| s1.contains(x) <==> s2.contains(x) by {
        assert(s1.contains(x) <==> s1.to_multiset().count(x) > 0);
        assert(s2.contains(x) <==> s2.to_multiset().count(x) > 0);
    }
    if s2.no_duplicates() {
        s2.lemma_multiset_has_no_duplicates();
        s1.lemma_multiset_has_no_duplicates_conv();
    }
}

/// Filtering one more element of `s`: it is appended where it passes.
pub proof fn lemma_filter_step<A>(s: Seq<A>, pred: spec_fn(A) -> bool, i: int)
    requires
        0 <= i < s.len(),
    ensures
        s.take(i + 1).filter(pred) == if pred(s[i]) {
            s.take(i).filter(pred).push(s[i])
        } else {
            s.take(i).filter(pred)
        },
        s.take(0).filter(pred) == Seq::<A>::empty(),
        s.take(s.len() as int) == s,
{
    reveal(Seq::filter);
    assert(s.take(i + 1).drop_last() =~= s.take(i));
    assert(s.take(i + 1).last() == s[i]);
    assert(s.take(0).filter(pred) =~= Seq::<A>::empty());
    assert(s.take(s.len() as int) =~= s);
}

} // verus!
