use vstd::prelude::*;

verus! {

broadcast use vstd::seq_lib::group_to_multiset_ensures, vstd::multiset::group_multiset_axioms;

/// The results of `f` on the items of `s`, in order, with the `None`s left out.
pub open spec fn keep_map<A, B>(s: Seq<A>, f: spec_fn(A) -> Option<B>) -> Seq<B>
    decreases s.len(),
{
    if s.len() == 0 {
        seq![]
    } else {
        let rest = keep_map(s.drop_last(), f);
        match f(s.last()) {
            Some(b) => rest.push(b),
            None => rest,
        }
    }
}

/// What `keep_map` keeps of an item counts once, wherever the item stands.
pub proof fn lemma_keep_map_remove<A, B>(s: Seq<A>, i: int, f: spec_fn(A) -> Option<B>)
    requires
        0 <= i < s.len(),
    ensures
        keep_map(s, f).to_multiset() == match f(s[i]) {
            Some(b) => keep_map(s.remove(i), f).to_multiset().insert(b),
            None => keep_map(s.remove(i), f).to_multiset(),
        },
    decreases s.len(),
{
    let t = s.drop_last();
    if i == s.len() - 1 {
        assert(s.remove(i) =~= t);
    } else {
        lemma_keep_map_remove(t, i, f);
        assert(s.remove(i).drop_last() =~= t.remove(i));
        assert(s.remove(i).last() == s.last());
        assert(t[i] == s[i]);
        match f(s.last()) {
            Some(b) => {
                assert(keep_map(s, f) == keep_map(t, f).push(b));
                assert(keep_map(s.remove(i), f) == keep_map(t.remove(i), f).push(b));
                match f(s[i]) {
                    Some(c) => {
                        assert(keep_map(t.remove(i), f).to_multiset().insert(c).insert(b)
                            =~= keep_map(t.remove(i), f).to_multiset().insert(b).insert(c));
                    },
                    None => {},
                }
            },
            None => {
                assert(keep_map(s, f) == keep_map(t, f));
                assert(keep_map(s.remove(i), f) == keep_map(t.remove(i), f));
            },
        }
    }
}

/// Reordering the input of `keep_map` reorders its output and changes
/// nothing else: the two outputs hold the same items, as often.
pub proof fn lemma_keep_map_reorder<A, B>(a: Seq<A>, b: Seq<A>, f: spec_fn(A) -> Option<B>)
    requires
        a.to_multiset() == b.to_multiset(),
    ensures
        keep_map(a, f).to_multiset() == keep_map(b, f).to_multiset(),
        keep_map(a, f).len() == keep_map(b, f).len(),
    decreases a.len(),
{
    if a.len() == 0 {
        assert(b.to_multiset().len() == 0);
        assert(b.len() == 0);
    } else {
        let x = a.last();
        let a0 = a.drop_last();
        assert(a0.push(x) =~= a);
        assert(a.to_multiset() == a0.to_multiset().insert(x));
        assert(b.to_multiset().count(x) > 0);
        assert(b.contains(x));
        let i = choose|i: int| 0 <= i < b.len() && b[i] == x;
        let b0 = b.remove(i);
        assert(b0.to_multiset() == b.to_multiset().remove(x));
        assert(b0.to_multiset() =~= a0.to_multiset());
        lemma_keep_map_reorder(a0, b0, f);
        lemma_keep_map_remove(b, i, f);
    }
    assert(keep_map(a, f).len() == keep_map(a, f).to_multiset().len());
    assert(keep_map(b, f).len() == keep_map(b, f).to_multiset().len());
}

/// Where `f` keeps every item, `keep_map` keeps as many items as it is given.
pub proof fn lemma_keep_map_len<A, B>(s: Seq<A>, f: spec_fn(A) -> Option<B>)
    requires
        forall|i: int| 0 <= i < s.len() ==> (#[trigger] f(s[i])) is Some,
    ensures
        keep_map(s, f).len() == s.len(),
    decreases s.len(),
{
    if s.len() > 0 {
        let t = s.drop_last();
        assert forall|i: int| 0 <= i < t.len() implies (#[trigger] f(t[i])) is Some by {
            assert(t[i] == s[i]);
        }
        lemma_keep_map_len(t, f);
        assert(f(s[s.len() - 1]) is Some);
    }
}

} // verus!
