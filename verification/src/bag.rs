//! Lists as bags: what two lists share when they hold the same items, each as
//! often, whatever the order.

use vstd::prelude::*;
use vstd::seq_lib::{to_multiset_build, to_multiset_contains, to_multiset_len, to_multiset_remove};

verus! {

/// Lists that hold the same items still do so after every item is mapped.
pub proof fn lemma_map_same_items<A, B>(s: Seq<A>, r: Seq<A>, f: spec_fn(A) -> B)
    requires
        s.to_multiset() == r.to_multiset(),
    ensures
        s.map_values(f).to_multiset() == r.map_values(f).to_multiset(),
    decreases s.len(),
{
    to_multiset_len(s);
    to_multiset_len(r);
    if s.len() == 0 {
        assert(s.map_values(f) =~= r.map_values(f));
    } else {
        let x = s.last();
        assert(s[s.len() - 1] == x);
        assert(s.contains(x));
        to_multiset_contains(s, x);
        to_multiset_contains(r, x);
        let k = choose|k: int| 0 <= k < r.len() && r[k] == x;
        let s1 = s.drop_last();
        let r1 = r.remove(k);
        assert(s.remove(s.len() - 1) =~= s1);
        to_multiset_remove(s, s.len() - 1);
        to_multiset_remove(r, k);
        lemma_map_same_items(s1, r1, f);
        let ms = s.map_values(f);
        let mr = r.map_values(f);
        assert(ms =~= s1.map_values(f).push(f(x)));
        to_multiset_build(s1.map_values(f), f(x));
        assert(mr.remove(k) =~= r1.map_values(f));
        to_multiset_remove(mr, k);
        assert(mr[k] == f(x));
        assert(mr.contains(f(x)));
        to_multiset_contains(mr, f(x));
        assert(mr.to_multiset() =~= mr.remove(k).to_multiset().insert(f(x)));
        assert(ms.to_multiset() =~= mr.to_multiset());
    }
}

/// Where some item of a list passes a test, some item of every list that holds
/// the same items passes it.
pub proof fn lemma_any_same_items<A>(s: Seq<A>, r: Seq<A>, p: spec_fn(A) -> bool)
    requires
        s.to_multiset() == r.to_multiset(),
    ensures
        (exists|i: int| 0 <= i < s.len() && p(#[trigger] s[i])) ==> (exists|j: int|
            0 <= j < r.len() && p(#[trigger] r[j])),
{
    if exists|i: int| 0 <= i < s.len() && p(#[trigger] s[i]) {
        let i = choose|i: int| 0 <= i < s.len() && p(#[trigger] s[i]);
        assert(s.contains(s[i]));
        to_multiset_contains(s, s[i]);
        to_multiset_contains(r, s[i]);
        let j = choose|j: int| 0 <= j < r.len() && r[j] == s[i];
        assert(p(r[j]));
    }
}

/// Of lists that hold the same items, either both hold an item twice or
/// neither does.
pub proof fn lemma_no_duplicates_same_items<A>(s: Seq<A>, r: Seq<A>)
    requires
        s.to_multiset() == r.to_multiset(),
        s.no_duplicates(),
    ensures
        r.no_duplicates(),
{
    s.lemma_multiset_has_no_duplicates();
    r.lemma_multiset_has_no_duplicates_conv();
}

/// A filter that every item passes keeps the list as it is.
pub proof fn lemma_filter_keeps_all<A>(s: Seq<A>, p: spec_fn(A) -> bool)
    requires
        forall|i: int| 0 <= i < s.len() ==> p(#[trigger] s[i]),
    ensures
        s.filter(p) == s,
    decreases s.len(),
{
    reveal(Seq::filter);
    if s.len() > 0 {
        lemma_filter_keeps_all(s.drop_last(), p);
        assert(s.drop_last().push(s.last()) =~= s);
    }
}

/// What a filter keeps was in the list.
pub proof fn lemma_filter_holds_less<A>(s: Seq<A>, p: spec_fn(A) -> bool, x: A)
    requires
        s.filter(p).contains(x),
    ensures
        s.contains(x),
        p(x),
    decreases s.len(),
{
    reveal(Seq::filter);
    if s.len() > 0 {
        let rest = s.drop_last().filter(p);
        let i = choose|i: int| 0 <= i < s.filter(p).len() && s.filter(p)[i] == x;
        if p(s.last()) && i == rest.len() {
            assert(s[s.len() - 1] == x);
        } else {
            assert(rest[i] == x);
            assert(rest.contains(x));
            lemma_filter_holds_less(s.drop_last(), p, x);
            let j = choose|j: int| 0 <= j < s.drop_last().len() && s.drop_last()[j] == x;
            assert(s[j] == x);
        }
    }
}

} // verus!
