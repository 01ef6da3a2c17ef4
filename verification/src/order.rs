//! Stable ordering of items by a `u32` key, as `sort_by_key` does it, and the
//! removal of consecutive duplicates.

use vstd::prelude::*;

verus! {

/// `x` inserted behind every element whose key is at most its own key,
/// counted from the back: the step of a stable insertion sort.
pub open spec fn insert_keyed<A>(s: Seq<(u32, A)>, x: (u32, A)) -> Seq<(u32, A)>
    decreases s.len(),
{
    if s.len() == 0 {
        seq![x]
    } else if s.last().0 <= x.0 {
        s.push(x)
    } else {
        insert_keyed(s.drop_last(), x).push(s.last())
    }
}

/// The elements in ascending key order; elements with equal keys keep their
/// order.
pub open spec fn sort_keyed<A>(s: Seq<(u32, A)>) -> Seq<(u32, A)>
    decreases s.len(),
{
    if s.len() == 0 {
        s
    } else {
        insert_keyed(sort_keyed(s.drop_last()), s.last())
    }
}

/// Applies `f` to the second component, keeping the key.
pub open spec fn on_value<A, B>(f: spec_fn(A) -> B) -> spec_fn((u32, A)) -> (u32, B) {
    |p: (u32, A)| (p.0, f(p.1))
}

pub open spec fn sorted_keys<A>(s: Seq<(u32, A)>) -> bool {
    forall|i: int, j: int| 0 <= i < j < s.len() ==> s[i].0 <= s[j].0
}

proof fn lemma_insert_at<A>(s: Seq<(u32, A)>, x: (u32, A), j: int)
    requires
        0 <= j <= s.len(),
        forall|k: int| j <= k < s.len() ==> s[k].0 > x.0,
        j == 0 || s[j - 1].0 <= x.0,
    ensures
        insert_keyed(s, x) == s.insert(j, x),
    decreases s.len(),
{
    if s.len() == 0 {
        assert(s.insert(j, x) =~= seq![x]);
    } else if s.last().0 <= x.0 {
        assert(j == s.len());
        assert(s.insert(j, x) =~= s.push(x));
    } else {
        let d = s.drop_last();
        lemma_insert_at(d, x, j);
        assert(s.insert(j, x) =~= d.insert(j, x).push(s.last()));
    }
}

proof fn lemma_insert_on_value<A, B>(s: Seq<(u32, A)>, x: (u32, A), f: spec_fn(A) -> B)
    ensures
        insert_keyed(s, x).map_values(on_value(f)) == insert_keyed(
            s.map_values(on_value(f)),
            on_value(f)(x),
        ),
    decreases s.len(),
{
    let g = on_value(f);
    let sm = s.map_values(g);
    if s.len() == 0 {
        assert(insert_keyed(s, x).map_values(g) =~= seq![g(x)]);
    } else {
        assert(sm.last() == g(s.last()));
        assert(sm.drop_last() =~= s.drop_last().map_values(g));
        if s.last().0 <= x.0 {
            assert(s.push(x).map_values(g) =~= sm.push(g(x)));
        } else {
            lemma_insert_on_value(s.drop_last(), x, f);
            assert(insert_keyed(s.drop_last(), x).push(s.last()).map_values(g) =~= insert_keyed(
                s.drop_last(),
                x,
            ).map_values(g).push(g(s.last())));
        }
    }
}

/// Sorting by key and then changing the values is changing the values and then
/// sorting.
pub proof fn lemma_sort_on_value<A, B>(s: Seq<(u32, A)>, f: spec_fn(A) -> B)
    ensures
        sort_keyed(s).map_values(on_value(f)) == sort_keyed(s.map_values(on_value(f))),
    decreases s.len(),
{
    let g = on_value(f);
    if s.len() == 0 {
        assert(s.map_values(g) =~= Seq::<(u32, B)>::empty());
        assert(sort_keyed(s).map_values(g) =~= Seq::<(u32, B)>::empty());
    } else {
        let d = s.drop_last();
        lemma_sort_on_value(d, f);
        lemma_insert_on_value(sort_keyed(d), s.last(), f);
        assert(s.map_values(g).drop_last() =~= d.map_values(g));
        assert(s.map_values(g).last() == g(s.last()));
    }
}

proof fn lemma_insert_keeps_sorted<A>(s: Seq<(u32, A)>, x: (u32, A))
    requires
        sorted_keys(s),
    ensures
        sorted_keys(insert_keyed(s, x)),
        insert_keyed(s, x).len() == s.len() + 1,
        insert_keyed(s, x).to_multiset() == s.to_multiset().insert(x),
    decreases s.len(),
{
    broadcast use vstd::seq_lib::group_to_multiset_ensures;
    if s.len() == 0 {
        assert(seq![x] =~= Seq::<(u32, A)>::empty().push(x));
    } else if s.last().0 <= x.0 {
    } else {
        let d = s.drop_last();
        assert(d.push(s.last()) =~= s);
        lemma_insert_keeps_sorted(d, x);
        let r = insert_keyed(d, x);
        assert forall|k: int| 0 <= k < r.len() implies r[k].0 <= s.last().0 by {
            assert(r.to_multiset().count(r[k]) > 0);
            assert(d.to_multiset().insert(x).count(r[k]) > 0);
            if r[k] != x {
                assert(d.to_multiset().count(r[k]) > 0);
                assert(d.contains(r[k]));
            }
        }
    }
}

/// What a stable sort by key promises: the keys ascend and the elements are
/// the same, each as often.
pub proof fn law_sort_keyed<A>(s: Seq<(u32, A)>)
    ensures
        sorted_keys(sort_keyed(s)),
        sort_keyed(s).to_multiset() == s.to_multiset(),
    decreases s.len(),
{
    broadcast use vstd::seq_lib::group_to_multiset_ensures;
    if s.len() > 0 {
        let d = s.drop_last();
        law_sort_keyed(d);
        lemma_insert_keeps_sorted(sort_keyed(d), s.last());
        assert(d.push(s.last()) =~= s);
    }
}

/// Sorts by key, stably (`sort_keyed` in the model).
pub fn sort_by_keys<T>(v: Vec<(u32, T)>) -> (r: Vec<(u32, T)>)
    ensures
        r@ == sort_keyed(v@),
{
    let ghost orig = v@;
    assert(orig.len() == v.len());
    let mut rest = v;
    let mut out: Vec<(u32, T)> = Vec::new();
    let mut i: usize = 0;
    assert(orig.take(0) =~= Seq::<(u32, T)>::empty());
    while rest.len() > 0
        invariant
            i <= orig.len() <= usize::MAX,
            rest@ == orig.skip(i as int),
            out@ == sort_keyed(orig.take(i as int)),
        decreases rest.len(),
    {
        let x = rest.remove(0);
        assert(x == orig[i as int]);
        assert(orig.take(i + 1).drop_last() =~= orig.take(i as int));
        assert(orig.take(i + 1).last() == x);
        let ghost s = out@;
        let mut j: usize = out.len();
        while j > 0 && out[j - 1].0 > x.0
            invariant
                out@ == s,
                j <= s.len(),
                forall|k: int| j <= k < s.len() ==> s[k].0 > x.0,
            decreases j,
        {
            j -= 1;
        }
        proof {
            lemma_insert_at(s, x, j as int);
        }
        out.insert(j, x);
        i += 1;
        assert(orig.skip(i as int) =~= orig.skip(i - 1).remove(0));
    }
    assert(orig.take(i as int) =~= orig);
    out
}

/// The values, keys dropped.
pub fn drop_keys<T>(v: Vec<(u32, T)>) -> (r: Vec<T>)
    ensures
        r@ == v@.map_values(|p: (u32, T)| p.1),
{
    let ghost orig = v@;
    assert(orig.len() == v.len());
    let mut rest = v;
    let mut out: Vec<T> = Vec::new();
    let mut i: usize = 0;
    while rest.len() > 0
        invariant
            i <= orig.len() <= usize::MAX,
            rest@ == orig.skip(i as int),
            out@ == orig.take(i as int).map_values(|p: (u32, T)| p.1),
        decreases rest.len(),
    {
        let x = rest.remove(0);
        assert(x == orig[i as int]);
        out.push(x.1);
        i += 1;
        assert(out@ =~= orig.take(i as int).map_values(|p: (u32, T)| p.1));
        assert(orig.skip(i as int) =~= orig.skip(i - 1).remove(0));
    }
    assert(orig.take(i as int) =~= orig);
    out
}

} // verus!
