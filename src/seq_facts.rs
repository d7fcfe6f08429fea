//! Facts about sequences that the registry's proofs share.
use vstd::prelude::*;

verus! {

/// Filtering one more element of `s` adds it at the end when it passes.
pub proof fn lemma_filter_take_step<A>(s: Seq<A>, i: int, pred: spec_fn(A) -> bool)
    requires
        0 <= i < s.len(),
    ensures
        s.take(i + 1).filter(pred) == (if pred(s[i]) {
            s.take(i).filter(pred).push(s[i])
        } else {
            s.take(i).filter(pred)
        }),
{
    reveal(Seq::filter);
    assert(s.take(i + 1).drop_last() =~= s.take(i));
    assert(s.take(i + 1).last() == s[i]);
}

/// Filtering the empty prefix gives nothing.
pub proof fn lemma_filter_take_zero<A>(s: Seq<A>, pred: spec_fn(A) -> bool)
    ensures
        s.take(0).filter(pred) == Seq::<A>::empty(),
{
    reveal(Seq::filter);
    assert(s.take(0) =~= Seq::<A>::empty());
}

/// An element is in `s.push(x)` when it is `x` or in `s`.
pub proof fn lemma_contains_push<A>(s: Seq<A>, x: A)
    ensures
        forall|p: A| #[trigger] s.push(x).contains(p) <==> (s.contains(p) || p == x),
{
    assert forall|p: A| #[trigger] s.push(x).contains(p) <==> (s.contains(p) || p == x) by {
        if s.contains(p) {
            let j = choose|j: int| 0 <= j < s.len() && s[j] == p;
            assert(s.push(x)[j] == p);
        }
        if p == x {
            assert(s.push(x)[s.len() as int] == p);
        }
        if s.push(x).contains(p) {
            let j = choose|j: int| 0 <= j < s.push(x).len() && s.push(x)[j] == p;
            if j < s.len() {
                assert(s[j] == p);
            }
        }
    }
}

/// Filtering keeps a sequence free of duplicates.
pub proof fn lemma_filter_no_duplicates<A>(s: Seq<A>, pred: spec_fn(A) -> bool)
    requires
        s.no_duplicates(),
    ensures
        s.filter(pred).no_duplicates(),
    decreases s.len(),
{
    reveal(Seq::filter);
    if s.len() > 0 {
        let rest = s.drop_last();
        assert(rest.no_duplicates());
        lemma_filter_no_duplicates(rest, pred);
        if pred(s.last()) {
            let f = rest.filter(pred);
            assert forall|j: int| 0 <= j < f.len() implies f[j] != s.last() by {
                assert(f.contains(f[j]));
                rest.lemma_filter_contains_rev(pred, f[j]);
                let k = choose|k: int| 0 <= k < rest.len() && rest[k] == f[j];
                assert(s[k] == f[j]);
                assert(k != s.len() - 1);
            }
            lemma_push_no_duplicates(f, s.last());
        }
    }
}

/// Pushing an element that is not there keeps a sequence free of duplicates.
pub proof fn lemma_push_no_duplicates<A>(s: Seq<A>, x: A)
    requires
        s.no_duplicates(),
        forall|j: int| 0 <= j < s.len() ==> s[j] != x,
    ensures
        s.push(x).no_duplicates(),
{
    assert forall|i: int, j: int| 0 <= i < s.push(x).len() && 0 <= j < s.push(x).len() && i != j
        implies s.push(x)[i] != s.push(x)[j] by {
        if i < s.len() && j < s.len() {
            assert(s.push(x)[i] == s[i] && s.push(x)[j] == s[j]);
        } else if i < s.len() {
            assert(s.push(x)[i] == s[i]);
        } else {
            assert(s.push(x)[j] == s[j]);
        }
    }
}

/// Filtering by a predicate that no element meets gives nothing.
pub proof fn lemma_filter_none<A>(s: Seq<A>, pred: spec_fn(A) -> bool)
    requires
        forall|j: int| 0 <= j < s.len() ==> !pred(#[trigger] s[j]),
    ensures
        s.filter(pred) == Seq::<A>::empty(),
    decreases s.len(),
{
    reveal(Seq::filter);
    if s.len() > 0 {
        let rest = s.drop_last();
        assert forall|j: int| 0 <= j < rest.len() implies !pred(#[trigger] rest[j]) by {
            assert(rest[j] == s[j]);
        }
        lemma_filter_none(rest, pred);
        assert(!pred(s[s.len() - 1]));
    } else {
        assert(s =~= Seq::<A>::empty());
    }
}

/// Filtering by a predicate that every element meets changes nothing.
pub proof fn lemma_filter_all<A>(s: Seq<A>, pred: spec_fn(A) -> bool)
    requires
        forall|j: int| 0 <= j < s.len() ==> pred(#[trigger] s[j]),
    ensures
        s.filter(pred) == s,
    decreases s.len(),
{
    reveal(Seq::filter);
    if s.len() > 0 {
        let rest = s.drop_last();
        assert forall|j: int| 0 <= j < rest.len() implies pred(#[trigger] rest[j]) by {
            assert(rest[j] == s[j]);
        }
        lemma_filter_all(rest, pred);
        assert(pred(s[s.len() - 1]));
        assert(rest.push(s.last()) =~= s);
    } else {
        assert(s =~= Seq::<A>::empty());
    }
}

} // verus!
