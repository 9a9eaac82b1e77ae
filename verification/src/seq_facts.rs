//! Facts about filtered sequences that the laws of this crate rest on.

use vstd::prelude::*;

verus! {

/// Filtering by a predicate that every element meets changes nothing.
pub proof fn lemma_filter_keeps_all<A>(s: Seq<A>, p: spec_fn(A) -> bool)
    requires
        forall|i: int| 0 <= i < s.len() ==> p(#[trigger] s[i]),
    ensures
        s.filter(p) == s,
    decreases s.len(),
{
    if s.len() > 0 {
        let rest = s.drop_last();
        lemma_filter_keeps_all(rest, p);
        assert(rest.push(s.last()) =~= s);
        rest.lemma_filter_push(s.last(), p);
    } else {
        reveal(Seq::filter);
        assert(s.filter(p) =~= s);
    }
}

/// Filtering by a predicate that no element meets leaves nothing.
pub proof fn lemma_filter_keeps_none<A>(s: Seq<A>, p: spec_fn(A) -> bool)
    requires
        forall|i: int| 0 <= i < s.len() ==> !p(#[trigger] s[i]),
    ensures
        s.filter(p) == Seq::<A>::empty(),
    decreases s.len(),
{
    if s.len() > 0 {
        let rest = s.drop_last();
        lemma_filter_keeps_none(rest, p);
        assert(rest.push(s.last()) =~= s);
        rest.lemma_filter_push(s.last(), p);
    } else {
        reveal(Seq::filter);
        assert(s.filter(p) =~= Seq::<A>::empty());
    }
}

/// Filtering twice by the same predicate is filtering once.
pub proof fn lemma_filter_idempotent<A>(s: Seq<A>, p: spec_fn(A) -> bool)
    ensures
        s.filter(p).filter(p) == s.filter(p),
{
    broadcast use vstd::seq_lib::group_filter_ensures;

    let f = s.filter(p);
    assert forall|i: int| 0 <= i < f.len() implies p(#[trigger] f[i]) by {
        s.lemma_filter_pred(p, i);
    }
    lemma_filter_keeps_all(f, p);
}


/// Filtering by `p`, then by a `q` that implies `p`, is filtering by `q`.
pub proof fn lemma_filter_narrower<A>(s: Seq<A>, p: spec_fn(A) -> bool, q: spec_fn(A) -> bool)
    requires
        forall|x: A| #[trigger] q(x) ==> p(x),
    ensures
        s.filter(p).filter(q) == s.filter(q),
    decreases s.len(),
{
    if s.len() > 0 {
        let rest = s.drop_last();
        let last = s.last();
        lemma_filter_narrower(rest, p, q);
        assert(rest.push(last) =~= s);
        rest.lemma_filter_push(last, p);
        rest.lemma_filter_push(last, q);
        if p(last) {
            rest.filter(p).lemma_filter_push(last, q);
        }
    } else {
        reveal(Seq::filter);
        assert(s.filter(p) =~= s);
    }
}


/// Filtering by `p`, then by `q`, is filtering by a `r` that holds exactly
/// where both do.
pub proof fn lemma_filter_both<A>(
    s: Seq<A>,
    p: spec_fn(A) -> bool,
    q: spec_fn(A) -> bool,
    r: spec_fn(A) -> bool,
)
    requires
        forall|x: A| #[trigger] r(x) == (p(x) && q(x)),
    ensures
        s.filter(p).filter(q) == s.filter(r),
    decreases s.len(),
{
    if s.len() > 0 {
        let rest = s.drop_last();
        let last = s.last();
        lemma_filter_both(rest, p, q, r);
        assert(rest.push(last) =~= s);
        rest.lemma_filter_push(last, p);
        rest.lemma_filter_push(last, r);
        if p(last) {
            rest.filter(p).lemma_filter_push(last, q);
        }
    } else {
        reveal(Seq::filter);
        assert(s.filter(p) =~= s);
        assert(s.filter(r) =~= s);
    }
}

} // verus!
