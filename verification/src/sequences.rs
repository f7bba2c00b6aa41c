//! Facts about sequences that the loops of this crate rest on.

use vstd::prelude::*;

verus! {

/// Selecting from a sequence with one more element, then mapping: the element
/// comes last in the result if it is selected, and is left out if not.
pub proof fn lemma_filter_map_push<A, B>(
    s: Seq<A>,
    x: A,
    keep: spec_fn(A) -> bool,
    f: spec_fn(A) -> B,
)
    ensures
        s.push(x).filter(keep).map_values(f) == if keep(x) {
            s.filter(keep).map_values(f).push(f(x))
        } else {
            s.filter(keep).map_values(f)
        },
{
    reveal(Seq::filter);
    assert(s.push(x).drop_last() =~= s);
    if keep(x) {
        assert(s.filter(keep).push(x).map_values(f) =~= s.filter(keep).map_values(f).push(f(x)));
    }
}

/// Selecting from, then mapping, the first `i + 1` elements of `s`, in terms of
/// the first `i`.
pub proof fn lemma_filter_map_take<A, B>(
    s: Seq<A>,
    i: int,
    keep: spec_fn(A) -> bool,
    f: spec_fn(A) -> B,
)
    requires
        0 <= i < s.len(),
    ensures
        s.take(i + 1).filter(keep).map_values(f) == if keep(s[i]) {
            s.take(i).filter(keep).map_values(f).push(f(s[i]))
        } else {
            s.take(i).filter(keep).map_values(f)
        },
{
    assert(s.take(i + 1) =~= s.take(i).push(s[i]));
    lemma_filter_map_push(s.take(i), s[i], keep, f);
}

/// Nothing is selected from an empty sequence.
pub proof fn lemma_filter_map_empty<A, B>(keep: spec_fn(A) -> bool, f: spec_fn(A) -> B)
    ensures
        Seq::<A>::empty().filter(keep).map_values(f) == Seq::<B>::empty(),
{
    reveal(Seq::filter);
    assert(Seq::<A>::empty().filter(keep).map_values(f) =~= Seq::<B>::empty());
}

/// Where every element is selected, the selection is the whole sequence.
pub proof fn lemma_filter_all<A>(s: Seq<A>, keep: spec_fn(A) -> bool)
    requires
        forall|i: int| 0 <= i < s.len() ==> keep(#[trigger] s[i]),
    ensures
        s.filter(keep) == s,
    decreases s.len(),
{
    reveal(Seq::filter);
    if s.len() > 0 {
        lemma_filter_all(s.drop_last(), keep);
        assert(s.drop_last().push(s.last()) =~= s);
    }
}

/// Where no element is selected, the selection is empty.
pub proof fn lemma_filter_none<A>(s: Seq<A>, keep: spec_fn(A) -> bool)
    requires
        forall|i: int| 0 <= i < s.len() ==> !keep(#[trigger] s[i]),
    ensures
        s.filter(keep) == Seq::<A>::empty(),
    decreases s.len(),
{
    reveal(Seq::filter);
    if s.len() > 0 {
        lemma_filter_none(s.drop_last(), keep);
    } else {
        assert(s =~= Seq::empty());
    }
}

} // verus!
