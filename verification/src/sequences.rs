//! Steps of proofs about sequences that are read element by element.

use vstd::prelude::*;

verus! {

/// The values other than `target`.
pub open spec fn other_than<A>(target: A) -> spec_fn(A) -> bool {
    |x: A| x != target
}

/// Filtering one element more either appends that element or changes nothing.
pub proof fn lemma_filter_next<A>(s: Seq<A>, i: int, keep: spec_fn(A) -> bool)
    requires
        0 <= i < s.len(),
    ensures
        s.take(i + 1).filter(keep) == if keep(s[i]) {
            s.take(i).filter(keep).push(s[i])
        } else {
            s.take(i).filter(keep)
        },
{
    assert(s.take(i + 1) == s.take(i).push(s[i]));
    s.take(i).lemma_filter_push(s[i], keep);
}

/// Mapping one element more appends its image.
pub proof fn lemma_map_next<A, B>(s: Seq<A>, i: int, f: spec_fn(A) -> B)
    requires
        0 <= i < s.len(),
    ensures
        s.take(i + 1).map_values(f) == s.take(i).map_values(f).push(f(s[i])),
{
    assert(s.take(i + 1).map_values(f) =~= s.take(i).map_values(f).push(f(s[i])));
}

/// A prefix extended by one element holds what the prefix held, and that element.
pub proof fn lemma_contains_next<A>(s: Seq<A>, i: int, x: A)
    requires
        0 <= i < s.len(),
    ensures
        s.take(i + 1).contains(x) == (s.take(i).contains(x) || s[i] == x),
{
    let next = s.take(i + 1);
    if s[i] == x {
        assert(next[i] == x);
    }
    if s.take(i).contains(x) {
        let j = choose|j: int| 0 <= j < i && s.take(i)[j] == x;
        assert(next[j] == x);
    }
    if next.contains(x) {
        let j = choose|j: int| 0 <= j < i + 1 && next[j] == x;
        if j < i {
            assert(s.take(i)[j] == x);
        }
    }
}

/// Every element of a filtered sequence comes from the sequence.
pub proof fn lemma_filter_keeps<A>(s: Seq<A>, keep: spec_fn(A) -> bool, i: int)
    requires
        0 <= i < s.filter(keep).len(),
    ensures
        s.contains(s.filter(keep)[i]),
        keep(s.filter(keep)[i]),
        s.filter(keep).len() <= s.len(),
{
    s.lemma_filter_len(keep);
    s.lemma_filter_pred(keep, i);
    assert(s.filter(keep).contains(s.filter(keep)[i]));
    s.lemma_filter_contains_rev(keep, s.filter(keep)[i]);
}

/// Where `target` does not occur, removing it changes nothing.
pub proof fn lemma_filter_unchanged<A>(s: Seq<A>, target: A)
    requires
        !s.contains(target),
    ensures
        s.filter(other_than(target)) == s,
    decreases s.len(),
{
    reveal(Seq::filter);
    if s.len() > 0 {
        assert(s.last() == s[s.len() - 1]);
        assert forall|j: int| 0 <= j < s.drop_last().len() implies s.drop_last()[j] != target by {
            assert(s.drop_last()[j] == s[j]);
        }
        lemma_filter_unchanged(s.drop_last(), target);
        assert(s.drop_last().push(s.last()) == s);
    }
}

} // verus!
