//! Small facts about `Seq::filter` that the hand and deck modules share:
//! how a filter grows one element at a time, and what removing one value
//! does to a duplicate-free sequence.

use vstd::prelude::*;

verus! {

/// Extending the filtered prefix of `s` by one element keeps or appends
/// `s[i]` according to the predicate.
pub proof fn lemma_filter_step<A>(s: Seq<A>, pred: spec_fn(A) -> bool, i: int)
    requires
        0 <= i < s.len(),
    ensures
        s.subrange(0, i + 1).filter(pred) == (if pred(s[i]) {
            s.subrange(0, i).filter(pred).push(s[i])
        } else {
            s.subrange(0, i).filter(pred)
        }),
{
    reveal(Seq::filter);
    let t = s.subrange(0, i + 1);
    assert(t.drop_last() =~= s.subrange(0, i));
    assert(t.last() == s[i]);
}

/// Filtering keeps exactly the elements the predicate accepts.
pub proof fn lemma_filter_membership<A>(s: Seq<A>, pred: spec_fn(A) -> bool, x: A)
    ensures
        s.filter(pred).contains(x) <==> s.contains(x) && pred(x),
    decreases s.len(),
{
    reveal(Seq::filter);
    if s.len() > 0 {
        lemma_filter_membership(s.drop_last(), pred, x);
        assert(s.contains(x) <==> s.drop_last().contains(x) || s.last() == x) by {
            if s.contains(x) {
                let i = choose|i: int| 0 <= i < s.len() && s[i] == x;
                if i < s.len() - 1 {
                    assert(s.drop_last()[i] == x);
                }
            }
            if s.drop_last().contains(x) {
                let i = choose|i: int| 0 <= i < s.drop_last().len() && s.drop_last()[i] == x;
                assert(s[i] == x);
            }
        }
    }
}

/// Filtering preserves freedom from duplicates.
pub proof fn lemma_filter_no_duplicates<A>(s: Seq<A>, pred: spec_fn(A) -> bool)
    requires
        s.no_duplicates(),
    ensures
        s.filter(pred).no_duplicates(),
    decreases s.len(),
{
    reveal(Seq::filter);
    if s.len() > 0 {
        let rest = s.drop_last();
        assert(forall|i: int| 0 <= i < rest.len() ==> rest[i] == s[i]);
        lemma_filter_no_duplicates(rest, pred);
        if pred(s.last()) {
            lemma_filter_membership(rest, pred, s.last());
            assert(!rest.contains(s.last())) by {
                if rest.contains(s.last()) {
                    let i = choose|i: int| 0 <= i < rest.len() && rest[i] == s.last();
                    assert(s[i] == s[s.len() - 1]);
                }
            }
            let out = rest.filter(pred).push(s.last());
            assert forall|i: int, j: int|
                0 <= i < out.len() && 0 <= j < out.len() && i != j implies out[i] != out[j] by {
                if i < out.len() - 1 && j < out.len() - 1 {
                    assert(out[i] == rest.filter(pred)[i]);
                    assert(out[j] == rest.filter(pred)[j]);
                } else if j == out.len() - 1 {
                    assert(rest.filter(pred).contains(out[i]) && out[j] == s.last());
                } else {
                    assert(rest.filter(pred).contains(out[j]) && out[i] == s.last());
                }
            }
        }
    }
}

/// Removing one value from a duplicate-free sequence that holds it shrinks
/// the sequence by exactly one; removing it again changes nothing.  The
/// predicate is any test for "is not the value".
pub proof fn lemma_remove_value_once<A>(s: Seq<A>, pred: spec_fn(A) -> bool, x: A)
    requires
        forall|y: A| #[trigger] pred(y) <==> y != x,
        s.no_duplicates(),
        s.contains(x),
    ensures
        s.filter(pred).len() == s.len() - 1,
        !s.filter(pred).contains(x),
        s.filter(pred).filter(pred) == s.filter(pred),
    decreases s.len(),
{
    reveal(Seq::filter);
    lemma_filter_membership(s, pred, x);
    lemma_filter_unchanged_when_absent(s.filter(pred), pred, x);
    if s.last() == x {
        assert(forall|i: int| 0 <= i < s.len() - 1 ==> s.drop_last()[i] == s[i]);
        assert(!s.drop_last().contains(x));
        lemma_filter_unchanged_when_absent(s.drop_last(), pred, x);
    } else {
        assert(s.drop_last().contains(x)) by {
            let i = choose|i: int| 0 <= i < s.len() && s[i] == x;
            assert(s.drop_last()[i] == x);
        }
        lemma_remove_value_once(s.drop_last(), pred, x);
    }
}

/// Filtering out a value a sequence does not hold leaves it unchanged.
pub proof fn lemma_filter_unchanged_when_absent<A>(s: Seq<A>, pred: spec_fn(A) -> bool, x: A)
    requires
        forall|y: A| #[trigger] pred(y) <==> y != x,
        !s.contains(x),
    ensures
        s.filter(pred) == s,
    decreases s.len(),
{
    reveal(Seq::filter);
    if s.len() > 0 {
        assert(!s.drop_last().contains(x)) by {
            if s.drop_last().contains(x) {
                let i = choose|i: int| 0 <= i < s.len() - 1 && s.drop_last()[i] == x;
                assert(s[i] == x);
            }
        }
        lemma_filter_unchanged_when_absent(s.drop_last(), pred, x);
        assert(s.last() != x);
        assert(s.filter(pred) =~= s);
    }
}

} // verus!
