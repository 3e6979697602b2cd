//! Facts about sequences and about the views of vectors that the loops of
//! this crate rest on, and lists in which nothing occurs twice.

use vstd::prelude::*;

verus! {

// ---------------------------------------------------------------------------
// Prefixes
// ---------------------------------------------------------------------------
/// The prefix of length `i + 1` is the prefix of length `i` with the element
/// at `i` behind it.
pub proof fn lemma_take_next<T>(s: Seq<T>, i: int)
    requires
        0 <= i < s.len(),
    ensures
        s.take(i + 1).drop_last() == s.take(i),
        s.take(i + 1).last() == s[i],
        s.take(i + 1) == s.take(i).push(s[i]),
{
    assert(s.take(i + 1).drop_last() =~= s.take(i));
    assert(s.take(i + 1) =~= s.take(i).push(s[i]));
}

/// The prefix of full length is the sequence itself.
pub proof fn lemma_take_all<T>(s: Seq<T>)
    ensures
        s.take(s.len() as int) == s,
{
    assert(s.take(s.len() as int) =~= s);
}

// ---------------------------------------------------------------------------
// Views of vectors
// ---------------------------------------------------------------------------
/// The values of a vector after a push are the values before it with the
/// value of what was pushed behind them.
pub proof fn lemma_deep_view_push<T: DeepView>(before: Vec<T>, after: Vec<T>, x: T)
    requires
        after@ == before@.push(x),
    ensures
        after.deep_view() == before.deep_view().push(x.deep_view()),
{
    assert(after.deep_view() =~= before.deep_view().push(x.deep_view()));
}

/// An empty vector has no values.
pub proof fn lemma_deep_view_empty<T: DeepView>(v: Vec<T>)
    requires
        v@.len() == 0,
    ensures
        v.deep_view() == Seq::<T::V>::empty(),
{
    assert(v.deep_view() =~= Seq::<T::V>::empty());
}

// ---------------------------------------------------------------------------
// Lists without repetition
// ---------------------------------------------------------------------------
/// `items` with `x` added at the end unless it is there already.
pub open spec fn with_once(items: Seq<Seq<char>>, x: Seq<char>) -> Seq<Seq<char>> {
    if items.contains(x) {
        items
    } else {
        items.push(x)
    }
}

/// `acc` with the items of `items` that it lacks added, each once, in their
/// order.
pub open spec fn add_all_once(acc: Seq<Seq<char>>, items: Seq<Seq<char>>) -> Seq<Seq<char>>
    decreases items.len(),
{
    if items.len() == 0 {
        acc
    } else {
        with_once(add_all_once(acc, items.drop_last()), items.last())
    }
}

} // verus!
