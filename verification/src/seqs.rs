//! Small sequence helpers shared by the layout proofs: concatenation of a
//! sequence of sequences, and sums of integer sequences.

use vstd::prelude::*;

verus! {

/// Concatenation of all elements, in order.
pub open spec fn concat_elems<A>(ss: Seq<Seq<A>>) -> Seq<A>
    decreases ss.len(),
{
    if ss.len() == 0 {
        Seq::empty()
    } else {
        concat_elems(ss.drop_last()) + ss.last()
    }
}

pub proof fn lemma_concat_elems_push<A>(ss: Seq<Seq<A>>, x: Seq<A>)
    ensures
        concat_elems(ss.push(x)) == concat_elems(ss) + x,
{
    assert(ss.push(x).drop_last() =~= ss);
}

pub proof fn lemma_concat_elems_concat<A>(a: Seq<Seq<A>>, b: Seq<Seq<A>>)
    ensures
        concat_elems(a + b) == concat_elems(a) + concat_elems(b),
    decreases b.len(),
{
    if b.len() == 0 {
        assert(a + b =~= a);
        assert(concat_elems(a) + concat_elems(b) =~= concat_elems(a));
    } else {
        lemma_concat_elems_concat(a, b.drop_last());
        assert((a + b).drop_last() =~= a + b.drop_last());
        assert(concat_elems(a) + concat_elems(b.drop_last()) + b.last() =~= concat_elems(a)
            + (concat_elems(b.drop_last()) + b.last()));
    }
}

pub proof fn lemma_concat_elems_first<A>(m: Seq<Seq<A>>)
    requires
        m.len() > 0,
    ensures
        concat_elems(m) == m[0] + concat_elems(m.skip(1)),
{
    assert(m =~= m.take(1) + m.skip(1));
    lemma_concat_elems_concat(m.take(1), m.skip(1));
    assert(m.take(1).drop_last() =~= Seq::<Seq<A>>::empty());
    assert(concat_elems(m.take(1)) == concat_elems(m.take(1).drop_last()) + m.take(1).last());
    assert(Seq::<A>::empty() + m[0] =~= m[0]);
}

/// Sum of a sequence of integers.
pub open spec fn sum_ints(s: Seq<int>) -> int
    decreases s.len(),
{
    if s.len() == 0 {
        0
    } else {
        sum_ints(s.drop_last()) + s.last()
    }
}

pub proof fn lemma_sum_ints_push(s: Seq<int>, x: int)
    ensures
        sum_ints(s.push(x)) == sum_ints(s) + x,
{
    assert(s.push(x).drop_last() =~= s);
}

pub proof fn lemma_sum_ints_concat(a: Seq<int>, b: Seq<int>)
    ensures
        sum_ints(a + b) == sum_ints(a) + sum_ints(b),
    decreases b.len(),
{
    if b.len() == 0 {
        assert(a + b =~= a);
    } else {
        lemma_sum_ints_concat(a, b.drop_last());
        assert((a + b).drop_last() =~= a + b.drop_last());
    }
}

pub proof fn lemma_sum_ints_nonneg(s: Seq<int>)
    requires
        forall|i: int| 0 <= i < s.len() ==> s[i] >= 0,
    ensures
        sum_ints(s) >= 0,
    decreases s.len(),
{
    if s.len() > 0 {
        lemma_sum_ints_nonneg(s.drop_last());
    }
}

} // verus!
