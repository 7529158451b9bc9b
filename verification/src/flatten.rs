use vstd::prelude::*;

verus! {

/// The concatenation of all the sequences in `s`, in order.
pub open spec fn concat<A>(s: Seq<Seq<A>>) -> Seq<A>
    decreases s.len(),
{
    if s.len() == 0 {
        Seq::empty()
    } else {
        concat(s.drop_last()) + s.last()
    }
}

/// Concatenating one more sequence of a prefix appends that sequence.
pub proof fn lemma_concat_take_step<A>(s: Seq<Seq<A>>, i: int)
    requires
        0 <= i < s.len(),
    ensures
        concat(s.take(i + 1)) == concat(s.take(i)) + s[i],
{
    let t = s.take(i + 1);
    assert(t.drop_last() =~= s.take(i));
}

/// The prefix of length `s.len()` is `s` itself.
pub proof fn lemma_concat_take_all<A>(s: Seq<Seq<A>>)
    ensures
        concat(s.take(s.len() as int)) == concat(s),
{
    assert(s.take(s.len() as int) =~= s);
}

/// Concatenation distributes over appending sequences of sequences.
pub proof fn lemma_concat_append<A>(a: Seq<Seq<A>>, b: Seq<Seq<A>>)
    ensures
        concat(a + b) == concat(a) + concat(b),
    decreases b.len(),
{
    if b.len() == 0 {
        assert(a + b =~= a);
        assert(concat(a) + concat(b) =~= concat(a));
    } else {
        lemma_concat_append(a, b.drop_last());
        assert((a + b).drop_last() =~= a + b.drop_last());
        assert(concat(a + b) =~= concat(a) + concat(b));
    }
}

/// The concatenation around the `i`th sequence: those before, it, those after.
pub proof fn lemma_concat_split<A>(lists: Seq<Seq<A>>, i: int)
    requires
        0 <= i < lists.len(),
    ensures
        concat(lists) == concat(lists.take(i)) + (lists[i] + concat(lists.skip(i + 1))),
{
    assert(lists =~= lists.take(i) + (seq![lists[i]] + lists.skip(i + 1)));
    lemma_concat_append(lists.take(i), seq![lists[i]] + lists.skip(i + 1));
    lemma_concat_append(seq![lists[i]], lists.skip(i + 1));
    assert(seq![lists[i]].drop_last() =~= Seq::<Seq<A>>::empty());
    assert(concat(Seq::<Seq<A>>::empty()) == Seq::<A>::empty());
    assert(seq![lists[i]].last() == lists[i]);
    assert(concat(seq![lists[i]]) =~= Seq::<A>::empty() + lists[i]);
    assert(concat(seq![lists[i]]) =~= lists[i]);
    assert(concat(lists.take(i)) + (concat(seq![lists[i]]) + concat(lists.skip(i + 1)))
        =~= concat(lists.take(i)) + (lists[i] + concat(lists.skip(i + 1))));
}

/// Each item of each sequence is in the concatenation, after the items of
/// the sequences before it.
pub proof fn lemma_concat_index<A>(lists: Seq<Seq<A>>, i: int, m: int)
    requires
        0 <= i < lists.len(),
        0 <= m < lists[i].len(),
    ensures
        concat(lists.take(i)).len() + m < concat(lists).len(),
        concat(lists)[concat(lists.take(i)).len() + m] == lists[i][m],
{
    lemma_concat_split(lists, i);
}

/// Each item of the concatenation comes from one of the sequences.
pub proof fn lemma_concat_locate<A>(lists: Seq<Seq<A>>, n: int) -> (r: (int, int))
    requires
        0 <= n < concat(lists).len(),
    ensures
        0 <= r.0 < lists.len(),
        0 <= r.1 < lists[r.0].len(),
        concat(lists)[n] == lists[r.0][r.1],
    decreases lists.len(),
{
    let init = lists.drop_last();
    let head = concat(init);
    if n < head.len() {
        let (i, m) = lemma_concat_locate(init, n);
        assert(init[i] == lists[i]);
        (i, m)
    } else {
        assert(lists.last() == lists[lists.len() - 1]);
        ((lists.len() - 1) as int, n - head.len())
    }
}

} // verus!
