//! Lists of texts, filtered and cut off.

use vstd::prelude::*;

verus! {

/// The first `n` of a sequence, or all where there are fewer.
pub open spec fn first_of<T>(s: Seq<T>, n: nat) -> Seq<T> {
    if s.len() <= n {
        s
    } else {
        s.take(n as int)
    }
}

/// What a filter keeps of a list once `max` entries of it have been found.
pub proof fn lemma_first_of_filtered(
    items: Seq<Seq<char>>,
    i: int,
    keep: spec_fn(Seq<char>) -> bool,
    f: spec_fn(Seq<char>) -> Seq<char>,
    max: nat,
)
    requires
        0 <= i <= items.len(),
        items.take(i).filter(keep).len() <= max,
        i == items.len() || items.take(i).filter(keep).len() == max,
    ensures
        items.take(i).filter(keep).map_values(f) == first_of(items.filter(keep).map_values(f), max),
{
    let a = items.take(i);
    let b = items.skip(i);
    assert(items =~= a + b);
    Seq::filter_distributes_over_add(a, b, keep);
    let all = items.filter(keep).map_values(f);
    if i == items.len() {
        assert(a =~= items);
    }
    assert(all.take(a.filter(keep).len() as int) =~= a.filter(keep).map_values(f));
    assert(all.len() <= max ==> all.take(all.len() as int) =~= all);
    if i < items.len() && all.len() <= max {
        assert(all =~= a.filter(keep).map_values(f));
    }
}

/// What a filter lets through stands in the sequence.
pub proof fn lemma_filtered_stands(s: Seq<Seq<char>>, keep: spec_fn(Seq<char>) -> bool, i: int) -> (
    k: int)
    requires
        0 <= i < s.filter(keep).len(),
    ensures
        0 <= k < s.len(),
        s[k] == s.filter(keep)[i],
        keep(s[k]),
    decreases s.len(),
{
    reveal(Seq::filter);
    let before = s.drop_last();
    if i < before.filter(keep).len() {
        let k = lemma_filtered_stands(before, keep, i);
        assert(before[k] == s[k]);
        k
    } else {
        s.len() - 1
    }
}

/// A filter that lets everything through changes nothing.
pub proof fn lemma_filter_keeps_all(s: Seq<Seq<char>>, keep: spec_fn(Seq<char>) -> bool)
    requires
        forall|k: int| 0 <= k < s.len() ==> keep(#[trigger] s[k]),
    ensures
        s.filter(keep) == s,
    decreases s.len(),
{
    reveal(Seq::filter);
    if s.len() > 0 {
        let before = s.drop_last();
        assert forall|k: int| 0 <= k < before.len() implies keep(#[trigger] before[k]) by {
            assert(before[k] == s[k]);
        }
        lemma_filter_keeps_all(before, keep);
        assert(keep(s[s.len() - 1]));
        assert(before.push(s.last()) =~= s);
    } else {
        assert(s.filter(keep) =~= s);
    }
}

/// Of a sequence the first are taken, as many as asked for or all, at their places.
pub proof fn law_first_are_taken_in_order<T>(s: Seq<T>, n: nat)
    ensures
        first_of(s, n).len() <= n,
        first_of(s, n).len() == n || first_of(s, n).len() == s.len(),
        forall|i: int| 0 <= i < first_of(s, n).len() ==> #[trigger] first_of(s, n)[i] == s[i],
{
}

} // verus!
