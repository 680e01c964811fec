//! What filtering a sequence keeps.
use vstd::prelude::*;

verus! {

/// A kept element was there before.
pub proof fn filter_only_keeps<A>(values: Seq<A>, keep: spec_fn(A) -> bool, i: int)
    requires
        0 <= i < values.filter(keep).len(),
    ensures
        keep(values.filter(keep)[i]),
        exists|j: int| 0 <= j < values.len() && #[trigger] values[j] == values.filter(keep)[i],
    decreases values.len(),
{
    reveal(Seq::filter);
    let rest = values.drop_last();
    if i < rest.filter(keep).len() {
        filter_only_keeps(rest, keep, i);
        let j = choose|j: int| 0 <= j < rest.len() && #[trigger] rest[j] == rest.filter(keep)[i];
        assert(values[j] == values.filter(keep)[i]);
    } else {
        assert(values[values.len() - 1] == values.filter(keep)[i]);
    }
}

/// An element that is to be kept is kept.
pub proof fn filter_keeps<A>(values: Seq<A>, keep: spec_fn(A) -> bool, j: int)
    requires
        0 <= j < values.len(),
        keep(values[j]),
    ensures
        exists|i: int|
            0 <= i < values.filter(keep).len() && #[trigger] values.filter(keep)[i] == values[j],
    decreases values.len(),
{
    reveal(Seq::filter);
    let rest = values.drop_last();
    let kept = values.filter(keep);
    if j < rest.len() {
        filter_keeps(rest, keep, j);
        let i = choose|i: int|
            0 <= i < rest.filter(keep).len() && #[trigger] rest.filter(keep)[i] == rest[j];
        assert(kept[i] == values[j]);
    } else {
        assert(kept[kept.len() - 1] == values[j]);
    }
}

/// A condition that everything meets keeps everything.
pub proof fn filter_all<A>(s: Seq<A>, p: spec_fn(A) -> bool)
    requires
        forall|i: int| 0 <= i < s.len() ==> p(#[trigger] s[i]),
    ensures
        s.filter(p) == s,
    decreases s.len(),
{
    reveal(Seq::filter);
    if s.len() > 0 {
        let rest = s.drop_last();
        assert forall|i: int| 0 <= i < rest.len() implies p(#[trigger] rest[i]) by {
            assert(rest[i] == s[i]);
        }
        filter_all(rest, p);
        assert(p(s[s.len() - 1]));
        assert(s =~= rest.push(s.last()));
    }
}

/// A condition that no element meets keeps nothing.
pub proof fn filter_keeps_nothing<A>(s: Seq<A>, p: spec_fn(A) -> bool)
    requires
        forall|i: int| 0 <= i < s.len() ==> !p(#[trigger] s[i]),
    ensures
        s.filter(p) == Seq::<A>::empty(),
    decreases s.len(),
{
    reveal(Seq::filter);
    if s.len() > 0 {
        let rest = s.drop_last();
        assert forall|i: int| 0 <= i < rest.len() implies !p(#[trigger] rest[i]) by {
            assert(rest[i] == s[i]);
        }
        filter_keeps_nothing(rest, p);
        assert(!p(s[s.len() - 1]));
    } else {
        assert(s.filter(p) =~= Seq::<A>::empty());
    }
}

/// Conditions that agree on the elements keep the same elements.
pub proof fn filter_agree<A>(s: Seq<A>, p: spec_fn(A) -> bool, q: spec_fn(A) -> bool)
    requires
        forall|i: int| 0 <= i < s.len() ==> (p(#[trigger] s[i]) <==> q(s[i])),
    ensures
        s.filter(p) == s.filter(q),
    decreases s.len(),
{
    reveal(Seq::filter);
    if s.len() > 0 {
        let rest = s.drop_last();
        assert forall|i: int| 0 <= i < rest.len() implies (p(#[trigger] rest[i]) <==> q(
            rest[i],
        )) by {
            assert(rest[i] == s[i]);
        }
        filter_agree(rest, p, q);
        assert(s[s.len() - 1] == s.last());
    }
}

/// Filtering twice is filtering once by both conditions.
pub proof fn filter_twice<A>(
    s: Seq<A>,
    first: spec_fn(A) -> bool,
    second: spec_fn(A) -> bool,
    both: spec_fn(A) -> bool,
)
    requires
        forall|i: int|
            0 <= i < s.len() ==> (both(#[trigger] s[i]) <==> first(s[i]) && second(s[i])),
    ensures
        s.filter(first).filter(second) == s.filter(both),
    decreases s.len(),
{
    reveal(Seq::filter);
    if s.len() > 0 {
        let rest = s.drop_last();
        assert forall|i: int| 0 <= i < rest.len() implies (both(#[trigger] rest[i]) <==> first(
            rest[i],
        ) && second(rest[i])) by {
            assert(rest[i] == s[i]);
        }
        filter_twice(rest, first, second, both);
        assert(s[s.len() - 1] == s.last());
        if first(s.last()) {
            assert(s.filter(first).drop_last() =~= rest.filter(first));
        }
    }
}

/// A condition and its opposite split a list.
pub proof fn filter_splits<A>(s: Seq<A>, p: spec_fn(A) -> bool, q: spec_fn(A) -> bool)
    requires
        forall|a: A| #[trigger] p(a) <==> !q(a),
    ensures
        s.to_multiset() == s.filter(p).to_multiset().add(s.filter(q).to_multiset()),
    decreases s.len(),
{
    broadcast use vstd::seq_lib::group_to_multiset_ensures;

    reveal(Seq::filter);
    if s.len() > 0 {
        let rest = s.drop_last();
        filter_splits(rest, p, q);
        assert(s =~= rest.push(s.last()));
        assert(rest.push(s.last()).to_multiset() =~= rest.to_multiset().insert(s.last()));
        assert(p(s.last()) <==> !q(s.last()));
        if p(s.last()) {
            assert(s.filter(p) == rest.filter(p).push(s.last()));
            assert(s.filter(p).to_multiset() =~= rest.filter(p).to_multiset().insert(s.last()));
        } else {
            assert(s.filter(q) == rest.filter(q).push(s.last()));
            assert(s.filter(q).to_multiset() =~= rest.filter(q).to_multiset().insert(s.last()));
        }
        assert(s.to_multiset() =~= s.filter(p).to_multiset().add(s.filter(q).to_multiset()));
    } else {
        assert(s.to_multiset() =~= s.filter(p).to_multiset().add(s.filter(q).to_multiset()));
    }
}

} // verus!
