//! Picking elements of a sequence by their positions.
use vstd::prelude::*;

verus! {

/// Whether `p` lists the positions below `n` that are chosen, each once and in
/// growing order.
pub open spec fn lists_positions(p: Seq<int>, n: int, chosen: spec_fn(int) -> bool) -> bool {
    &&& forall|k: int| 0 <= k < p.len() ==> 0 <= #[trigger] p[k] < n && chosen(p[k])
    &&& forall|k: int, l: int| 0 <= k < l < p.len() ==> #[trigger] p[k] < #[trigger] p[l]
    &&& forall|j: int| 0 <= j < n && #[trigger] chosen(j) ==> p.contains(j)
}

/// The elements at the positions.
pub open spec fn elements_at<A>(s: Seq<A>, p: Seq<int>) -> Seq<A> {
    Seq::new(p.len(), |k: int| s[p[k]])
}

/// The positions of the elements that a filter keeps.
spec fn kept_positions<A>(s: Seq<A>, keep: spec_fn(A) -> bool) -> Seq<int>
    decreases s.len(),
{
    if s.len() == 0 {
        Seq::empty()
    } else if keep(s.last()) {
        kept_positions(s.drop_last(), keep).push(s.len() - 1)
    } else {
        kept_positions(s.drop_last(), keep)
    }
}

/// A filter keeps the elements at the positions where its condition holds, in
/// their order.
pub proof fn filter_by_position<A>(s: Seq<A>, keep: spec_fn(A) -> bool) -> (p: Seq<int>)
    ensures
        lists_positions(p, s.len() as int, |j: int| keep(s[j])),
        s.filter(keep) == elements_at(s, p),
    decreases s.len(),
{
    reveal(Seq::filter);
    let p = kept_positions(s, keep);
    let chosen = |j: int| keep(s[j]);
    if s.len() == 0 {
        assert(s.filter(keep) =~= elements_at(s, p));
    } else {
        let rest = s.drop_last();
        let n = s.len() - 1;
        let q = filter_by_position(rest, keep);
        let before = |j: int| keep(rest[j]);
        let next = if keep(s.last()) {
            q.push(n)
        } else {
            q
        };
        assert forall|k: int| 0 <= k < next.len() implies 0 <= #[trigger] next[k] < s.len()
            && chosen(next[k]) by {
            if k < q.len() {
                assert(next[k] == q[k]);
                assert(before(q[k]));
                assert(rest[q[k]] == s[q[k]]);
            }
        }
        assert forall|k: int, l: int| 0 <= k < l < next.len() implies #[trigger] next[k]
            < #[trigger] next[l] by {
            assert(next[k] == q[k]);
            if l < q.len() {
                assert(next[l] == q[l]);
            }
        }
        assert forall|j: int| 0 <= j < s.len() && #[trigger] chosen(j) implies next.contains(j) by {
            if j < n {
                assert(rest[j] == s[j]);
                assert(before(j));
                let k = choose|k: int| 0 <= k < q.len() && q[k] == j;
                assert(next[k] == j);
            } else {
                assert(next[q.len() as int] == j);
            }
        }
        assert(s.filter(keep) =~= elements_at(s, next));
        return next;
    }
    p
}

/// Conditions that agree choose the same positions.
pub proof fn same_positions(
    p: Seq<int>,
    n: int,
    first: spec_fn(int) -> bool,
    second: spec_fn(int) -> bool,
)
    requires
        lists_positions(p, n, first),
        forall|j: int| 0 <= j < n ==> (first(j) <==> #[trigger] second(j)),
    ensures
        lists_positions(p, n, second),
{
    assert forall|k: int| 0 <= k < p.len() implies 0 <= #[trigger] p[k] < n && second(p[k]) by {
        assert(first(p[k]));
        assert(second(p[k]) == second(p[k]));
    }
    assert forall|j: int| 0 <= j < n && #[trigger] second(j) implies p.contains(j) by {
        assert(first(j));
    }
}

/// Choosing among chosen positions is choosing by both conditions.
pub proof fn positions_within(
    p: Seq<int>,
    n: int,
    first: spec_fn(int) -> bool,
    q: Seq<int>,
    second: spec_fn(int) -> bool,
)
    requires
        lists_positions(p, n, first),
        lists_positions(q, p.len() as int, |k: int| second(p[k])),
    ensures
        lists_positions(elements_at(p, q), n, |j: int| first(j) && second(j)),
{
    let r = elements_at(p, q);
    let inner = |k: int| second(p[k]);
    let both = |j: int| first(j) && second(j);
    assert forall|k: int| 0 <= k < r.len() implies 0 <= #[trigger] r[k] < n && both(r[k]) by {
        assert(r[k] == p[q[k]]);
        assert(inner(q[k]));
    }
    assert forall|k: int, l: int| 0 <= k < l < r.len() implies #[trigger] r[k]
        < #[trigger] r[l] by {
        assert(q[k] < q[l]);
        assert(p[q[k]] < p[q[l]]);
    }
    assert forall|j: int| 0 <= j < n && #[trigger] both(j) implies r.contains(j) by {
        assert(first(j));
        let k = choose|k: int| 0 <= k < p.len() && p[k] == j;
        assert(inner(k));
        let l = choose|l: int| 0 <= l < q.len() && q[l] == k;
        assert(r[l] == j);
    }
}

/// There is one list of the chosen positions.
pub proof fn positions_are_unique(
    p: Seq<int>,
    q: Seq<int>,
    n: int,
    chosen: spec_fn(int) -> bool,
)
    requires
        lists_positions(p, n, chosen),
        lists_positions(q, n, chosen),
    ensures
        p == q,
    decreases p.len() + q.len(),
{
    if p.len() > 0 && q.len() > 0 {
        let a = p.last();
        let b = q.last();
        assert(p[p.len() - 1] == a && q[q.len() - 1] == b);
        assert(p.contains(b)) by {
            assert(chosen(q[q.len() - 1]));
        }
        assert(q.contains(a)) by {
            assert(chosen(p[p.len() - 1]));
        }
        let k = choose|k: int| 0 <= k < p.len() && p[k] == b;
        let l = choose|l: int| 0 <= l < q.len() && q[l] == a;
        if k < p.len() - 1 {
            assert(p[k] < p[p.len() - 1]);
        }
        if l < q.len() - 1 {
            assert(q[l] < q[q.len() - 1]);
        }
        assert(a == b);
        let below = |j: int| j < a && chosen(j);
        shorter(p, n, chosen);
        shorter(q, n, chosen);
        positions_are_unique(p.drop_last(), q.drop_last(), n, below);
        assert(p =~= p.drop_last().push(a));
        assert(q =~= q.drop_last().push(a));
    } else if p.len() > 0 {
        assert(chosen(p[0]));
        assert(q.contains(p[0]));
    } else if q.len() > 0 {
        assert(chosen(q[0]));
        assert(p.contains(q[0]));
    } else {
        assert(p =~= q);
    }
}

/// Without its last position a list is that of the smaller ones.
proof fn shorter(p: Seq<int>, n: int, chosen: spec_fn(int) -> bool)
    requires
        lists_positions(p, n, chosen),
        p.len() > 0,
    ensures
        lists_positions(p.drop_last(), n, |j: int| j < p.last() && chosen(j)),
{
    let r = p.drop_last();
    let below = |j: int| j < p.last() && chosen(j);
    assert forall|k: int| 0 <= k < r.len() implies 0 <= #[trigger] r[k] < n && below(r[k]) by {
        assert(r[k] == p[k]);
        assert(p[k] < p[p.len() - 1]);
        assert(chosen(p[k]));
    }
    assert forall|k: int, l: int| 0 <= k < l < r.len() implies #[trigger] r[k]
        < #[trigger] r[l] by {
        assert(p[k] < p[l]);
    }
    assert forall|j: int| 0 <= j < n && #[trigger] below(j) implies r.contains(j) by {
        assert(chosen(j));
        let k = choose|k: int| 0 <= k < p.len() && p[k] == j;
        assert(r[k] == j);
    }
}

/// The chosen positions can be listed.
pub proof fn choose_positions(n: int, chosen: spec_fn(int) -> bool) -> (p: Seq<int>)
    requires
        0 <= n,
    ensures
        lists_positions(p, n, chosen),
{
    let all = Seq::new(n as nat, |j: int| j);
    let p = filter_by_position(all, chosen);
    same_positions(p, n, |j: int| chosen(all[j]), chosen);
    p
}

} // verus!
