//! Joining the rows of two tables that go together.

use vstd::prelude::*;

verus! {

/// The rows of `right` that go with `a`, each paired with `a`, in the order
/// of `right`.
pub open spec fn partners<A, B>(a: A, right: Seq<B>, on: spec_fn(A, B) -> bool) -> Seq<(A, B)>
    decreases right.len(),
{
    if right.len() == 0 {
        Seq::empty()
    } else {
        let rest = partners(a, right.drop_last(), on);
        if on(a, right.last()) {
            rest.push((a, right.last()))
        } else {
            rest
        }
    }
}

/// Every pair of a row of `left` and a row of `right` that go together, by
/// the order of `left` and within one row of `left` by the order of `right`.
pub open spec fn join<A, B>(left: Seq<A>, right: Seq<B>, on: spec_fn(A, B) -> bool) -> Seq<(A, B)>
    decreases left.len(),
{
    if left.len() == 0 {
        Seq::empty()
    } else {
        join(left.drop_last(), right, on) + partners(left.last(), right, on)
    }
}

/// The pairs of rows at the places `picks`.
pub open spec fn pairs_at<A, B>(left: Seq<A>, right: Seq<B>, picks: Seq<(usize, usize)>) -> Seq<
    (A, B),
> {
    picks.map_values(|p: (usize, usize)| (left[p.0 as int], right[p.1 as int]))
}

/// The partners of a row are rows of `right` that go with it, and there are
/// no more of them than rows of `right`.
pub proof fn lemma_partners_members<A, B>(a: A, right: Seq<B>, on: spec_fn(A, B) -> bool)
    ensures
        partners(a, right, on).len() <= right.len(),
        forall|k: int|
            0 <= k < partners(a, right, on).len() ==> {
                let p = #[trigger] partners(a, right, on)[k];
                p.0 == a && right.contains(p.1) && on(p.0, p.1)
            },
    decreases right.len(),
{
    if right.len() > 0 {
        let front = right.drop_last();
        lemma_partners_members(a, front, on);
        assert forall|k: int| 0 <= k < partners(a, right, on).len() implies {
            let p = #[trigger] partners(a, right, on)[k];
            p.0 == a && right.contains(p.1) && on(p.0, p.1)
        } by {
            let p = partners(a, right, on)[k];
            if k < partners(a, front, on).len() {
                assert(p == partners(a, front, on)[k]);
                assert(front.contains(p.1));
                let i = choose|i: int| 0 <= i < front.len() && front[i] == p.1;
                assert(right[i] == p.1);
            } else {
                assert(right[right.len() - 1] == p.1);
            }
        }
    }
}

/// Every joined pair is made of a row of `left` and a row of `right` that go
/// together.
pub proof fn lemma_join_members<A, B>(left: Seq<A>, right: Seq<B>, on: spec_fn(A, B) -> bool)
    ensures
        join(left, right, on).len() <= left.len() * right.len(),
        forall|k: int|
            0 <= k < join(left, right, on).len() ==> {
                let p = #[trigger] join(left, right, on)[k];
                left.contains(p.0) && right.contains(p.1) && on(p.0, p.1)
            },
    decreases left.len(),
{
    if left.len() > 0 {
        let front = left.drop_last();
        lemma_join_members(front, right, on);
        lemma_partners_members(left.last(), right, on);
        assert((left.len() - 1) * right.len() + right.len() == left.len() * right.len())
            by (nonlinear_arith);
        assert forall|k: int| 0 <= k < join(left, right, on).len() implies {
            let p = #[trigger] join(left, right, on)[k];
            left.contains(p.0) && right.contains(p.1) && on(p.0, p.1)
        } by {
            let p = join(left, right, on)[k];
            let before = join(front, right, on);
            if k < before.len() {
                assert(p == before[k]);
                assert(front.contains(p.0));
                let i = choose|i: int| 0 <= i < front.len() && front[i] == p.0;
                assert(left[i] == p.0);
            } else {
                assert(p == partners(left.last(), right, on)[k - before.len()]);
                assert(left[left.len() - 1] == p.0);
            }
        }
    }
}

/// Every row of `right` that goes with `a` is among its partners.
pub proof fn lemma_partners_complete<A, B>(a: A, right: Seq<B>, on: spec_fn(A, B) -> bool, j: int)
    requires
        0 <= j < right.len(),
        on(a, right[j]),
    ensures
        partners(a, right, on).contains((a, right[j])),
    decreases right.len(),
{
    let front = right.drop_last();
    let rest = partners(a, front, on);
    if j == right.len() - 1 {
        assert(rest.push((a, right.last()))[rest.len() as int] == (a, right[j]));
    } else {
        lemma_partners_complete(a, front, on, j);
        let k = choose|k: int| 0 <= k < rest.len() && rest[k] == (a, right[j]);
        assert(partners(a, right, on)[k] == (a, right[j]));
    }
}

/// Every row of `left` and row of `right` that go together are joined.
pub proof fn lemma_join_complete<A, B>(
    left: Seq<A>,
    right: Seq<B>,
    on: spec_fn(A, B) -> bool,
    i: int,
    j: int,
)
    requires
        0 <= i < left.len(),
        0 <= j < right.len(),
        on(left[i], right[j]),
    ensures
        join(left, right, on).contains((left[i], right[j])),
    decreases left.len(),
{
    let before = join(left.drop_last(), right, on);
    let found = partners(left.last(), right, on);
    if i == left.len() - 1 {
        lemma_partners_complete(left.last(), right, on, j);
        let k = choose|k: int| 0 <= k < found.len() && found[k] == (left[i], right[j]);
        assert((before + found)[before.len() + k] == (left[i], right[j]));
    } else {
        lemma_join_complete(left.drop_last(), right, on, i, j);
        let k = choose|k: int| 0 <= k < before.len() && before[k] == (left[i], right[j]);
        assert((before + found)[k] == (left[i], right[j]));
    }
}

/// A way of telling which rows of two tables go together that executable
/// code can evaluate.
pub trait RowMatch<A, B> {
    /// The pairs that go together.
    spec fn matches(&self) -> spec_fn(A, B) -> bool;

    /// Whether `a` and `b` go together.
    fn is_match(&self, a: &A, b: &B) -> (r: bool)
        ensures
            r == (self.matches())(*a, *b),
    ;
}

/// The places of the rows of `left` and `right` that go together, in the
/// order of the join.
pub fn join_rows<A, B, J: RowMatch<A, B>>(left: &Vec<A>, right: &Vec<B>, on: &J) -> (out: Vec<
    (usize, usize),
>)
    ensures
        pairs_at(left@, right@, out@) == join(left@, right@, on.matches()),
        forall|k: int|
            0 <= k < out@.len() ==> (#[trigger] out@[k]).0 < left@.len() && out@[k].1
                < right@.len(),
{
    let ghost rel = on.matches();
    let mut out: Vec<(usize, usize)> = Vec::new();
    let n: usize = left.len();
    let m: usize = right.len();
    let mut i: usize = 0;
    proof {
        assert(pairs_at(left@, right@, out@) =~= join(left@.take(0), right@, rel));
    }
    while i < n
        invariant
            n == left@.len(),
            m == right@.len(),
            0 <= i <= n,
            rel == on.matches(),
            pairs_at(left@, right@, out@) == join(left@.take(i as int), right@, rel),
            forall|k: int|
                0 <= k < out@.len() ==> (#[trigger] out@[k]).0 < left@.len() && out@[k].1
                    < right@.len(),
        decreases n - i,
    {
        let ghost done = join(left@.take(i as int), right@, rel);
        let ghost a = left@[i as int];
        let mut j: usize = 0;
        proof {
            assert(pairs_at(left@, right@, out@) =~= done + partners(a, right@.take(0), rel));
        }
        while j < m
            invariant
                n == left@.len(),
                m == right@.len(),
                i < n,
                0 <= j <= m,
                rel == on.matches(),
                a == left@[i as int],
                pairs_at(left@, right@, out@) == done + partners(a, right@.take(j as int), rel),
                forall|k: int|
                    0 <= k < out@.len() ==> (#[trigger] out@[k]).0 < left@.len() && out@[k].1
                        < right@.len(),
            decreases m - j,
        {
            proof {
                assert(right@.take(j as int + 1).drop_last() =~= right@.take(j as int));
                assert(right@.take(j as int + 1).last() == right@[j as int]);
            }
            if on.is_match(&left[i], &right[j]) {
                proof {
                    let so_far = partners(a, right@.take(j as int), rel);
                    assert(pairs_at(left@, right@, out@.push((i, j))) =~= pairs_at(
                        left@,
                        right@,
                        out@,
                    ).push((a, right@[j as int])));
                    assert((done + so_far).push((a, right@[j as int])) =~= done + so_far.push(
                        (a, right@[j as int]),
                    ));
                }
                out.push((i, j));
            }
            j = j + 1;
        }
        proof {
            assert(right@.take(m as int) =~= right@);
            assert(left@.take(i as int + 1).drop_last() =~= left@.take(i as int));
            assert(left@.take(i as int + 1).last() == a);
        }
        i = i + 1;
    }
    proof {
        assert(left@.take(n as int) =~= left@);
    }
    out
}

} // verus!
