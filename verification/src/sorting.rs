//! Stable sorting of rows, and what it means.

use vstd::prelude::*;

verus! {

/// `sorted` with `x` put behind the last element that may stand before it.
pub open spec fn insert_sorted<T>(le: spec_fn(T, T) -> bool, sorted: Seq<T>, x: T) -> Seq<T>
    decreases sorted.len(),
{
    if sorted.len() == 0 {
        seq![x]
    } else if le(sorted.last(), x) {
        sorted.push(x)
    } else {
        insert_sorted(le, sorted.drop_last(), x).push(sorted.last())
    }
}

/// The rows of `s` ordered by `le`, rows that tie keeping the order they
/// have in `s`.
pub open spec fn stable_sort<T>(le: spec_fn(T, T) -> bool, s: Seq<T>) -> Seq<T>
    decreases s.len(),
{
    if s.len() == 0 {
        s
    } else {
        insert_sorted(le, stable_sort(le, s.drop_last()), s.last())
    }
}

/// `le` relates any two rows one way or the other, and chains.
pub open spec fn total_preorder<T>(le: spec_fn(T, T) -> bool) -> bool {
    &&& forall|a: T, b: T| #[trigger] le(a, b) || le(b, a)
    &&& forall|a: T, b: T, c: T| #[trigger] le(a, b) && #[trigger] le(b, c) ==> le(a, c)
}

/// Every row of `s` may stand before every later one.
pub open spec fn is_ordered<T>(le: spec_fn(T, T) -> bool, s: Seq<T>) -> bool {
    forall|i: int, j: int| 0 <= i < j < s.len() ==> le(#[trigger] s[i], #[trigger] s[j])
}

/// The rows that tie with `x`.
pub open spec fn tied_with<T>(le: spec_fn(T, T) -> bool, x: T) -> spec_fn(T) -> bool {
    |y: T| le(x, y) && le(y, x)
}

/// Where exactly an inserted row lands: behind a row that may precede it and
/// before rows that may not.
pub proof fn lemma_insert_position<T>(le: spec_fn(T, T) -> bool, sorted: Seq<T>, x: T, p: int)
    requires
        0 <= p <= sorted.len(),
        p > 0 ==> le(sorted[p - 1], x),
        forall|q: int| p <= q < sorted.len() ==> !le(#[trigger] sorted[q], x),
    ensures
        insert_sorted(le, sorted, x) == sorted.insert(p, x),
    decreases sorted.len(),
{
    if sorted.len() == 0 {
        assert(sorted.insert(p, x) =~= seq![x]);
    } else if p == sorted.len() {
        assert(sorted.insert(p, x) =~= sorted.push(x));
    } else {
        assert(!le(sorted[sorted.len() - 1], x));
        lemma_insert_position(le, sorted.drop_last(), x, p);
        assert(sorted.drop_last().insert(p, x).push(sorted.last()) =~= sorted.insert(p, x));
    }
}

/// Inserting adds one row and keeps every other.
pub proof fn lemma_insert_sorted_members<T>(le: spec_fn(T, T) -> bool, sorted: Seq<T>, x: T)
    ensures
        insert_sorted(le, sorted, x).len() == sorted.len() + 1,
        insert_sorted(le, sorted, x).to_multiset() == sorted.to_multiset().insert(x),
    decreases sorted.len(),
{
    broadcast use vstd::seq_lib::group_to_multiset_ensures;

    if sorted.len() == 0 {
        assert(seq![x] =~= sorted.push(x));
    } else if le(sorted.last(), x) {
    } else {
        let front = sorted.drop_last();
        lemma_insert_sorted_members(le, front, x);
        assert(front.push(sorted.last()) =~= sorted);
        assert(front.to_multiset().insert(x).insert(sorted.last()) =~= front.to_multiset().insert(
            sorted.last(),
        ).insert(x));
    }
}

/// Sorting rearranges: the result holds each row as often as the input does.
pub proof fn lemma_stable_sort_rearranges<T>(le: spec_fn(T, T) -> bool, s: Seq<T>)
    ensures
        stable_sort(le, s).len() == s.len(),
        stable_sort(le, s).to_multiset() == s.to_multiset(),
        forall|x: T| stable_sort(le, s).contains(x) <==> s.contains(x),
    decreases s.len(),
{
    broadcast use vstd::seq_lib::group_to_multiset_ensures;

    if s.len() > 0 {
        let front = s.drop_last();
        lemma_stable_sort_rearranges(le, front);
        lemma_insert_sorted_members(le, stable_sort(le, front), s.last());
        assert(front.push(s.last()) =~= s);
    }
    assert forall|x: T| stable_sort(le, s).contains(x) <==> s.contains(x) by {
        assert(stable_sort(le, s).contains(x) <==> stable_sort(le, s).to_multiset().count(x) > 0);
        assert(s.contains(x) <==> s.to_multiset().count(x) > 0);
    }
}

/// Inserting into ordered rows leaves them ordered.
pub proof fn lemma_insert_sorted_ordered<T>(le: spec_fn(T, T) -> bool, sorted: Seq<T>, x: T)
    requires
        total_preorder(le),
        is_ordered(le, sorted),
    ensures
        is_ordered(le, insert_sorted(le, sorted, x)),
    decreases sorted.len(),
{
    if sorted.len() == 0 {
    } else if le(sorted.last(), x) {
        let out = sorted.push(x);
        assert forall|i: int, j: int| 0 <= i < j < out.len() implies le(out[i], out[j]) by {
            if j == sorted.len() && i < sorted.len() - 1 {
                assert(le(sorted[i], sorted[sorted.len() - 1]));
            }
        }
    } else {
        let front = sorted.drop_last();
        let last = sorted.last();
        assert(is_ordered(le, front));
        lemma_insert_sorted_ordered(le, front, x);
        lemma_insert_sorted_members(le, front, x);
        let mid = insert_sorted(le, front, x);
        let out = mid.push(last);
        assert(le(x, last));
        assert forall|i: int, j: int| 0 <= i < j < out.len() implies le(out[i], out[j]) by {
            if j == mid.len() {
                broadcast use vstd::seq_lib::group_to_multiset_ensures;

                assert(mid.contains(mid[i]));
                assert(mid.to_multiset().count(mid[i]) > 0);
                if mid[i] != x {
                    assert(front.to_multiset().count(mid[i]) > 0);
                    assert(front.contains(mid[i]));
                    let k = choose|k: int| 0 <= k < front.len() && front[k] == mid[i];
                    assert(le(sorted[k], sorted[sorted.len() - 1]));
                }
            }
        }
    }
}

/// Sorting by a total preorder yields ordered rows.
pub proof fn lemma_stable_sort_ordered<T>(le: spec_fn(T, T) -> bool, s: Seq<T>)
    requires
        total_preorder(le),
    ensures
        is_ordered(le, stable_sort(le, s)),
    decreases s.len(),
{
    if s.len() > 0 {
        lemma_stable_sort_ordered(le, s.drop_last());
        lemma_insert_sorted_ordered(le, stable_sort(le, s.drop_last()), s.last());
    }
}

/// Inserting a row does not disturb the rows that tie with a given one.
pub proof fn lemma_insert_sorted_ties<T>(le: spec_fn(T, T) -> bool, sorted: Seq<T>, y: T, x: T)
    requires
        total_preorder(le),
    ensures
        insert_sorted(le, sorted, y).filter(tied_with(le, x)) == if tied_with(le, x)(y) {
            sorted.filter(tied_with(le, x)).push(y)
        } else {
            sorted.filter(tied_with(le, x))
        },
    decreases sorted.len(),
{
    let tie = tied_with(le, x);
    if sorted.len() == 0 {
        assert(seq![y] =~= sorted.push(y));
        sorted.lemma_filter_push(y, tie);
    } else if le(sorted.last(), y) {
        sorted.lemma_filter_push(y, tie);
    } else {
        let front = sorted.drop_last();
        let last = sorted.last();
        lemma_insert_sorted_ties(le, front, y, x);
        insert_sorted(le, front, y).lemma_filter_push(last, tie);
        front.lemma_filter_push(last, tie);
        assert(front.push(last) =~= sorted);
        if tie(y) && tie(last) {
            assert(le(last, x) && le(x, y));
            assert(le(last, y));
        }
    }
}

/// Sorting is stable: the rows that tie with any given row come out in the
/// order in which they went in.
pub proof fn lemma_stable_sort_stable<T>(le: spec_fn(T, T) -> bool, s: Seq<T>, x: T)
    requires
        total_preorder(le),
    ensures
        stable_sort(le, s).filter(tied_with(le, x)) == s.filter(tied_with(le, x)),
    decreases s.len(),
{
    let tie = tied_with(le, x);
    if s.len() == 0 {
    } else {
        let front = s.drop_last();
        lemma_stable_sort_stable(le, front, x);
        lemma_insert_sorted_ties(le, stable_sort(le, front), s.last(), x);
        front.lemma_filter_push(s.last(), tie);
        assert(front.push(s.last()) =~= s);
    }
}

/// Two ordered sequences that hold every row equally often, and in which
/// the rows that tie with any given row stand in the same order, are the same
/// sequence.
pub proof fn lemma_ordered_stable_unique<T>(le: spec_fn(T, T) -> bool, a: Seq<T>, b: Seq<T>)
    requires
        total_preorder(le),
        is_ordered(le, a),
        is_ordered(le, b),
        a.to_multiset() == b.to_multiset(),
        forall|x: T| a.filter(tied_with(le, x)) == b.filter(tied_with(le, x)),
    ensures
        a == b,
    decreases a.len(),
{
    broadcast use vstd::seq_lib::group_to_multiset_ensures;

    a.to_multiset_ensures();
    b.to_multiset_ensures();
    assert(a.len() == a.to_multiset().len());
    assert(b.len() == b.to_multiset().len());
    if a.len() == 0 {
        assert(a =~= b);
    } else {
        let front_a = a.drop_last();
        let front_b = b.drop_last();
        let z = a.last();
        let w = b.last();
        assert(front_a.push(z) =~= a);
        assert(front_b.push(w) =~= b);
        assert(le(z, w)) by {
            assert(a[a.len() - 1] == z);
            assert(a.contains(z));
            assert(a.to_multiset().count(z) > 0);
            assert(b.contains(z));
            let j = choose|j: int| 0 <= j < b.len() && b[j] == z;
            if j < b.len() - 1 {
                assert(le(b[j], b[b.len() - 1]));
            }
        }
        assert(le(w, z)) by {
            assert(b[b.len() - 1] == w);
            assert(b.contains(w));
            assert(b.to_multiset().count(w) > 0);
            assert(a.contains(w));
            let j = choose|j: int| 0 <= j < a.len() && a[j] == w;
            if j < a.len() - 1 {
                assert(le(a[j], a[a.len() - 1]));
            }
        }
        let tie = tied_with(le, z);
        assert(tie(z) && tie(w));
        front_a.lemma_filter_push(z, tie);
        front_b.lemma_filter_push(w, tie);
        assert(a.filter(tie) == b.filter(tie));
        assert(z == w) by {
            let kept_a = front_a.filter(tie).push(z);
            let kept_b = front_b.filter(tie).push(w);
            assert(kept_a == kept_b);
            assert(kept_a[kept_a.len() - 1] == z);
            assert(kept_b[kept_b.len() - 1] == w);
        }
        assert forall|x: T| front_a.filter(tied_with(le, x)) == front_b.filter(
            tied_with(le, x),
        ) by {
            let t = tied_with(le, x);
            front_a.lemma_filter_push(z, t);
            front_b.lemma_filter_push(z, t);
            assert(a.filter(t) == b.filter(t));
            if t(z) {
                assert(front_a.filter(t).push(z).drop_last() =~= front_a.filter(t));
                assert(front_b.filter(t).push(z).drop_last() =~= front_b.filter(t));
            }
        }
        assert(front_a.to_multiset() =~= front_b.to_multiset()) by {
            assert(a.to_multiset() =~= front_a.to_multiset().insert(z));
            assert(b.to_multiset() =~= front_b.to_multiset().insert(z));
            assert forall|v: T| front_a.to_multiset().count(v) == front_b.to_multiset().count(
                v,
            ) by {
                assert(front_a.to_multiset().insert(z).count(v) == front_b.to_multiset().insert(
                    z,
                ).count(v));
            }
        }
        assert(is_ordered(le, front_a)) by {
            assert forall|i: int, j: int| 0 <= i < j < front_a.len() implies le(
                #[trigger] front_a[i],
                #[trigger] front_a[j],
            ) by {
                assert(le(a[i], a[j]));
            }
        }
        assert(is_ordered(le, front_b)) by {
            assert forall|i: int, j: int| 0 <= i < j < front_b.len() implies le(
                #[trigger] front_b[i],
                #[trigger] front_b[j],
            ) by {
                assert(le(b[i], b[j]));
            }
        }
        lemma_ordered_stable_unique(le, front_a, front_b);
    }
}

/// What the sorted rows are: the one rearrangement of the input that is
/// ordered and keeps rows that tie in the order of the input.
pub proof fn lemma_stable_sort_unique<T>(le: spec_fn(T, T) -> bool, s: Seq<T>, out: Seq<T>)
    requires
        total_preorder(le),
        is_ordered(le, out),
        out.to_multiset() == s.to_multiset(),
        forall|x: T| out.filter(tied_with(le, x)) == s.filter(tied_with(le, x)),
    ensures
        out == stable_sort(le, s),
{
    lemma_stable_sort_rearranges(le, s);
    lemma_stable_sort_ordered(le, s);
    assert forall|x: T| stable_sort(le, s).filter(tied_with(le, x)) == out.filter(
        tied_with(le, x),
    ) by {
        lemma_stable_sort_stable(le, s, x);
    }
    lemma_ordered_stable_unique(le, out, stable_sort(le, s));
}

/// Inserting commutes with a change of rows that leaves their ranking alone.
pub proof fn lemma_insert_sorted_map<T>(
    le: spec_fn(T, T) -> bool,
    sorted: Seq<T>,
    x: T,
    f: spec_fn(T) -> T,
)
    requires
        forall|a: T, b: T| #[trigger] le(f(a), f(b)) == le(a, b),
    ensures
        insert_sorted(le, sorted.map_values(f), f(x)) == insert_sorted(le, sorted, x).map_values(f),
    decreases sorted.len(),
{
    if sorted.len() == 0 {
        assert(seq![f(x)] =~= seq![x].map_values(f));
    } else {
        let front = sorted.drop_last();
        let last = sorted.last();
        assert(le(f(last), f(x)) == le(last, x));
        assert(sorted.map_values(f).last() == f(last));
        assert(sorted.map_values(f).drop_last() =~= front.map_values(f));
        if le(last, x) {
            assert(sorted.map_values(f).push(f(x)) =~= sorted.push(x).map_values(f));
        } else {
            lemma_insert_sorted_map(le, front, x, f);
            assert(insert_sorted(le, front, x).map_values(f).push(f(last)) =~= insert_sorted(
                le,
                front,
                x,
            ).push(last).map_values(f));
        }
    }
}

/// Sorting commutes with a change of rows that leaves their ranking alone.
pub proof fn lemma_stable_sort_map<T>(le: spec_fn(T, T) -> bool, s: Seq<T>, f: spec_fn(T) -> T)
    requires
        forall|a: T, b: T| #[trigger] le(f(a), f(b)) == le(a, b),
    ensures
        stable_sort(le, s.map_values(f)) == stable_sort(le, s).map_values(f),
    decreases s.len(),
{
    if s.len() == 0 {
        assert(s.map_values(f) =~= stable_sort(le, s).map_values(f));
    } else {
        let front = s.drop_last();
        lemma_stable_sort_map(le, front, f);
        assert(s.map_values(f).drop_last() =~= front.map_values(f));
        assert(s.map_values(f).last() == f(s.last()));
        lemma_insert_sorted_map(le, stable_sort(le, front), s.last(), f);
    }
}

/// Two sequences of equal length whose rows correspond place by place.
pub open spec fn corresponds<T, U>(s: Seq<T>, u: Seq<U>, rel: spec_fn(T, U) -> bool) -> bool {
    &&& s.len() == u.len()
    &&& forall|k: int| 0 <= k < s.len() ==> rel(#[trigger] s[k], #[trigger] u[k])
}

/// Inserting corresponding rows into corresponding sequences, under rankings
/// that agree on corresponding rows, gives corresponding sequences.
pub proof fn lemma_insert_sorted_corresponds<T, U>(
    le_t: spec_fn(T, T) -> bool,
    le_u: spec_fn(U, U) -> bool,
    s: Seq<T>,
    u: Seq<U>,
    x: T,
    y: U,
    rel: spec_fn(T, U) -> bool,
)
    requires
        corresponds(s, u, rel),
        rel(x, y),
        forall|a: T, b: T, c: U, d: U|
            #[trigger] rel(a, c) && #[trigger] rel(b, d) ==> le_t(a, b) == le_u(c, d),
    ensures
        corresponds(insert_sorted(le_t, s, x), insert_sorted(le_u, u, y), rel),
    decreases s.len(),
{
    if s.len() > 0 {
        assert(rel(s[s.len() - 1], u[u.len() - 1]));
        assert(le_t(s.last(), x) == le_u(u.last(), y));
        if !le_t(s.last(), x) {
            assert(corresponds(s.drop_last(), u.drop_last(), rel)) by {
                assert forall|k: int| 0 <= k < s.drop_last().len() implies rel(
                    #[trigger] s.drop_last()[k],
                    #[trigger] u.drop_last()[k],
                ) by {
                    assert(rel(s[k], u[k]));
                }
            }
            lemma_insert_sorted_corresponds(le_t, le_u, s.drop_last(), u.drop_last(), x, y, rel);
        }
    }
}

/// Sorting corresponding sequences, under rankings that agree on
/// corresponding rows, gives corresponding sequences.
pub proof fn lemma_stable_sort_corresponds<T, U>(
    le_t: spec_fn(T, T) -> bool,
    le_u: spec_fn(U, U) -> bool,
    s: Seq<T>,
    u: Seq<U>,
    rel: spec_fn(T, U) -> bool,
)
    requires
        corresponds(s, u, rel),
        forall|a: T, b: T, c: U, d: U|
            #[trigger] rel(a, c) && #[trigger] rel(b, d) ==> le_t(a, b) == le_u(c, d),
    ensures
        corresponds(stable_sort(le_t, s), stable_sort(le_u, u), rel),
    decreases s.len(),
{
    if s.len() > 0 {
        assert(corresponds(s.drop_last(), u.drop_last(), rel)) by {
            assert forall|k: int| 0 <= k < s.drop_last().len() implies rel(
                #[trigger] s.drop_last()[k],
                #[trigger] u.drop_last()[k],
            ) by {
                assert(rel(s[k], u[k]));
            }
        }
        lemma_stable_sort_corresponds(le_t, le_u, s.drop_last(), u.drop_last(), rel);
        assert(rel(s[s.len() - 1], u[u.len() - 1]));
        lemma_insert_sorted_corresponds(
            le_t,
            le_u,
            stable_sort(le_t, s.drop_last()),
            stable_sort(le_u, u.drop_last()),
            s.last(),
            u.last(),
            rel,
        );
    }
}

/// A way of ranking rows that executable code can evaluate.
pub trait RowOrder<T> {
    /// The relation "may stand before".
    spec fn relation(&self) -> spec_fn(T, T) -> bool;

    /// Whether `a` may stand before `b`.
    fn in_order(&self, a: &T, b: &T) -> (r: bool)
        ensures
            r == (self.relation())(*a, *b),
    ;
}

/// Sorts `rows` by `order`, rows that tie keeping their places relative to
/// each other.
pub fn sort_stable<T, O: RowOrder<T>>(rows: &mut Vec<T>, order: &O)
    ensures
        final(rows)@ == stable_sort(order.relation(), old(rows)@),
{
    let ghost le = order.relation();
    let ghost before = rows@;
    let n: usize = rows.len();
    let mut k: usize = 0;
    while k < n
        invariant
            n == rows.len(),
            n == before.len(),
            0 <= k <= n,
            le == order.relation(),
            rows@.take(k as int) == stable_sort(le, before.take(k as int)),
            rows@.skip(k as int) == before.skip(k as int),
        decreases n - k,
    {
        let mut p: usize = k;
        while p > 0 && !order.in_order(&rows[p - 1], &rows[k])
            invariant
                n == rows.len(),
                0 <= p <= k < n,
                le == order.relation(),
                forall|q: int| p <= q < k ==> !le(#[trigger] rows@[q], rows@[k as int]),
            decreases p,
        {
            p = p - 1;
        }
        let ghost prior = rows@;
        let x = rows.remove(k);
        rows.insert(p, x);
        proof {
            let head = prior.take(k as int);
            assert(x == before[k as int]) by {
                assert(prior.skip(k as int)[0] == before.skip(k as int)[0]);
            }
            assert forall|q: int| p <= q < head.len() implies !le(#[trigger] head[q], x) by {
                assert(head[q] == prior[q]);
            }
            lemma_insert_position(le, head, x, p as int);
            assert(rows@.take(k as int + 1) =~= head.insert(p as int, x));
            assert(before.take(k as int + 1).drop_last() =~= before.take(k as int));
            let tail = rows@.skip(k as int + 1);
            assert forall|i: int| 0 <= i < tail.len() implies #[trigger] tail[i] == before.skip(
                k as int + 1,
            )[i] by {
                assert(prior.skip(k as int)[i + 1] == before.skip(k as int)[i + 1]);
            }
            assert(tail =~= before.skip(k as int + 1));
        }
        k = k + 1;
    }
    proof {
        assert(rows@.take(n as int) =~= rows@);
        assert(before.take(n as int) =~= before);
    }
}

} // verus!
