//! Grouping rows by a key: distinct keys, first rows and counts.

use vstd::prelude::*;

verus! {

/// The values of `s`, each once, in the order in which they first occur.
pub open spec fn distinct<K>(s: Seq<K>) -> Seq<K>
    decreases s.len(),
{
    if s.len() == 0 {
        s
    } else {
        let seen = distinct(s.drop_last());
        if seen.contains(s.last()) {
            seen
        } else {
            seen.push(s.last())
        }
    }
}

/// How often `x` occurs in `s`.
pub open spec fn occurrences<K>(s: Seq<K>, x: K) -> nat {
    s.to_multiset().count(x)
}

/// The first row of each group of `s`, where rows with the same `key` form a
/// group, in the order in which the groups first occur.
pub open spec fn first_of_each<T, K>(s: Seq<T>, key: spec_fn(T) -> K) -> Seq<T>
    decreases s.len(),
{
    if s.len() == 0 {
        s
    } else {
        let heads = first_of_each(s.drop_last(), key);
        if s.drop_last().map_values(key).contains(key(s.last())) {
            heads
        } else {
            heads.push(s.last())
        }
    }
}

/// The keys of the first rows are the distinct keys.
pub proof fn lemma_first_of_each_keys<T, K>(s: Seq<T>, key: spec_fn(T) -> K)
    ensures
        first_of_each(s, key).map_values(key) == distinct(s.map_values(key)),
        first_of_each(s, key).len() <= s.len(),
        forall|j: int|
            0 <= j < first_of_each(s, key).len() ==> s.contains(
                #[trigger] first_of_each(s, key)[j],
            ),
    decreases s.len(),
{
    if s.len() == 0 {
        assert(first_of_each(s, key).map_values(key) =~= distinct(s.map_values(key)));
    } else {
        let front = s.drop_last();
        lemma_first_of_each_keys(front, key);
        lemma_distinct_members(front.map_values(key));
        assert(s.map_values(key).drop_last() =~= front.map_values(key));
        assert(s.map_values(key).last() == key(s.last()));
        assert(first_of_each(s, key).map_values(key) =~= distinct(s.map_values(key)));
        assert forall|j: int| 0 <= j < first_of_each(s, key).len() implies s.contains(
            #[trigger] first_of_each(s, key)[j],
        ) by {
            if j < first_of_each(front, key).len() {
                let h = first_of_each(front, key)[j];
                assert(front.contains(h));
                let i = choose|i: int| 0 <= i < front.len() && front[i] == h;
                assert(s[i] == h);
            } else {
                assert(s[s.len() - 1] == first_of_each(s, key)[j]);
            }
        }
    }
}

/// `distinct` holds exactly the values of its argument, none of them twice.
pub proof fn lemma_distinct_members<K>(s: Seq<K>)
    ensures
        forall|x: K| distinct(s).contains(x) <==> s.contains(x),
        distinct(s).no_duplicates(),
        distinct(s).len() <= s.len(),
    decreases s.len(),
{
    if s.len() > 0 {
        let front = s.drop_last();
        lemma_distinct_members(front);
        assert(front.push(s.last()) =~= s);
        assert forall|x: K| distinct(s).contains(x) <==> s.contains(x) by {
            vstd::seq_lib::lemma_seq_contains_after_push(front, s.last(), x);
            vstd::seq_lib::lemma_seq_contains_after_push(distinct(front), s.last(), x);
        }
    }
}

/// There are as many distinct values as the set of values has members.
pub proof fn lemma_distinct_count<K>(s: Seq<K>)
    ensures
        distinct(s).len() == s.to_set().len(),
{
    lemma_distinct_members(s);
    distinct(s).unique_seq_to_set();
    assert(distinct(s).to_set() =~= s.to_set());
}

/// Appending a value raises its count by one and leaves the others.
pub proof fn lemma_occurrences_push<K>(s: Seq<K>, y: K, x: K)
    ensures
        occurrences(s.push(y), x) == occurrences(s, x) + if x == y {
            1nat
        } else {
            0nat
        },
{
    broadcast use vstd::seq_lib::group_to_multiset_ensures;

}

/// A value that does not occur is counted zero times, and conversely.
pub proof fn lemma_occurrences_zero<K>(s: Seq<K>, x: K)
    ensures
        occurrences(s, x) == 0 <==> !s.contains(x),
        occurrences(s, x) <= s.len(),
{
    broadcast use vstd::seq_lib::group_to_multiset_ensures;

    assert(s.to_multiset().count(x) <= s.to_multiset().len());
}

/// A way of telling which rows belong together that executable code can
/// evaluate.
pub trait RowKey<T, K> {
    /// What the rows of a group have in common.
    spec fn key(&self) -> spec_fn(T) -> K;

    /// Whether `a` and `b` belong together.
    fn same_key(&self, a: &T, b: &T) -> (r: bool)
        ensures
            r == ((self.key())(*a) == (self.key())(*b)),
    ;
}

/// The rows of `rows` at the places `picks`.
pub open spec fn rows_at<T>(rows: Seq<T>, picks: Seq<usize>) -> Seq<T> {
    picks.map_values(|i: usize| rows[i as int])
}

/// The groups of `rows` under `by`, in the order in which they first occur:
/// for each the place of its first row, and how many rows it has.
pub fn tally<T, K, G: RowKey<T, K>>(rows: &Vec<T>, by: &G) -> (r: (Vec<usize>, Vec<usize>))
    ensures
        rows_at(rows@, r.0@) == first_of_each(rows@, by.key()),
        r.1@.len() == r.0@.len(),
        forall|j: int| 0 <= j < r.0@.len() ==> #[trigger] r.0@[j] < rows@.len(),
        forall|j: int|
            0 <= j < r.1@.len() ==> #[trigger] r.1@[j] == occurrences(
                rows@.map_values(by.key()),
                (by.key())(first_of_each(rows@, by.key())[j]),
            ),
{
    let ghost key = by.key();
    let ghost keys = rows@.map_values(key);
    let mut firsts: Vec<usize> = Vec::new();
    let mut counts: Vec<usize> = Vec::new();
    let n: usize = rows.len();
    let mut i: usize = 0;
    proof {
        assert(rows_at(rows@, firsts@) =~= first_of_each(rows@.take(0), key));
    }
    while i < n
        invariant
            n == rows@.len(),
            0 <= i <= n,
            key == by.key(),
            keys == rows@.map_values(key),
            rows_at(rows@, firsts@) == first_of_each(rows@.take(i as int), key),
            counts@.len() == firsts@.len(),
            forall|j: int| 0 <= j < firsts@.len() ==> #[trigger] firsts@[j] < i,
            forall|j: int|
                0 <= j < counts@.len() ==> #[trigger] counts@[j] == occurrences(
                    keys.take(i as int),
                    key(first_of_each(rows@.take(i as int), key)[j]),
                ),
        decreases n - i,
    {
        let ghost seen = rows@.take(i as int);
        let ghost heads = first_of_each(seen, key);
        let ghost k = key(rows@[i as int]);
        let mut j: usize = 0;
        while j < firsts.len() && !by.same_key(&rows[firsts[j]], &rows[i])
            invariant
                n == rows@.len(),
                i < n,
                0 <= j <= firsts@.len(),
                key == by.key(),
                k == key(rows@[i as int]),
                rows_at(rows@, firsts@) == heads,
                forall|q: int| 0 <= q < firsts@.len() ==> #[trigger] firsts@[q] < i,
                forall|q: int| 0 <= q < j ==> key(#[trigger] heads[q]) != k,
            decreases firsts@.len() - j,
        {
            proof {
                assert(rows_at(rows@, firsts@)[j as int] == rows@[firsts@[j as int] as int]);
            }
            j = j + 1;
        }
        proof {
            lemma_first_of_each_keys(seen, key);
            lemma_distinct_members(seen.map_values(key));
            assert(rows@.take(i as int + 1).drop_last() =~= seen);
            assert(rows@.take(i as int + 1).last() == rows@[i as int]);
            assert(keys.take(i as int) =~= seen.map_values(key));
            assert(keys.take(i as int + 1) =~= seen.map_values(key).push(k));
            assert forall|q: int| 0 <= q < heads.len() implies occurrences(
                keys.take(i as int + 1),
                key(#[trigger] heads[q]),
            ) == occurrences(keys.take(i as int), key(heads[q])) + if key(heads[q]) == k {
                1nat
            } else {
                0nat
            } by {
                lemma_occurrences_push(seen.map_values(key), k, key(heads[q]));
            }
            lemma_occurrences_push(seen.map_values(key), k, k);
            lemma_occurrences_zero(seen.map_values(key), k);
            assert forall|q: int| 0 <= q < heads.len() implies key(#[trigger] heads[q])
                == heads.map_values(key)[q] by {}
        }
        if j < firsts.len() {
            proof {
                assert(rows_at(rows@, firsts@)[j as int] == rows@[firsts@[j as int] as int]);
                assert(heads.map_values(key)[j as int] == k);
                assert(distinct(seen.map_values(key)).contains(k));
                lemma_occurrences_zero(seen.map_values(key), k);
                assert(first_of_each(rows@.take(i as int + 1), key) == heads);
            }
            let c: usize = counts[j];
            counts.set(j, c + 1);
        } else {
            proof {
                assert(!heads.map_values(key).contains(k)) by {
                    if heads.map_values(key).contains(k) {
                        let q = choose|q: int|
                            0 <= q < heads.map_values(key).len() && heads.map_values(key)[q] == k;
                        assert(key(heads[q]) == k);
                    }
                }
                assert(first_of_each(rows@.take(i as int + 1), key) == heads.push(rows@[i as int]));
                assert(rows_at(rows@, firsts@.push(i)) =~= heads.push(rows@[i as int]));
            }
            firsts.push(i);
            counts.push(1);
        }
        i = i + 1;
    }
    proof {
        assert(rows@.take(n as int) =~= rows@);
        assert(keys.take(n as int) =~= keys);
    }
    (firsts, counts)
}

} // verus!
