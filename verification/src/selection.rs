//! Selecting, counting and cutting rows.

use vstd::prelude::*;

verus! {

/// A row that can be copied.
pub trait Record: Sized {
    /// A copy of this row.
    fn duplicate(&self) -> (r: Self)
        ensures
            r == *self,
    ;
}

/// A condition on rows that executable code can evaluate.
pub trait RowTest<T> {
    /// The rows that pass.
    spec fn test(&self) -> spec_fn(T) -> bool;

    /// Whether `row` passes.
    fn passes(&self, row: &T) -> (r: bool)
        ensures
            r == (self.test())(*row),
    ;
}

/// The first `n` rows of `rows`; none when `n` is not positive, all when
/// there are no more than `n`.
pub open spec fn first_rows<T>(rows: Seq<T>, n: int) -> Seq<T> {
    if n <= 0 {
        Seq::empty()
    } else if n >= rows.len() {
        rows
    } else {
        rows.take(n)
    }
}

/// Selecting commutes with a change of rows that leaves the condition alone.
pub proof fn lemma_filter_map<T>(s: Seq<T>, p: spec_fn(T) -> bool, f: spec_fn(T) -> T)
    requires
        forall|a: T| #[trigger] p(f(a)) == p(a),
    ensures
        s.map_values(f).filter(p) == s.filter(p).map_values(f),
    decreases s.len(),
{
    if s.len() == 0 {
        s.lemma_filter_len(p);
        s.map_values(f).lemma_filter_len(p);
        assert(s.map_values(f).filter(p) =~= s.filter(p).map_values(f));
    } else {
        let front = s.drop_last();
        let last = s.last();
        lemma_filter_map(front, p, f);
        assert(front.push(last) =~= s);
        assert(front.map_values(f).push(f(last)) =~= s.map_values(f));
        front.lemma_filter_push(last, p);
        front.map_values(f).lemma_filter_push(f(last), p);
        assert(p(f(last)) == p(last));
        if p(last) {
            assert(front.filter(p).map_values(f).push(f(last)) =~= front.filter(p).push(
                last,
            ).map_values(f));
        }
    }
}

/// Copies of the rows that pass `test`, in the order of `rows`.
pub fn select<T: Record, P: RowTest<T>>(rows: &Vec<T>, test: &P) -> (out: Vec<T>)
    ensures
        out@ == rows@.filter(test.test()),
{
    let mut out: Vec<T> = Vec::new();
    let n: usize = rows.len();
    let mut i: usize = 0;
    proof {
        assert(rows@.take(0).filter(test.test()) =~= Seq::<T>::empty()) by {
            rows@.take(0).lemma_filter_len(test.test());
        }
    }
    while i < n
        invariant
            n == rows@.len(),
            0 <= i <= n,
            out@ == rows@.take(i as int).filter(test.test()),
        decreases n - i,
    {
        proof {
            assert(rows@.take(i as int + 1) =~= rows@.take(i as int).push(rows@[i as int]));
            rows@.take(i as int).lemma_filter_push(rows@[i as int], test.test());
        }
        if test.passes(&rows[i]) {
            out.push(rows[i].duplicate());
        }
        i = i + 1;
    }
    proof {
        assert(rows@.take(n as int) =~= rows@);
    }
    out
}

/// How many rows pass `test`.
pub fn count_passing<T, P: RowTest<T>>(rows: &Vec<T>, test: &P) -> (count: usize)
    ensures
        count == rows@.filter(test.test()).len(),
        count <= rows@.len(),
{
    let mut count: usize = 0;
    let n: usize = rows.len();
    let mut i: usize = 0;
    proof {
        rows@.take(0).lemma_filter_len(test.test());
    }
    while i < n
        invariant
            n == rows@.len(),
            0 <= i <= n,
            count == rows@.take(i as int).filter(test.test()).len(),
            count <= i,
        decreases n - i,
    {
        proof {
            assert(rows@.take(i as int + 1) =~= rows@.take(i as int).push(rows@[i as int]));
            rows@.take(i as int).lemma_filter_push(rows@[i as int], test.test());
        }
        if test.passes(&rows[i]) {
            count = count + 1;
        }
        i = i + 1;
    }
    proof {
        assert(rows@.take(n as int) =~= rows@);
    }
    count
}

/// Cuts `rows` down to its first `limit` rows, where it has more.
pub fn keep_first<T>(rows: &mut Vec<T>, limit: usize)
    ensures
        final(rows)@ == if limit == 0 {
            Seq::<T>::empty()
        } else {
            first_rows(old(rows)@, limit as int)
        },
{
    if limit <= rows.len() {
        rows.truncate(limit);
        proof {
            assert(rows@ =~= old(rows)@.take(limit as int));
        }
    }
}

} // verus!
