//! Fixed-point quantities, their sums, means and percentages.

use vstd::prelude::*;

verus! {

/// Number of units that make up one whole.
pub const SCALE: i64 = 1_000_000;

/// A real quantity held as a whole number of millionths.
///
/// Scores, distances, rates and timestamps are all carried in this form, so
/// that they can be compared, summed and averaged exactly.
#[derive(Clone, Copy, Debug, PartialEq, Eq, Structural)]
pub struct Fixed {
    pub micros: i64,
}

/// Sum of a sequence of integers.
pub open spec fn total(s: Seq<int>) -> int
    decreases s.len(),
{
    if s.len() == 0 {
        0
    } else {
        total(s.drop_last()) + s.last()
    }
}

/// Mean of a sequence of integers, rounded down; zero for the empty sequence.
pub open spec fn mean(s: Seq<int>) -> int {
    if s.len() == 0 {
        0
    } else {
        total(s) / (s.len() as int)
    }
}

/// The millionths held by each element of a sequence of quantities.
pub open spec fn micros_of(s: Seq<Fixed>) -> Seq<int> {
    s.map_values(|f: Fixed| f.micros as int)
}

/// Share of `part` in `whole` as a percentage in millionths, rounded down;
/// zero when `whole` is not positive.
pub open spec fn percentage(part: int, whole: int) -> int {
    if whole > 0 {
        (part * 100 * SCALE) / whole
    } else {
        0
    }
}

/// Appending a term adds it to the sum.
pub proof fn lemma_total_push(s: Seq<int>, x: int)
    ensures
        total(s.push(x)) == total(s) + x,
{
    assert(s.push(x).drop_last() =~= s);
}

/// A sum lies between the length times any lower bound and the length times
/// any upper bound of its terms.
pub proof fn lemma_total_bounds(s: Seq<int>, lo: int, hi: int)
    requires
        forall|i: int| 0 <= i < s.len() ==> lo <= #[trigger] s[i] <= hi,
    ensures
        s.len() * lo <= total(s) <= s.len() * hi,
    decreases s.len(),
{
    if s.len() > 0 {
        lemma_total_bounds(s.drop_last(), lo, hi);
        assert((s.len() - 1) * lo + lo == s.len() * lo) by (nonlinear_arith);
        assert((s.len() - 1) * hi + hi == s.len() * hi) by (nonlinear_arith);
    }
}

/// The mean of a non-empty sequence lies between any bounds of its terms.
pub proof fn lemma_mean_bounds(s: Seq<int>, lo: int, hi: int)
    requires
        s.len() > 0,
        forall|i: int| 0 <= i < s.len() ==> lo <= #[trigger] s[i] <= hi,
    ensures
        lo <= mean(s) <= hi,
{
    lemma_total_bounds(s, lo, hi);
    let n = s.len() as int;
    let t = total(s);
    assert(n * lo <= t && t <= n * hi && n > 0 ==> lo <= t / n && t / n <= hi)
        by (nonlinear_arith);
}

/// Quotient rounded towards negative infinity.
pub fn floor_div(a: i128, b: i128) -> (q: i128)
    requires
        b > 0,
    ensures
        q == a / b,
{
    if a >= 0 {
        a / b
    } else {
        let m: i128 = -(a + 1);
        let t: i128 = m / b;
        proof {
            let x = a as int;
            let y = b as int;
            assert(x < 0 && y > 0 ==> x / y == -((-x - 1) / y) - 1) by (nonlinear_arith);
        }
        -t - 1
    }
}

impl Fixed {
    /// The quantity zero.
    pub fn zero() -> (r: Fixed)
        ensures
            r.micros == 0,
    {
        Fixed { micros: 0 }
    }

    /// The whole number `n` as a quantity.
    pub fn from_whole(n: i32) -> (r: Fixed)
        ensures
            r.micros == n * SCALE,
    {
        let wide: i64 = n as i64;
        Fixed { micros: wide * SCALE }
    }
}

/// Mean of the given quantities, rounded down to a whole millionth; zero
/// when there are none.
pub fn mean_of(values: &Vec<Fixed>) -> (r: Fixed)
    ensures
        r.micros == mean(micros_of(values@)),
{
    let n: usize = values.len();
    if n == 0 {
        return Fixed { micros: 0 };
    }
    let mut sum: i128 = 0;
    let mut i: usize = 0;
    while i < n
        invariant
            n == values.len(),
            0 <= i <= n,
            sum == total(micros_of(values@).take(i as int)),
            -(i as int) * 0x8000_0000_0000_0000 <= sum <= (i as int) * 0x7fff_ffff_ffff_ffff,
        decreases n - i,
    {
        let v: i64 = values[i].micros;
        proof {
            let s = micros_of(values@);
            assert(s.take(i as int + 1) =~= s.take(i as int).push(v as int));
            lemma_total_push(s.take(i as int), v as int);
            assert((i as int) < 0x1_0000_0000_0000_0000);
            assert((i as int) * 0x8000_0000_0000_0000 <= 0xffff_ffff_ffff_ffff
                * 0x8000_0000_0000_0000) by (nonlinear_arith)
                requires
                    0 <= (i as int) <= 0xffff_ffff_ffff_ffff,
            ;
            assert(-(i as int + 1) * 0x8000_0000_0000_0000 == -(i as int) * 0x8000_0000_0000_0000
                - 0x8000_0000_0000_0000) by (nonlinear_arith);
            assert((i as int + 1) * 0x7fff_ffff_ffff_ffff == (i as int) * 0x7fff_ffff_ffff_ffff
                + 0x7fff_ffff_ffff_ffff) by (nonlinear_arith);
            assert((i as int) * 0x7fff_ffff_ffff_ffff <= (i as int) * 0x8000_0000_0000_0000)
                by (nonlinear_arith)
                requires
                    0 <= i as int,
            ;
        }
        sum = sum + (v as i128);
        i = i + 1;
    }
    proof {
        let s = micros_of(values@);
        assert(s.take(n as int) =~= s);
        lemma_mean_bounds(s, -0x8000_0000_0000_0000, 0x7fff_ffff_ffff_ffff);
        assert((n as int) * 0x8000_0000_0000_0000 <= 0xffff_ffff_ffff_ffff
            * 0x8000_0000_0000_0000) by (nonlinear_arith)
            requires
                0 <= (n as int) <= 0xffff_ffff_ffff_ffff,
        ;
    }
    let q: i128 = floor_div(sum, n as i128);
    Fixed { micros: q as i64 }
}

/// A quantity that a row may carry, which executable code can read.
pub trait RowMeasure<T> {
    /// The millionths that a row carries, if it carries any.
    spec fn measure(&self) -> spec_fn(T) -> Option<int>;

    /// The quantity that `row` carries, if it carries one.
    fn read(&self, row: &T) -> (r: Option<Fixed>)
        ensures
            match r {
                Some(q) => (self.measure())(*row) == Some(q.micros as int),
                None => (self.measure())(*row) is None,
            },
    ;
}

/// Mean of the quantities that the rows carry, rounded down to a whole
/// millionth; zero when no row carries one.
pub fn mean_over<T, M: RowMeasure<T>>(rows: &Vec<T>, by: &M) -> (r: Fixed)
    ensures
        r.micros == mean(rows@.filter_map(by.measure())),
{
    let ghost f = by.measure();
    let mut values: Vec<Fixed> = Vec::new();
    let n: usize = rows.len();
    let mut i: usize = 0;
    proof {
        assert(micros_of(values@) =~= rows@.take(0).filter_map(f));
    }
    while i < n
        invariant
            n == rows@.len(),
            0 <= i <= n,
            f == by.measure(),
            micros_of(values@) == rows@.take(i as int).filter_map(f),
        decreases n - i,
    {
        proof {
            rows@.lemma_filter_map_take_succ(f, i as int);
        }
        match by.read(&rows[i]) {
            Some(q) => {
                proof {
                    assert(micros_of(values@.push(q)) =~= micros_of(values@) + seq![
                        q.micros as int,
                    ]);
                }
                values.push(q);
            },
            None => {
                proof {
                    assert(micros_of(values@) + Seq::<int>::empty() =~= micros_of(values@));
                }
            },
        }
        i = i + 1;
    }
    proof {
        assert(rows@.take(n as int) =~= rows@);
    }
    mean_of(&values)
}

/// Share of `part` in `whole` as a percentage, rounded down to a whole
/// millionth. The share of anything in a whole that is not positive is zero.
pub fn percentage_of(part: i32, whole: i32) -> (r: Fixed)
    ensures
        r.micros == percentage(part as int, whole as int),
        whole <= 0 ==> r.micros == 0,
        0 <= part <= whole ==> 0 <= r.micros <= 100 * SCALE,
{
    if whole > 0 {
        let scaled: i128 = (part as i128) * 100_000_000;
        let q: i128 = floor_div(scaled, whole as i128);
        proof {
            let p = part as int;
            let w = whole as int;
            assert(p * 100 * SCALE == p * 100_000_000) by (nonlinear_arith)
                requires
                    SCALE == 1_000_000,
            ;
            assert(-0x8000_0000 * 100_000_000 <= p * 100_000_000 <= 0x7fff_ffff * 100_000_000)
                by (nonlinear_arith)
                requires
                    -0x8000_0000 <= p <= 0x7fff_ffff,
            ;
            assert(w > 0 && -0x8000_0000 * 100_000_000 <= p * 100_000_000 <= 0x7fff_ffff
                * 100_000_000 ==> -0x8000_0000 * 100_000_000 <= (p * 100_000_000) / w <= 0x7fff_ffff
                * 100_000_000) by (nonlinear_arith);
            assert(0 <= p <= w && w > 0 ==> 0 <= (p * 100_000_000) / w <= 100_000_000)
                by (nonlinear_arith);
        }
        Fixed { micros: q as i64 }
    } else {
        Fixed { micros: 0 }
    }
}

} // verus!
