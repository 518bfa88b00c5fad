//! Integer statistics over the per-command megabyte values: arithmetic mean
//! and population standard deviation, both with truncating integer division,
//! and the standard deviation as the floor of the square root of the
//! truncated variance.

use vstd::prelude::*;

verus! {

/// Mathematical view of a vector of machine integers.
pub open spec fn ints_of(s: Seq<i64>) -> Seq<int> {
    s.map_values(|v: i64| v as int)
}

/// Sum of a sequence of integers.
pub open spec fn sum_of(s: Seq<int>) -> int
    decreases s.len(),
{
    if s.len() == 0 {
        0
    } else {
        sum_of(s.drop_last()) + s.last()
    }
}

/// Integer mean: sum divided by count, truncated (a floor for non-negative
/// sums).
pub open spec fn mean_of(s: Seq<int>) -> int
    recommends
        s.len() > 0,
{
    sum_of(s) / s.len() as int
}

/// Sum of squared differences from `m`.
pub open spec fn sum_sq_diffs(s: Seq<int>, m: int) -> int
    decreases s.len(),
{
    if s.len() == 0 {
        0
    } else {
        sum_sq_diffs(s.drop_last(), m) + (m - s.last()) * (m - s.last())
    }
}

/// Integer population variance: mean of the squared differences from the
/// integer mean, truncated.
pub open spec fn variance_of(s: Seq<int>) -> int
    recommends
        s.len() > 0,
{
    sum_sq_diffs(s, mean_of(s)) / s.len() as int
}

/// `r` is the floor of the square root of `v`.
pub open spec fn is_sqrt_floor(v: int, r: int) -> bool {
    0 <= r && r * r <= v && v < (r + 1) * (r + 1)
}

/// The floor of the square root of a non-negative integer.
pub open spec fn sqrt_floor(v: int) -> int
    recommends
        0 <= v,
{
    choose|r: int| is_sqrt_floor(v, r)
}

/// Integer population standard deviation: floor of the square root of the
/// truncated variance.
pub open spec fn std_dev_of(s: Seq<int>) -> int
    recommends
        s.len() > 0,
{
    sqrt_floor(variance_of(s))
}

/// The floor square root is unique.
pub proof fn lemma_sqrt_floor_unique(v: int, r1: int, r2: int)
    requires
        is_sqrt_floor(v, r1),
        is_sqrt_floor(v, r2),
    ensures
        r1 == r2,
{
    if r1 < r2 {
        assert((r1 + 1) * (r1 + 1) <= r2 * r2) by (nonlinear_arith)
            requires
                0 <= r1,
                0 <= r2,
                r1 < r2,
        ;
    }
    if r2 < r1 {
        assert((r2 + 1) * (r2 + 1) <= r1 * r1) by (nonlinear_arith)
            requires
                0 <= r1,
                0 <= r2,
                r2 < r1,
        ;
    }
}

proof fn lemma_sum_of_take_step(s: Seq<int>, i: int)
    requires
        0 <= i < s.len(),
    ensures
        sum_of(s.take(i + 1)) == sum_of(s.take(i)) + s[i],
{
    assert(s.take(i + 1).drop_last() =~= s.take(i));
    assert(s.take(i + 1).last() == s[i]);
}

proof fn lemma_sum_of_take_le(s: Seq<int>, i: int)
    requires
        0 <= i <= s.len(),
        forall|j: int| 0 <= j < s.len() ==> 0 <= #[trigger] s[j],
    ensures
        sum_of(s.take(i)) <= sum_of(s),
    decreases s.len() - i,
{
    if i == s.len() {
        assert(s.take(i) =~= s);
    } else {
        lemma_sum_of_take_step(s, i);
        lemma_sum_of_take_le(s, i + 1);
    }
}

proof fn lemma_sum_sq_take_step(s: Seq<int>, m: int, i: int)
    requires
        0 <= i < s.len(),
    ensures
        sum_sq_diffs(s.take(i + 1), m) == sum_sq_diffs(s.take(i), m) + (m - s[i]) * (m - s[i]),
{
    assert(s.take(i + 1).drop_last() =~= s.take(i));
    assert(s.take(i + 1).last() == s[i]);
}

proof fn lemma_sum_sq_take_le(s: Seq<int>, m: int, i: int)
    requires
        0 <= i <= s.len(),
    ensures
        sum_sq_diffs(s.take(i), m) <= sum_sq_diffs(s, m),
    decreases s.len() - i,
{
    if i == s.len() {
        assert(s.take(i) =~= s);
    } else {
        lemma_sum_sq_take_step(s, m, i);
        assert(0 <= (m - s[i]) * (m - s[i])) by (nonlinear_arith);
        lemma_sum_sq_take_le(s, m, i + 1);
    }
}

/// Sum a vector of non-negative values, detecting overflow exactly: `Some`
/// if and only if the mathematical sum fits in an `i64`.
pub fn checked_sum(values: &Vec<i64>) -> (r: Option<i64>)
    requires
        forall|i: int| 0 <= i < values@.len() ==> 0 <= #[trigger] values@[i],
    ensures
        match r {
            Some(s) => sum_of(ints_of(values@)) <= i64::MAX && s as int == sum_of(ints_of(values@))
                && 0 <= s,
            None => sum_of(ints_of(values@)) > i64::MAX,
        },
{
    let ghost s = ints_of(values@);
    let mut acc: i64 = 0;
    let mut i: usize = 0;
    while i < values.len()
        invariant
            s == ints_of(values@),
            forall|j: int| 0 <= j < values@.len() ==> 0 <= #[trigger] values@[j],
            0 <= i <= values@.len(),
            0 <= acc,
            acc as int == sum_of(s.take(i as int)),
        decreases values@.len() - i,
    {
        let v = values[i];
        proof {
            lemma_sum_of_take_step(s, i as int);
        }
        match acc.checked_add(v) {
            Some(a) => {
                acc = a;
            },
            None => {
                proof {
                    lemma_sum_of_take_le(s, i + 1);
                }
                return None;
            },
        }
        i = i + 1;
    }
    proof {
        assert(s.take(values@.len() as int) =~= s);
    }
    Some(acc)
}

/// Arithmetic mean with truncating integer division, as
/// `floor(sum(values) / count)` for non-negative values.
pub fn mean(values: &Vec<i64>) -> (r: i64)
    requires
        values@.len() > 0,
        forall|i: int| 0 <= i < values@.len() ==> 0 <= #[trigger] values@[i],
        sum_of(ints_of(values@)) <= i64::MAX,
    ensures
        r as int == mean_of(ints_of(values@)),
        0 <= r as int <= sum_of(ints_of(values@)),
{
    let ghost s = ints_of(values@);
    let mut acc: i64 = 0;
    let mut i: usize = 0;
    while i < values.len()
        invariant
            s == ints_of(values@),
            forall|j: int| 0 <= j < values@.len() ==> 0 <= #[trigger] values@[j],
            sum_of(s) <= i64::MAX,
            0 <= i <= values@.len(),
            0 <= acc,
            acc as int == sum_of(s.take(i as int)),
        decreases values@.len() - i,
    {
        let v = values[i];
        proof {
            lemma_sum_of_take_step(s, i as int);
            lemma_sum_of_take_le(s, i + 1);
        }
        acc = acc + v;
        i = i + 1;
    }
    proof {
        assert(s.take(values@.len() as int) =~= s);
    }
    let count = values.len() as u64;
    let q = (acc as u64) / count;
    q as i64
}

/// Floor of the square root of a non-negative value, by binary search on
/// the candidate root.
fn isqrt(v: i64) -> (r: i64)
    requires
        0 <= v,
    ensures
        is_sqrt_floor(v as int, r as int),
        r as int == sqrt_floor(v as int),
        0 <= r,
{
    let x = v as u64;
    let mut lo: u64 = 0;
    let mut hi: u64 = 3037000500;
    proof {
        assert(3037000500int * 3037000500int > i64::MAX as int);
    }
    while lo + 1 < hi
        invariant
            x == v as int,
            x <= i64::MAX,
            0 <= lo < hi <= 3037000500,
            (lo as int) * (lo as int) <= x as int,
            (x as int) < (hi as int) * (hi as int),
        decreases hi - lo,
    {
        let mid = lo + (hi - lo) / 2;
        proof {
            assert((mid as int) * (mid as int) <= 3037000499int * 3037000499int) by (nonlinear_arith)
                requires
                    0 <= mid as int <= 3037000499int,
            ;
        }
        let sq = mid * mid;
        if sq <= x {
            lo = mid;
        } else {
            hi = mid;
        }
    }
    proof {
        assert(((lo + 1) as int) * (((lo + 1)) as int) >= (hi as int) * (hi as int)) by (nonlinear_arith)
            requires
                0 <= hi as int,
                lo as int + 1 >= hi as int,
        ;
        assert(is_sqrt_floor(v as int, lo as int));
        assert(is_sqrt_floor(v as int, sqrt_floor(v as int)));
        lemma_sqrt_floor_unique(v as int, lo as int, sqrt_floor(v as int));
    }
    lo as i64
}

/// Population standard deviation with overflow detection: `Some` if and
/// only if the sum of squared differences from the mean fits in an `i64`,
/// and then exactly the floor square root of the truncated variance.
pub fn try_std_deviation(values: &Vec<i64>) -> (r: Option<i64>)
    requires
        values@.len() > 0,
        forall|i: int| 0 <= i < values@.len() ==> 0 <= #[trigger] values@[i],
        sum_of(ints_of(values@)) <= i64::MAX,
    ensures
        match r {
            Some(d) => sum_sq_diffs(ints_of(values@), mean_of(ints_of(values@))) <= i64::MAX
                && d as int == std_dev_of(ints_of(values@))
                && is_sqrt_floor(variance_of(ints_of(values@)), d as int)
                && 0 <= d,
            None => sum_sq_diffs(ints_of(values@), mean_of(ints_of(values@))) > i64::MAX,
        },
{
    let ghost s = ints_of(values@);
    let m = mean(values);
    let ghost mi = m as int;
    let mut acc: i64 = 0;
    let mut i: usize = 0;
    while i < values.len()
        invariant
            s == ints_of(values@),
            forall|j: int| 0 <= j < values@.len() ==> 0 <= #[trigger] values@[j],
            mi == mean_of(s),
            0 <= m as int <= i64::MAX,
            m as int == mi,
            0 <= i <= values@.len(),
            0 <= acc,
            acc as int == sum_sq_diffs(s.take(i as int), mi),
        decreases values@.len() - i,
    {
        let v = values[i];
        let diff = m - v;
        proof {
            lemma_sum_sq_take_step(s, mi, i as int);
            assert(0 <= (mi - s[i as int]) * (mi - s[i as int])) by (nonlinear_arith);
        }
        let sq = match diff.checked_mul(diff) {
            Some(q) => q,
            None => {
                proof {
                    lemma_sum_sq_take_le(s, mi, i + 1);
                }
                return None;
            },
        };
        match acc.checked_add(sq) {
            Some(a) => {
                acc = a;
            },
            None => {
                proof {
                    lemma_sum_sq_take_le(s, mi, i + 1);
                }
                return None;
            },
        }
        i = i + 1;
    }
    proof {
        assert(s.take(values@.len() as int) =~= s);
    }
    let count = values.len() as u64;
    let variance = ((acc as u64) / count) as i64;
    let d = isqrt(variance);
    Some(d)
}

/// The run's derived statistics: integer mean and integer population
/// standard deviation of the per-command megabyte values.
pub struct Statistics {
    pub mean: i64,
    pub standard_deviation: i64,
}

/// Compute the run's statistics, detecting overflow in the squared-
/// difference sum exactly.
pub fn compute_statistics(values: &Vec<i64>) -> (r: Option<Statistics>)
    requires
        values@.len() > 0,
        forall|i: int| 0 <= i < values@.len() ==> 0 <= #[trigger] values@[i],
        sum_of(ints_of(values@)) <= i64::MAX,
    ensures
        match r {
            Some(st) => sum_sq_diffs(ints_of(values@), mean_of(ints_of(values@))) <= i64::MAX
                && st.mean as int == mean_of(ints_of(values@)) && st.standard_deviation as int
                == std_dev_of(ints_of(values@)) && 0 <= st.mean && 0 <= st.standard_deviation,
            None => sum_sq_diffs(ints_of(values@), mean_of(ints_of(values@))) > i64::MAX,
        },
{
    let m = mean(values);
    match try_std_deviation(values) {
        Some(d) => Some(Statistics { mean: m, standard_deviation: d }),
        None => None,
    }
}

/// Population standard deviation for inputs whose intermediate sums fit in
/// an `i64`: the floor square root of the truncated variance.
pub fn std_deviation(values: &Vec<i64>) -> (r: i64)
    requires
        values@.len() > 0,
        forall|i: int| 0 <= i < values@.len() ==> 0 <= #[trigger] values@[i],
        sum_of(ints_of(values@)) <= i64::MAX,
        sum_sq_diffs(ints_of(values@), mean_of(ints_of(values@))) <= i64::MAX,
    ensures
        r as int == std_dev_of(ints_of(values@)),
        is_sqrt_floor(variance_of(ints_of(values@)), r as int),
        0 <= r,
{
    let r = try_std_deviation(values);
    assert(r.is_some());
    r.unwrap()
}

} // verus!

