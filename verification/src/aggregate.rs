//! Aggregation policies: reducing a sample history to one scalar.
//!
//! A history is the ordered sequence of a diagnostic's recorded samples,
//! oldest first; every sample is a fixed-point scalar in hundredths of a
//! unit.  Averages divide with truncation toward zero.

use vstd::arithmetic::div_mod::{lemma_div_is_ordered, lemma_div_by_multiple, lemma_div_pos_is_pos};
use vstd::prelude::*;

verus! {

/// The rule by which a sample history becomes the one displayed scalar.
#[derive(Clone, Copy, Debug, PartialEq, Eq, Structural, Default)]
pub enum Aggregate {
    /// The most recent sample.
    #[default]
    Value,
    /// The arithmetic mean of every retained sample.
    Average,
    /// The arithmetic mean of the last `n` samples; yields nothing until
    /// the history holds at least `n` samples, and nothing for `n == 0`.
    MovingAverage(usize),
}

/// The sample sequence as mathematical integers.
pub open spec fn int_view(s: Seq<i64>) -> Seq<int> {
    s.map_values(|v: i64| v as int)
}

/// The sum of a sequence of integers.
pub open spec fn seq_sum(s: Seq<int>) -> int
    decreases s.len(),
{
    if s.len() == 0 {
        0
    } else {
        seq_sum(s.drop_last()) + s.last()
    }
}

/// Integer division truncating toward zero, for a positive divisor.
pub open spec fn trunc_div(a: int, n: int) -> int {
    if a >= 0 {
        a / n
    } else {
        -((-a) / n)
    }
}

/// What aggregation policy `agg` yields on history `h`: the most recent
/// sample, a mean, or nothing when the policy has no defined value.
pub open spec fn spec_aggregate(agg: Aggregate, h: Seq<int>) -> Option<int> {
    match agg {
        Aggregate::Value => if h.len() == 0 {
            None
        } else {
            Some(h.last())
        },
        Aggregate::Average => if h.len() == 0 {
            None
        } else {
            Some(trunc_div(seq_sum(h), h.len() as int))
        },
        Aggregate::MovingAverage(w) => if w == 0 || h.len() < w {
            None
        } else {
            Some(trunc_div(seq_sum(h.skip(h.len() - w)), w as int))
        },
    }
}

/// The value of an optional scalar as a mathematical integer.
pub open spec fn opt_int(r: Option<i64>) -> Option<int> {
    match r {
        Some(v) => Some(v as int),
        None => None,
    }
}

/// A sum of `s.len()` samples lies between `len * i64::MIN` and
/// `len * i64::MAX`.
pub proof fn lemma_sum_bound(s: Seq<int>)
    requires
        forall|i: int| 0 <= i < s.len() ==> i64::MIN <= #[trigger] s[i] <= i64::MAX,
    ensures
        (s.len() as int) * (i64::MIN as int) <= seq_sum(s) <= (s.len() as int) * (i64::MAX as int),
    decreases s.len(),
{
    if s.len() > 0 {
        lemma_sum_bound(s.drop_last());
    }
}

/// Sums the samples `values[start..]` exactly.
fn sum_from(values: &Vec<i64>, start: usize) -> (total: i128)
    requires
        start <= values@.len(),
    ensures
        total as int == seq_sum(int_view(values@).skip(start as int)),
{
    let ghost full = int_view(values@);
    let mut acc: i128 = 0;
    let mut j: usize = start;
    proof {
        assert(full.subrange(start as int, start as int) =~= Seq::<int>::empty());
    }
    while j < values.len()
        invariant
            start <= j <= values@.len(),
            full == int_view(values@),
            acc as int == seq_sum(full.subrange(start as int, j as int)),
            (j - start) * (i64::MIN as int) <= acc as int <= (j - start) * (i64::MAX as int),
        decreases values@.len() - j,
    {
        let v = values[j];
        proof {
            let prefix = full.subrange(start as int, j as int);
            let next = full.subrange(start as int, j + 1);
            assert(next.drop_last() =~= prefix);
            assert(next.last() == full[j as int]);
            assert(full[j as int] == values@[j as int] as int);
        }
        acc = acc + (v as i128);
        j = j + 1;
    }
    proof {
        assert(full.subrange(start as int, values@.len() as int) =~= full.skip(start as int));
    }
    acc
}

/// Divides a sum of `n` samples by `n`, truncating toward zero.
fn mean_of_sum(total: i128, n: usize) -> (r: i64)
    requires
        n > 0,
        (n as int) * (i64::MIN as int) <= total as int <= (n as int) * (i64::MAX as int),
    ensures
        r as int == trunc_div(total as int, n as int),
{
    proof {
        let t = total as int;
        let nn = n as int;
        if t >= 0 {
            lemma_div_pos_is_pos(t, nn);
            lemma_div_is_ordered(t, nn * (i64::MAX as int), nn);
            lemma_div_by_multiple(i64::MAX as int, nn);
            assert(nn * (i64::MAX as int) == (i64::MAX as int) * nn) by (nonlinear_arith);
        } else {
            lemma_div_pos_is_pos(-t, nn);
            lemma_div_is_ordered(-t, nn * (-(i64::MIN as int)), nn);
            lemma_div_by_multiple(-(i64::MIN as int), nn);
            assert(nn * (i64::MIN as int) == -(nn * (-(i64::MIN as int)))) by (nonlinear_arith);
            assert(nn * (-(i64::MIN as int)) == (-(i64::MIN as int)) * nn) by (nonlinear_arith);
        }
    }
    if total >= 0 {
        let q: u128 = (total as u128) / (n as u128);
        q as i64
    } else {
        let mag: u128 = (-total) as u128;
        let q: u128 = mag / (n as u128);
        (-(q as i128)) as i64
    }
}

/// Applies aggregation policy `agg` to the history `values` (oldest
/// sample first), yielding the scalar that [`spec_aggregate`] defines,
/// or nothing where the policy yields none.
pub fn aggregate(agg: Aggregate, values: &Vec<i64>) -> (r: Option<i64>)
    ensures
        opt_int(r) == spec_aggregate(agg, int_view(values@)),
{
    let ghost h = int_view(values@);
    match agg {
        Aggregate::Value => {
            if values.len() == 0 {
                None
            } else {
                Some(values[values.len() - 1])
            }
        },
        Aggregate::Average => {
            if values.len() == 0 {
                None
            } else {
                let total = sum_from(values, 0);
                proof {
                    assert(h.skip(0) =~= h);
                    lemma_sum_bound(h);
                }
                Some(mean_of_sum(total, values.len()))
            }
        },
        Aggregate::MovingAverage(w) => {
            if w == 0 || values.len() < w {
                None
            } else {
                let start = values.len() - w;
                let total = sum_from(values, start);
                proof {
                    lemma_sum_bound(h.skip(start as int));
                    assert(h.skip(start as int).len() == w);
                }
                Some(mean_of_sum(total, w))
            }
        },
    }
}

} // verus!
