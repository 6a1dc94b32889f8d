//! Interpolated percentiles of a sample.
//!
//! The percentile at the fraction `f` of `n` samples lies at the real-valued
//! rank `f * (n + 1)` among the ascending samples, counted from one. Its whole
//! part picks the two neighbouring order statistics, its fractional part the
//! point between them. This module does the picking; the point between is
//! rounding arithmetic and is left to the caller.
use vstd::prelude::*;
use crate::binary64::{all_finite, are_finite, from_count, key, pattern_of_count};
use crate::error::InvalidInput;
use crate::stable_sort::{
    arranged, ascending, lemma_arrange_holds, lemma_order_exists, lemma_sorts_ascending, order_of,
    sorted, stable_order,
};

verus! {

/// A percentile before its final arithmetic.
#[derive(Debug, Clone, Copy, PartialEq, Eq, Structural)]
pub enum Quantile {
    /// The percentile is the order statistic `value`.
    Exact { value: u64 },
    /// The percentile is `lower + t * (upper - lower)`, where `t` is the
    /// fractional part of the rank.
    Between { lower: u64, upper: u64 },
}

impl Quantile {
    /// The order statistic at or below the percentile.
    pub open spec fn lower_end(self) -> u64 {
        match self {
            Quantile::Exact { value } => value,
            Quantile::Between { lower, upper } => lower,
        }
    }

    /// The order statistic at or above the percentile.
    pub open spec fn upper_end(self) -> u64 {
        match self {
            Quantile::Exact { value } => value,
            Quantile::Between { lower, upper } => upper,
        }
    }
}

/// The slot, among `n >= 1` ascending samples, of the order statistic with the
/// one-based rank `rank`. A rank below the first stands for the first, one
/// above the last for the last.
pub open spec fn slot(n: int, rank: int) -> int {
    if rank <= 1 {
        0
    } else if rank > n {
        n - 1
    } else {
        rank - 1
    }
}

/// The percentile of the ascending samples `ranked` whose rank has the whole
/// part `rank`. It is interpolated only while the rank after the next one is
/// still a rank of the sample.
pub open spec fn quantile_at(ranked: Seq<u64>, rank: int) -> Quantile {
    if rank + 1 < ranked.len() {
        Quantile::Between {
            lower: ranked[slot(ranked.len() as int, rank)],
            upper: ranked[slot(ranked.len() as int, rank + 1)],
        }
    } else {
        Quantile::Exact { value: ranked[slot(ranked.len() as int, rank)] }
    }
}

/// The percentile of the ascending samples `ranked` at the whole rank `rank`.
///
/// `ranked` needs at least one sample. Nothing is asked of its order: the
/// result is read off the slots as they stand.
pub fn select(ranked: &Vec<u64>, rank: usize) -> (r: Result<Quantile, InvalidInput>)
    ensures
        ranked@.len() == 0 ==> r == Err::<Quantile, InvalidInput>(InvalidInput::EmptySamples),
        ranked@.len() > 0 ==> r == Ok::<Quantile, InvalidInput>(
            quantile_at(ranked@, rank as int),
        ),
{
    let n = ranked.len();
    if n == 0 {
        return Err(InvalidInput::EmptySamples);
    }
    let at: usize = if rank <= 1 {
        0
    } else if rank > n {
        n - 1
    } else {
        rank - 1
    };
    if rank < n - 1 {
        Ok(Quantile::Between { lower: ranked[at], upper: ranked[rank] })
    } else {
        Ok(Quantile::Exact { value: ranked[at] })
    }
}

/// The number of the samples `x`, as a binary64.
pub fn lenf(x: &Vec<u64>) -> (r: u64)
    ensures
        r == pattern_of_count(x@.len()),
{
    from_count(x.len())
}

/// The samples `x` in stable ascending order, in a vector of their own.
pub fn order_statistics(x: &Vec<u64>) -> (r: Result<Vec<u64>, InvalidInput>)
    ensures
        all_finite(x@) <==> r is Ok,
        !all_finite(x@) ==> r == Err::<Vec<u64>, InvalidInput>(InvalidInput::NonFinite),
        r matches Ok(s) ==> s@ == sorted(x@) && s@.len() == x@.len() && ascending(s@),
{
    if !are_finite(x) {
        return Err(InvalidInput::NonFinite);
    }
    let p = stable_order(x);
    let s = arranged(x, &p);
    proof {
        lemma_sorts_ascending(x@, p@);
    }
    Ok(s)
}

/// The percentile of the samples `x` at the whole rank `rank`.
///
/// An empty sample has no percentile, and a sample that holds a NaN or an
/// infinity has no ascending order to read one from.
pub fn percentile(x: &Vec<u64>, rank: usize) -> (r: Result<Quantile, InvalidInput>)
    ensures
        x@.len() == 0 ==> r == Err::<Quantile, InvalidInput>(InvalidInput::EmptySamples),
        x@.len() > 0 && !all_finite(x@) ==> r == Err::<Quantile, InvalidInput>(
            InvalidInput::NonFinite,
        ),
        x@.len() > 0 && all_finite(x@) ==> r == Ok::<Quantile, InvalidInput>(
            quantile_at(sorted(x@), rank as int),
        ),
{
    if x.len() == 0 {
        return Err(InvalidInput::EmptySamples);
    }
    let ascending = order_statistics(x)?;
    select(&ascending, rank)
}

/// The two ends of a percentile of ascending samples are order statistics of
/// the sample, the lower end not above the upper.
pub proof fn lemma_ends_ordered(ranked: Seq<u64>, rank: int)
    requires
        ascending(ranked),
        ranked.len() > 0,
        0 <= rank,
    ensures
        key(quantile_at(ranked, rank).lower_end()) <= key(quantile_at(ranked, rank).upper_end()),
        ranked.contains(quantile_at(ranked, rank).lower_end()),
        ranked.contains(quantile_at(ranked, rank).upper_end()),
{
    let n = ranked.len() as int;
    let a = slot(n, rank);
    let b = if rank + 1 < n {
        slot(n, rank + 1)
    } else {
        a
    };
    assert(ranked[a] == quantile_at(ranked, rank).lower_end());
    assert(ranked[b] == quantile_at(ranked, rank).upper_end());
}

/// Percentiles ascend with the rank: the upper end of the percentile at a
/// lower whole rank is not above the lower end of the percentile at a higher
/// one. Together with [`lemma_ends_ordered`], any point between the ends of the
/// first is at or below any point between the ends of the second.
pub proof fn lemma_ascends_with_rank(ranked: Seq<u64>, low: int, high: int)
    requires
        ascending(ranked),
        ranked.len() > 0,
        0 <= low < high,
    ensures
        key(quantile_at(ranked, low).upper_end()) <= key(quantile_at(ranked, high).lower_end()),
{
    let n = ranked.len() as int;
    let b = if low + 1 < n {
        slot(n, low + 1)
    } else {
        slot(n, low)
    };
    let a = slot(n, high);
    assert(ranked[b] == quantile_at(ranked, low).upper_end());
    assert(ranked[a] == quantile_at(ranked, high).lower_end());
    assert(b <= a);
}

/// At the two ends of the rank scale the percentile is an extreme of the
/// sample. At the whole rank zero both of its ends are the least sample; at a
/// whole rank beyond the sample size it is exactly the greatest.
pub proof fn lemma_extremes(x: Seq<u64>, beyond: int)
    requires
        0 < x.len() <= usize::MAX,
        beyond >= x.len(),
    ensures
        quantile_at(sorted(x), 0).lower_end() == sorted(x)[0],
        quantile_at(sorted(x), 0).upper_end() == sorted(x)[0],
        quantile_at(sorted(x), beyond) == (Quantile::Exact { value: sorted(x)[x.len() - 1] }),
        x.contains(sorted(x)[0]),
        x.contains(sorted(x)[x.len() - 1]),
        forall|k: int|
            0 <= k < x.len() ==> key(sorted(x)[0]) <= key(#[trigger] x[k]) <= key(
                sorted(x)[x.len() - 1],
            ),
{
    let p = order_of(x);
    let s = sorted(x);
    let n = x.len() as int;
    lemma_order_exists(x);
    lemma_sorts_ascending(x, p);
    assert(x[p[0] as int] == s[0]);
    assert(x[p[n - 1] as int] == s[n - 1]);
    assert forall|k: int| 0 <= k < n implies key(s[0]) <= key(#[trigger] x[k]) <= key(
        s[n - 1],
    ) by {
        let i = lemma_arrange_holds(x, p, k);
        assert(s[i] == x[k]);
    }
}

} // verus!
