//! Bandwidths for Gaussian kernel density estimates by two rules of thumb.
//!
//! Both rules scale a measure of spread by a power of the sample size. The
//! spread is the lesser of the standard deviation and the interquartile range
//! divided by 1.34, so that neither a few outliers nor a heavy tail decides
//! it alone. Silverman's rule never yields a NaN for want of a spread; Scott's
//! lets one through.
use vstd::prelude::*;
use crate::binary64::{
    abs, all_finite, finite, is_nan, key, magnitude, nan, pattern_of_count, positive, precedes, NAN,
    ONE,
};
use crate::error::InvalidInput;
use crate::magic_numbers::bandwidth::Parameters;
use crate::percentile::{
    lemma_ascends_with_rank, lenf, order_statistics, quantile_at, select, Quantile,
};
use crate::stable_sort::sorted;

verus! {

/// An interquartile range before its final arithmetic: `upper - lower`.
#[derive(Debug, Clone, Copy, PartialEq, Eq, Structural)]
pub struct QuartileRange {
    /// The upper quartile.
    pub upper: Quantile,
    /// The lower quartile.
    pub lower: Quantile,
}

/// A bandwidth before its final arithmetic:
/// `coefficient * spread * size ^ power`, each of the four a binary64
/// pattern.
#[derive(Debug, Clone, Copy, PartialEq, Eq, Structural)]
pub struct Bandwidth {
    /// The factor of the rule.
    pub coefficient: u64,
    /// The spread of the sample.
    pub spread: u64,
    /// The sample size.
    pub size: u64,
    /// The power to which the sample size is raised.
    pub power: u64,
}

/// The sample standard deviation of `n` samples whose sample variance has the
/// square root `root`: a NaN for fewer than two samples, of which no variance
/// can be taken, and else `root`.
pub open spec fn deviation_of(n: nat, root: u64) -> u64 {
    if n < 2 {
        NAN
    } else {
        root
    }
}

/// Slot `i` of `s` holds the least of `s`: the first NaN where `s` has one,
/// and else the first of the numerically lowest numbers.
pub open spec fn least_at(s: Seq<u64>, i: int) -> bool {
    &&& 0 <= i < s.len()
    &&& forall|j: int| 0 <= j < i ==> !nan(#[trigger] s[j])
    &&& nan(s[i]) || {
        &&& forall|j: int| 0 <= j < s.len() ==> !nan(#[trigger] s[j])
        &&& forall|j: int| 0 <= j < s.len() ==> key(s[i]) <= key(#[trigger] s[j])
        &&& forall|j: int| 0 <= j < i ==> key(s[i]) < key(#[trigger] s[j])
    }
}

/// The lesser of two numbers, the first of them when they are numerically
/// equal; a NaN where either is one, the first where both are.
pub open spec fn lesser(a: u64, b: u64) -> u64 {
    if nan(a) {
        a
    } else if nan(b) {
        b
    } else if key(b) < key(a) {
        b
    } else {
        a
    }
}

/// The spread that Silverman's rule scales: the lesser of the standard
/// deviation and the scaled interquartile range; where that is a NaN the
/// standard deviation; where that is one too the absolute value of the
/// sample `second`; and where even that is one, the number one.
pub open spec fn silverman_spread(deviation: u64, quartile_ratio: u64, second: u64) -> u64 {
    if !nan(lesser(deviation, quartile_ratio)) {
        lesser(deviation, quartile_ratio)
    } else if !nan(deviation) {
        deviation
    } else if !nan(magnitude(second)) {
        magnitude(second)
    } else {
        ONE
    }
}

/// The sample standard deviation of `x`, given the square root `root` of
/// its sample variance. For fewer than two samples it is a NaN whatever
/// `root` is, and no refusal: the bandwidth rules have their own answers to a
/// spread that is a NaN.
pub fn stddev(x: &Vec<u64>, root: u64) -> (r: u64)
    ensures
        r == deviation_of(x@.len(), root),
        x@.len() < 2 ==> nan(r),
{
    if x.len() < 2 {
        NAN
    } else {
        root
    }
}

/// The least of the numbers `x`, where a NaN counts as less than any number.
pub fn min(x: Vec<u64>) -> (r: Result<u64, InvalidInput>)
    ensures
        x@.len() == 0 ==> r == Err::<u64, InvalidInput>(InvalidInput::EmptySamples),
        x@.len() > 0 ==> exists|i: int| least_at(x@, i) && r == Ok::<u64, InvalidInput>(x@[i]),
        x@.len() == 2 ==> r == Ok::<u64, InvalidInput>(lesser(x@[0], x@[1])),
{
    if x.len() == 0 {
        return Err(InvalidInput::EmptySamples);
    }
    let mut at: usize = 0;
    let mut i: usize = 1;
    if is_nan(x[0]) {
        assert(least_at(x@, 0));
        return Ok(x[0]);
    }
    while i < x.len()
        invariant
            1 <= i <= x@.len(),
            at < i,
            forall|j: int| 0 <= j < i ==> !nan(#[trigger] x@[j]),
            forall|j: int| 0 <= j < i ==> key(x@[at as int]) <= key(#[trigger] x@[j]),
            forall|j: int| 0 <= j < at ==> key(x@[at as int]) < key(#[trigger] x@[j]),
        decreases x@.len() - i,
    {
        if is_nan(x[i]) {
            assert(least_at(x@, i as int));
            return Ok(x[i]);
        }
        if precedes(x[i], x[at]) {
            at = i;
        }
        i = i + 1;
    }
    assert(least_at(x@, at as int));
    Ok(x[at])
}

/// The two quartiles of the samples `x`, taken at the whole ranks
/// `upper_rank` and `lower_rank`, from one ascending arrangement of `x`.
///
/// Where the lower rank is below the upper, no point of the lower quartile
/// lies above a point of the upper, so the range is not negative.
pub fn iqr(x: &Vec<u64>, upper_rank: usize, lower_rank: usize) -> (r: Result<
    QuartileRange,
    InvalidInput,
>)
    ensures
        x@.len() == 0 ==> r == Err::<QuartileRange, InvalidInput>(InvalidInput::EmptySamples),
        x@.len() > 0 && !all_finite(x@) ==> r == Err::<QuartileRange, InvalidInput>(
            InvalidInput::NonFinite,
        ),
        x@.len() > 0 && all_finite(x@) ==> r == Ok::<QuartileRange, InvalidInput>(
            (QuartileRange {
                upper: quantile_at(sorted(x@), upper_rank as int),
                lower: quantile_at(sorted(x@), lower_rank as int),
            }),
        ),
        r matches Ok(q) ==> (lower_rank < upper_rank ==> key(q.lower.upper_end()) <= key(
            q.upper.lower_end(),
        )),
{
    if x.len() == 0 {
        return Err(InvalidInput::EmptySamples);
    }
    let ascending = order_statistics(x)?;
    let upper = select(&ascending, upper_rank)?;
    let lower = select(&ascending, lower_rank)?;
    proof {
        if lower_rank < upper_rank {
            lemma_ascends_with_rank(ascending@, lower_rank as int, upper_rank as int);
        }
    }
    Ok(QuartileRange { upper, lower })
}

/// Silverman's bandwidth for the samples `x`, whose sample variance has the
/// square root `root` and whose interquartile range, divided by 1.34, is
/// `quartile_ratio`.
///
/// The rule reads the second sample, so it refuses fewer than two. Its spread
/// is never a NaN, and it is a finite number above zero wherever the standard
/// deviation is one and the scaled interquartile range is above zero or a NaN.
pub fn nrd0(x: &Vec<u64>, root: u64, quartile_ratio: u64) -> (r: Result<
    Bandwidth,
    InvalidInput,
>)
    ensures
        x@.len() < 2 ==> r == Err::<Bandwidth, InvalidInput>(InvalidInput::TooFewSamples),
        x@.len() >= 2 ==> r == Ok::<Bandwidth, InvalidInput>(
            (Bandwidth {
                coefficient: Parameters::published().nrd0_coef,
                spread: silverman_spread(root, quartile_ratio, x@[1]),
                size: pattern_of_count(x@.len()) as u64,
                power: Parameters::published().nrd_fractional_power,
            }),
        ),
        r matches Ok(b) ==> !nan(b.spread),
        r matches Ok(b) ==> (finite(root) && positive(root) && (nan(quartile_ratio) || positive(
            quartile_ratio,
        )) ==> finite(b.spread) && positive(b.spread)),
{
    if x.len() < 2 {
        return Err(InvalidInput::TooFewSamples);
    }
    let parameters = Parameters::default();
    let deviation = stddev(x, root);
    let mut pair: Vec<u64> = Vec::new();
    pair.push(deviation);
    pair.push(quartile_ratio);
    let candidate = min(pair)?;
    let second = abs(x[1]);
    let spread = if !is_nan(candidate) {
        candidate
    } else if !is_nan(deviation) {
        deviation
    } else if !is_nan(second) {
        second
    } else {
        ONE
    };
    Ok(
        Bandwidth {
            coefficient: parameters.nrd0_coef,
            spread,
            size: lenf(x),
            power: parameters.nrd_fractional_power,
        },
    )
}

/// Scott's bandwidth for the samples `x`, whose sample variance has the
/// square root `root` and whose interquartile range, divided by 1.34, is
/// `quartile_ratio`.
///
/// Nothing stands in for a spread that is a NaN: it is the bandwidth's too.
/// The spread is a NaN exactly where the standard deviation or the scaled
/// interquartile range is one, as the standard deviation of a single sample
/// is. It is a finite number not below zero wherever the standard deviation
/// is finite and above zero and the scaled interquartile range is a number
/// not below zero.
pub fn nrd(x: &Vec<u64>, root: u64, quartile_ratio: u64) -> (r: Result<
    Bandwidth,
    InvalidInput,
>)
    ensures
        x@.len() == 0 ==> r == Err::<Bandwidth, InvalidInput>(InvalidInput::EmptySamples),
        x@.len() > 0 ==> r == Ok::<Bandwidth, InvalidInput>(
            (Bandwidth {
                coefficient: Parameters::published().nrd_coef,
                spread: lesser(deviation_of(x@.len(), root), quartile_ratio),
                size: pattern_of_count(x@.len()) as u64,
                power: Parameters::published().nrd_fractional_power,
            }),
        ),
        r matches Ok(b) ==> (nan(b.spread) <==> x@.len() < 2 || nan(root) || nan(quartile_ratio)),
        r matches Ok(b) ==> (x@.len() >= 2 && finite(root) && positive(root) && !nan(
            quartile_ratio,
        ) && key(quartile_ratio) >= 0 ==> finite(b.spread) && key(b.spread) >= 0),
{
    if x.len() == 0 {
        return Err(InvalidInput::EmptySamples);
    }
    let parameters = Parameters::default();
    let mut pair: Vec<u64> = Vec::new();
    pair.push(stddev(x, root));
    pair.push(quartile_ratio);
    let spread = min(pair)?;
    Ok(
        Bandwidth {
            coefficient: parameters.nrd_coef,
            spread,
            size: lenf(x),
            power: parameters.nrd_fractional_power,
        },
    )
}

} // verus!
