//! The constants of the two bandwidth rules of thumb: Silverman's of 1986
//! and Scott's of 1992.
use vstd::prelude::*;

verus! {

/// The pattern of 0.75.
pub const THREE_QUARTERS: u64 = 0x3FE8_0000_0000_0000;

/// The pattern of 0.25.
pub const ONE_QUARTER: u64 = 0x3FD0_0000_0000_0000;

/// The pattern of 1.34.
pub const QUARTILES_PER_DEVIATION: u64 = 0x3FF5_70A3_D70A_3D71;

/// The pattern of 0.9.
pub const SILVERMAN_COEFFICIENT: u64 = 0x3FEC_CCCC_CCCC_CCCD;

/// The pattern of 1.06.
pub const SCOTT_COEFFICIENT: u64 = 0x3FF0_F5C2_8F5C_28F6;

/// The pattern of -0.2.
pub const MINUS_ONE_FIFTH: u64 = 0xBFC9_9999_9999_999A;

/// The constants of the bandwidth rules, each a binary64 pattern.
#[derive(Debug, Clone, Copy, PartialEq, Eq, Structural)]
pub struct Parameters {
    /// The fraction at which the upper quartile is taken.
    pub iqr_percentile: u64,
    /// The fraction at which the lower quartile is taken: one minus the upper.
    pub iqr_percentile_complement: u64,
    /// What the interquartile range is divided by to stand beside a standard
    /// deviation.
    pub nrd0_lo_denominator: u64,
    /// The factor of Silverman's rule.
    pub nrd0_coef: u64,
    /// The factor of Scott's rule.
    pub nrd_coef: u64,
    /// The power to which both rules raise the sample size.
    pub nrd_fractional_power: u64,
}

impl Parameters {
    /// The constants as the two rules were published.
    pub open spec fn published() -> Parameters {
        Parameters {
            iqr_percentile: THREE_QUARTERS,
            iqr_percentile_complement: ONE_QUARTER,
            nrd0_lo_denominator: QUARTILES_PER_DEVIATION,
            nrd0_coef: SILVERMAN_COEFFICIENT,
            nrd_coef: SCOTT_COEFFICIENT,
            nrd_fractional_power: MINUS_ONE_FIFTH,
        }
    }
}

impl Default for Parameters {
    fn default() -> (r: Parameters)
        ensures
            r == Parameters::published(),
    {
        Parameters {
            iqr_percentile: THREE_QUARTERS,
            iqr_percentile_complement: ONE_QUARTER,
            nrd0_lo_denominator: QUARTILES_PER_DEVIATION,
            nrd0_coef: SILVERMAN_COEFFICIENT,
            nrd_coef: SCOTT_COEFFICIENT,
            nrd_fractional_power: MINUS_ONE_FIFTH,
        }
    }
}

} // verus!
