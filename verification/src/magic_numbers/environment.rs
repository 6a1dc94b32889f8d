//! The sizes that a host falls back on when its caller names none.
use vstd::prelude::*;

verus! {

/// Default sizes of the things a host draws or plots.
#[derive(Debug, Clone, Copy, PartialEq, Eq, Structural)]
pub struct Parameters {
    /// How many points a plotted curve has.
    pub default_xy_point_length: usize,
    /// How many samples a simulation draws.
    pub default_sample_count: usize,
    /// How many characters a sparkline has.
    pub sparkline_length: usize,
}

impl Default for Parameters {
    fn default() -> (r: Parameters)
        ensures
            r.default_xy_point_length == 1000,
            r.default_sample_count == 10000,
            r.sparkline_length == 20,
    {
        Parameters { default_xy_point_length: 1000, default_sample_count: 10000, sparkline_length: 20 }
    }
}

} // verus!
