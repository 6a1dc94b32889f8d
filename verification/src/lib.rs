//! Summary statistics, bandwidth selection, density curves and resampling for
//! samples of real numbers.
//!
//! Numbers are carried as IEEE 754 binary64 bit patterns (see [`binary64`]),
//! so that their order and their NaN tests are exact integer facts. Results
//! that need rounding arithmetic are returned as the operands of the final
//! expression, for the caller to evaluate, and the results of rounding
//! arithmetic that a computation starts from are taken as arguments.
pub mod bandwidth;
pub mod binary64;
pub mod error;
pub mod magic_numbers;
pub mod monte_carlo;
pub mod percentile;
pub mod stable_sort;

pub use magic_numbers::bandwidth::Parameters as BandwidthParameters;
pub use magic_numbers::environment::Parameters as EnvironmentParameters;
pub use monte_carlo::sample_n;
