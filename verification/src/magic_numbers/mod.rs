//! The constants that the estimators are tuned by.
pub mod bandwidth;
pub mod environment;
pub mod to_point_set;
