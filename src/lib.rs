//! Marking scatter samples as excluded by drawing a closed curve, and turning the
//! excluded timestamps into consolidated time intervals.
pub mod geometry;
pub mod containment;
pub mod intervals;
pub mod exclusions;
pub mod dataset;
pub mod names;
pub mod timestamps;
pub mod export;
pub mod session;
pub mod table;
