//! Vivaldi network coordinates for decentralized latency estimation.
//!
//! Each node of a network keeps one [`NetworkCoordinate`]: a position in a
//! synthetic latency space together with a confidence value. Feeding measured
//! round-trip times into [`NetworkCoordinate::update`] moves the coordinate so
//! that the height-vector distance between two nodes approximates the
//! round-trip time between them, following the Vivaldi algorithm.
//!
//! All quantities are fixed-point integers: one step is a nanosecond, so
//! [`math::ONE`] steps make one millisecond, and `ONE` also stands for the
//! real number 1.0 wherever a dimensionless factor (a weight, a unit-vector
//! component) is involved. Working over integers keeps every operation exact
//! and lets the update rule, the height-vector algebra and the norm be
//! verified; the bound [`math::MAX_COORD`] plays the role that float
//! finiteness plays in the classic formulation, and any arithmetic result
//! that leaves the representable range is healed by substituting a fresh
//! random coordinate, exactly as the classic formulation heals NaN and
//! infinity.

pub mod math;
pub mod vector;
pub mod height_vector;
pub mod network_coordinate;

pub use network_coordinate::NetworkCoordinate;
pub use network_coordinate::NetworkCoordinate2D;
pub use network_coordinate::NetworkCoordinate3D;
