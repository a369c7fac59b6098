//! Monotone-chain convex hull with a replayable history of every push and
//! pop, and a cursor that scrubs through the upper and lower phases as one
//! timeline.

pub mod geometry;
pub mod sorting;
pub mod chain;
pub mod graham_scan;
pub mod tabs;
pub mod session;
pub mod hull;
