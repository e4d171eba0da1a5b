//! A 2D anchor-based layout core.
//!
//! Geometry is computed over `i64` coordinates. Fractional quantities
//! (anchors, rotations, scales) are fixed-point numerators over
//! [`num::UNIT`]. Results of every geometric operation saturate at
//! [`num::COORD_CAP`], so the pipeline is total and deterministic.

pub mod container;
pub mod geom;
pub mod hierarchy;
pub mod layouts;
pub mod num;
pub mod pipeline;
pub mod rect;
pub mod span;
pub mod tooltip;
pub mod transform;
