//! View-frustum culling over an exact integer scalar model.
//!
//! A `Frustum` holds the six bounding planes of a camera's visible volume,
//! extracted from a combined model-view-projection transform. A
//! `FrustumQuery` classifies a batch of bounding spheres against a frustum,
//! sequentially or in parallel.
pub mod frustum;
pub mod query;

pub use frustum::Frustum;
pub use query::{FrustumQuery, FrustumQueryObject};
