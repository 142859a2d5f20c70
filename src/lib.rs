//! Image transforms and a spectrum smoother, with contracts proved by Verus.

pub mod grid;
pub mod transform;
pub mod mosaic;
pub mod smoother;
pub mod codec;
pub mod pipeline;
