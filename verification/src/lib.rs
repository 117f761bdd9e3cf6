pub mod display;
pub mod error;
pub mod matrix;
pub mod metrics;
pub mod vector;

pub use error::{MatrixError, MetricsError};
pub use matrix::{assemble, compute_cell, make_tasks, multiply, Matrix, MsgInput, MsgOutput};
pub use metrics::amap::AmapMetrics;
pub use metrics::cmap::CmapMetrics;
pub use vector::{dot_product, Vector};
