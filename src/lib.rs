//! Portfolio valuation engine: positions and purchase lots, fallback quote
//! caches, position resolution, valuation, historic aggregation and the
//! refresh cycle's bookkeeping, all over fixed-point amounts.

pub mod cache;
pub mod dashboard;
pub mod dates;
pub mod fixed;
pub mod history;
pub mod portfolio;
pub mod position;
pub mod quote;
pub mod refresh;
pub mod resolver;
pub mod summary;
pub mod text;
pub mod validation;
