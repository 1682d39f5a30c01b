//! Convenience re-exports.
pub use crate::bucket::SnowflakeIdBucket;
pub use crate::error::SnowflakeError;
pub use crate::generator::{SnowflakeComponents, SnowflakeIdGenerator};
pub use crate::layout::BitLayout;
