//! A configurable Snowflake ID generator.
//!
//! An ID is an `i64` whose 63 usable bits hold, from the top, a millisecond
//! timestamp, a machine identifier, a node identifier and a per-millisecond
//! sequence number, with widths set by a [`BitLayout`].

pub mod bucket;
pub mod encoding;
pub mod error;
pub mod generator;
pub mod global;
pub mod layout;
pub mod prelude;
pub mod utils;

pub use bucket::SnowflakeIdBucket;
pub use error::SnowflakeError;
pub use generator::{SnowflakeComponents, SnowflakeIdGenerator};
pub use global::create_generator;
pub use layout::BitLayout;
