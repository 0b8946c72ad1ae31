//! Buffered, row-group oriented writing of records into a columnar file,
//! and an order-preserving merge of sorted record streams.

pub mod error;
pub mod record;
pub mod schema;
pub mod encoder;
pub mod sink;
pub mod writer;
pub mod rowwritebuffer;
pub mod merge;
pub mod location;
pub mod arguments;
