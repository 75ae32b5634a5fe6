//! Incremental stop-sequence filtering of streamed token pieces.

pub mod filter;
pub mod sink;
pub mod stop;

pub use filter::Filter;
pub use sink::Sink;
