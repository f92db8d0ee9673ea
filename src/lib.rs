//! Writing records of byte-string fields as CSV, with configurable
//! delimiter, quoting, escaping and record termination.

pub mod config;
pub mod encode;
pub mod error;
pub mod laws;
pub mod reader;
pub mod writer;

pub use config::{Config, QuoteStyle, Terminator, WriterBuilder};
pub use error::Error;
pub use writer::{Writer, WriterView};
