//! Reading and writing the asciicast terminal-session recording format,
//! with two timeline transforms over the decoded event stream.
//!
//! Two incompatible generations exist on disk: a legacy whole-document
//! JSON format and a streaming line-delimited one. Opening an input
//! detects the generation from the first line and yields one uniform
//! header and event sequence; writing reconstructs a well-formed file of
//! the current generation, with its exact field-omission and
//! numeric-formatting rules.

pub mod codec;
pub mod error;
pub mod event;
pub mod header;
pub mod json;
pub mod reader;
pub mod transform;
pub mod writer;

pub use codec::decode_time;
pub use codec::encode_time;
pub use codec::format_time;
pub use error::Error;
pub use event::Event;
pub use event::EventCode;
pub use header::Header;
pub use header::V2Header;
pub use reader::Reader;
pub use reader::open;
pub use reader::parse_event;
pub use transform::accelerate;
pub use transform::get_duration;
pub use transform::limit_idle_time;
pub use writer::Writer;
