//! A pull-style reader and push-style writer for the Protocol Buffers
//! binary wire format, operating directly over caller-owned byte buffers.
//!
//! The reader walks a byte slice through a cursor and exposes one typed read
//! per protobuf scalar, plus length-delimited sub-message and map reads that
//! temporarily narrow the cursor's end bound. The writer composes typed
//! writes on top of a small backend capability; a bounded in-memory backend
//! is provided, and any streaming sink can supply another.

pub mod errors;
pub mod message;
pub mod reader;
pub mod wire;
pub mod writer;

pub use crate::errors::Error;
pub use crate::message::MessageInfo;
pub use crate::message::MessageRead;
pub use crate::message::MessageWrite;
pub use crate::reader::decode;
pub use crate::reader::BytesReader;
pub use crate::writer::BytesWriter;
pub use crate::writer::Writer;
pub use crate::writer::WriterBackend;
