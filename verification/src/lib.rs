//! Structural scanner for box-based (atom-based) container files.
//!
//! The input is a byte stream made of nested, length-prefixed records
//! ("boxes"): an 8-byte header (big-endian 32-bit size, 4-byte type tag)
//! followed by either opaque data, a typed payload, or a sequence of
//! sub-boxes. The walker visits every box inside a boundary, reports its
//! framing, decodes three known table payloads, tolerates boxes whose
//! declared size overruns their enclosing boundary, and returns how many
//! boxes it accepted.

pub mod boxes;
pub mod cursor;
pub mod decode;
pub mod events;
pub mod walker;

pub use boxes::BoxHeader;
pub use cursor::ByteCursor;
pub use cursor::ParseError;
pub use cursor::MAX_STREAM_LEN;
