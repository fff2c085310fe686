//! Decoder for ghost replay files: a fixed 10-byte header followed by a
//! sequence of position-sample records.

pub mod bytes;
pub mod header;
pub mod record;
pub mod stream;

pub use header::{DecodeError, GhostHeader};
pub use record::{read_length_prefixed_string, RunLineV1, RunLineV2};
pub use stream::{decode_all, decode_all_v2, segment_starts, GhostFile, GhostFileV2};
