//! LZ4 block and frame codecs, with optional dictionaries.
//!
//! [`BlockCodec`] makes raw LZ4 blocks, [`FrameCodec`] makes LZ4 frames. The
//! compression itself is liblz4's; what stands around it is proved: which
//! inputs are accepted, where a frame ends, when a dictionary fits a frame, and
//! that what was compressed decompresses to what it was.

pub mod block;
pub mod bound;
pub mod engine;
pub mod error;
pub mod format;
pub mod frame;
pub mod laws;
pub mod layout;

pub use block::BlockCodec;
pub use bound::{block_stream_size, compress_bound};
pub use error::Error;
pub use frame::{decompress_frame, frame_header_dict_id, DictBound, FrameCodec};
pub use layout::LZ4_FRAME_MAGIC;
