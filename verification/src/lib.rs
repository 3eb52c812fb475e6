//! Reading and writing of ISO base media files (MP4): the box codec, the
//! movie tree, and the per-track sample locator, over in-memory bytes.
//!
//! Every box type offers `get_size`, `read_box` and `write_box`; their
//! contracts are stated over the wire image `bytes` and the parser `read`
//! of the type's view.

pub mod codec;
pub mod error;
pub mod mp4box;
pub mod reader;
pub mod track;

pub use crate::error::{Error, ErrorKind};
pub use crate::mp4box::{BoxType, FourCC, HEADER_EXT_SIZE, HEADER_SIZE};
pub use crate::reader::{Mp4Reader, Mp4Sample};
pub use crate::track::{MediaType, Mp4Track, SampleInfo, TrackType};
