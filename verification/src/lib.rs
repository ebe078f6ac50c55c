//! Demultiplexer for fragmented-MP4 media segments.
//!
//! A segment is a run of ISO-BMFF boxes in which each movie fragment (`moof`)
//! is followed by the media data (`mdat`) it describes. The crate recovers the
//! elementary video and audio samples of such a segment, with their timing and,
//! for video, a keyframe flag read from the H.264 or H.265 bitstream.

pub mod annexb;
pub mod boxes;
pub mod error;
pub mod extract;
pub mod fragment;
pub mod frame;
pub mod guard;
pub mod keyframe;
pub mod nal;
pub mod parser;
pub mod probe;
pub mod scanner;
pub mod sniff;

pub use error::{MalformedPayload, SegmentParseError};
pub use frame::{DemuxedFrame, ParsedSegment};
pub use parser::SegmentParser;
