//! A codec for a line-oriented media playlist format: an attribute-list
//! tokenizer, decoders and encoders for tags, the rule that gives the oldest
//! format version a segment needs, and the sequencer that numbers segments and
//! carries keys and byte ranges from one to the next.
pub mod attribute;
pub mod i_frame_stream_inf;
pub mod duration;
pub mod key_and_date_range;
pub mod laws;
pub mod map;
pub mod media_segment;
pub mod segment_tags;
pub mod sequencer;
pub mod text;
pub mod types;

pub use i_frame_stream_inf::ExtXIFrameStreamInf;
pub use map::ExtXMap;
pub use media_segment::{MediaSegment, MediaSegmentBuilder};
pub use segment_tags::{
    DecryptionKey, EncryptionMethod, ExtInf, ExtXByteRange, ExtXDateRange, ExtXKey,
    ExtXProgramDateTime,
};
pub use sequencer::resolve_segments;
pub use types::{ByteRange, DecimalResolution, Error, HdcpLevel, ProtocolVersion, QuotedString};
