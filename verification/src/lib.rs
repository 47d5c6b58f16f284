//! Editing core of a non-linear media editor: time intervals, clips, tracks
//! with overwrite-on-overlap insertion, timelines, a binary codec for the
//! persisted clip form, a media-source capability with a mock backend, and a
//! serialized decoder-actor core.

mod actor;
mod codec;
mod frame;
mod model;
mod track;

pub use actor::DecoderActor;
pub use actor::MAILBOX_CAPACITY;
pub use codec::chars_dec;
pub use codec::chars_enc;
pub use codec::clip_enc;
pub use codec::decode_clip;
pub use codec::decode_time_range;
pub use codec::encode_clip;
pub use codec::encode_time_range;
pub use codec::le_bytes;
pub use codec::le_val;
pub use codec::lemma_chars_round_trip;
pub use codec::lemma_clip_round_trip;
pub use codec::lemma_time_range_round_trip;
pub use codec::spec_decode_clip;
pub use codec::spec_decode_time_range;
pub use codec::time_range_enc;

pub use frame::FrameData;
pub use frame::FrameDataView;
pub use frame::MediaError;
pub use frame::MediaSource;
pub use frame::MockSource;
pub use frame::VideoFrame;
pub use frame::VideoFrameView;

pub use track::replay_query;
pub use track::Timeline;
pub use track::Track;
pub use model::Clip;
pub use model::ClipView;
pub use model::TimeRange;
pub use model::uuid_bytes;
