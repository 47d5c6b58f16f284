use nle_core::Clip;
use nle_core::DecoderActor;
use nle_core::FrameData;
use nle_core::MediaError;
use nle_core::MediaSource;
use nle_core::MockSource;
use nle_core::TimeRange;
use nle_core::MAILBOX_CAPACITY;
use nle_core::decode_clip;
use nle_core::decode_time_range;
use nle_core::encode_clip;
use nle_core::encode_time_range;
use uuid::Uuid;

#[test]
fn test_mock_decoder_accuracy() {
    let mut source = MockSource::new(1920, 1080);
    let frame = source.get_frame_at(1000).unwrap();

    assert_eq!(frame.width, 1920);
    assert_eq!(frame.height, 1080);
    assert_eq!(frame.timecode, 1000);

    if let FrameData::Cpu(data) = frame.ptr {
        assert_eq!(data.len(), 1920 * 1080 * 4);
    } else {
        panic!("Expected CPU frame from MockSource");
    }
}

#[test]
fn test_mock_frame_is_zero_filled() {
    let mut source = MockSource::new(2, 3);
    let frame = source.get_frame_at(77).unwrap();
    assert_eq!(frame.timecode, 77);
    match frame.ptr {
        FrameData::Cpu(data) => {
            assert_eq!(data.len(), 24);
            assert!(data.iter().all(|b| *b == 0));
        }
        _ => panic!("Expected CPU frame from MockSource"),
    }
}

#[test]
fn test_actor_replies_in_fifo_order() {
    let mut actor = DecoderActor::new(MockSource::new(4, 4));
    let times = [40u64, 10, 30, 20];
    for t in times {
        assert!(actor.try_send(t));
    }
    let replies = actor.drain();
    assert_eq!(replies.len(), times.len());
    for (i, (t, reply)) in replies.iter().enumerate() {
        assert_eq!(*t, times[i]);
        let frame = reply.as_ref().unwrap();
        assert_eq!(frame.timecode, times[i]);
        assert_eq!(frame.width, 4);
        assert_eq!(frame.height, 4);
    }
}

#[test]
fn test_mailbox_capacity_backpressure() {
    let mut actor = DecoderActor::new(MockSource::new(1, 1));
    for t in 0..MAILBOX_CAPACITY as u64 {
        assert!(actor.try_send(t));
    }
    // A full mailbox refuses the offer; the asynchronous caller waits.
    assert!(!actor.try_send(99));
    let replies = actor.drain();
    assert_eq!(replies.len(), MAILBOX_CAPACITY);
    assert_eq!(replies[0].0, 0);
    assert_eq!(replies[MAILBOX_CAPACITY - 1].0, MAILBOX_CAPACITY as u64 - 1);
    // After draining there is room again.
    assert!(actor.try_send(99));
}

#[test]
fn test_terminate_reports_every_pending_request() {
    let mut actor = DecoderActor::new(MockSource::new(1, 1));
    assert!(actor.try_send(5));
    assert!(actor.try_send(6));
    let outcomes = actor.terminate();
    assert_eq!(outcomes.len(), 2);
    assert_eq!(outcomes[0], (5, MediaError::ActorTerminated));
    assert_eq!(outcomes[1], (6, MediaError::ActorTerminated));
}

#[test]
fn test_media_error_variants_are_distinct() {
    assert_ne!(MediaError::Decode, MediaError::UnsupportedFormat);
    assert_ne!(MediaError::Decode, MediaError::ActorTerminated);
    assert_ne!(MediaError::UnsupportedFormat, MediaError::ActorTerminated);
}

#[test]
fn test_time_range_encoding_is_little_endian() {
    let out = encode_time_range(&TimeRange::new(1, 258));
    assert_eq!(
        out,
        vec![1, 0, 0, 0, 0, 0, 0, 0, 2, 1, 0, 0, 0, 0, 0, 0]
    );
    assert_eq!(decode_time_range(&out), Some(TimeRange::new(1, 258)));
}

#[test]
fn test_time_range_decode_rejects_wrong_length() {
    assert_eq!(decode_time_range(&vec![0u8; 15]), None);
    assert_eq!(decode_time_range(&vec![0u8; 17]), None);
    assert_eq!(
        decode_time_range(&vec![0u8; 16]),
        Some(TimeRange::new(0, 0))
    );
}

#[test]
fn test_clip_round_trip_all_fields() {
    let c = Clip::new(
        "clip \u{03b1}\u{20ac}\u{1f3ac}".to_string(),
        Uuid::new_v4(),
        TimeRange::new(123_456_789, 0),
        TimeRange::new(u64::MAX - 7, 7),
        u32::MAX,
        );
    let bytes = encode_clip(&c);
    assert_eq!(bytes.len(), 60 + 4 * c.name.chars().count());
    assert_eq!(decode_clip(&bytes), Some(c));
}

#[test]
fn test_clip_round_trip_empty_name() {
    let c = Clip::new(
        String::new(),
        Uuid::new_v4(),
        TimeRange::new(0, 0),
        TimeRange::new(0, 0),
        0,
    );
    let bytes = encode_clip(&c);
    assert_eq!(bytes.len(), 60);
    assert_eq!(decode_clip(&bytes), Some(c));
}

#[test]
fn test_clip_decode_rejects_bad_input() {
    // Too short for the fixed header.
    assert_eq!(decode_clip(&vec![0u8; 59]), None);

    let c = Clip::new(
        "ab".to_string(),
        Uuid::new_v4(),
        TimeRange::new(1, 2),
        TimeRange::new(3, 4),
        5,
    );
    let good = encode_clip(&c);

    // Ragged name bytes.
    let mut ragged = good.clone();
    ragged.push(0);
    assert_eq!(decode_clip(&ragged), None);

    // Length field out of step with the actual length.
    let mut short = good.clone();
    short.truncate(good.len() - 4);
    assert_eq!(decode_clip(&short), None);

    // A name group holding a surrogate, which is no character.
    let mut surrogate = good.clone();
    let at = good.len() - 4;
    surrogate[at] = 0x00;
    surrogate[at + 1] = 0xd8;
    surrogate[at + 2] = 0x00;
    surrogate[at + 3] = 0x00;
    assert_eq!(decode_clip(&surrogate), None);
}
