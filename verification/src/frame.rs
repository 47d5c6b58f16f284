//! The decoded-frame model and the media-source capability, with the mock
//! backend used to exercise the pipeline without a real decoder.

use vstd::prelude::*;

verus! {

/// Errors of the decode path.
#[derive(Debug, Clone, Copy, PartialEq, Eq, Structural)]
pub enum MediaError {
    /// The requested time cannot be decoded (out of range, corrupt source).
    /// Surfaced to exactly the requesting caller.
    Decode,
    /// No usable backend exists for the source; fatal to constructing it.
    UnsupportedFormat,
    /// The actor serving the request exited before answering.
    ActorTerminated,
}

/// The payload of a decoded frame: exactly one variant is populated. The
/// CPU buffer is exclusively owned by the frame; the other variants carry
/// handles to resources owned by the underlying platform subsystem, whose
/// lifetime the frame does not control.
#[derive(Debug)]
pub enum FrameData {
    /// CPU-resident pixel buffer (software decode fallback).
    Cpu(Vec<u8>),
    /// Operating-system buffer-sharing descriptor (a DMA file descriptor).
    DmaBuf(i32),
    /// Platform graphics-API resource handle.
    Dx12Handle(isize),
    /// Platform media-object reference, carried as an opaque handle value.
    MetalRef(usize),
}

/// The mathematical content of a `FrameData`.
pub enum FrameDataView {
    Cpu(Seq<u8>),
    DmaBuf(i32),
    Dx12Handle(isize),
    MetalRef(usize),
}

impl View for FrameData {
    type V = FrameDataView;

    open spec fn view(&self) -> FrameDataView {
        match self {
            FrameData::Cpu(data) => FrameDataView::Cpu(data@),
            FrameData::DmaBuf(fd) => FrameDataView::DmaBuf(*fd),
            FrameData::Dx12Handle(h) => FrameDataView::Dx12Handle(*h),
            FrameData::MetalRef(h) => FrameDataView::MetalRef(*h),
        }
    }
}

/// One decoded video frame, created by a media source per request.
#[derive(Debug)]
pub struct VideoFrame {
    pub ptr: FrameData,
    pub timecode: u64,
    pub width: u32,
    pub height: u32,
}

/// The mathematical content of a `VideoFrame`.
pub struct VideoFrameView {
    pub ptr: FrameDataView,
    pub timecode: u64,
    pub width: u32,
    pub height: u32,
}

impl View for VideoFrame {
    type V = VideoFrameView;

    open spec fn view(&self) -> VideoFrameView {
        VideoFrameView {
            ptr: self.ptr@,
            timecode: self.timecode,
            width: self.width,
            height: self.height,
        }
    }
}

/// A capability producing a decoded frame for a requested time.
///
/// Instances are not assumed reentrant: the contract asks for at most one
/// in-flight call per instance, which the decoder actor enforces
/// structurally by serializing every call.
pub trait MediaSource: Sized {
    /// The requests on which the source promises to return a result at all
    /// (its panic-freedom domain). A time that merely cannot be decoded is
    /// inside this domain and is answered with `MediaError::Decode`.
    spec fn valid_request(&self, time: u64) -> bool;

    /// Which results the source may return for a request: a property of the
    /// media the source stands for, stable across calls.
    spec fn frame_spec(&self, time: u64, r: Result<VideoFrame, MediaError>) -> bool;

    fn get_frame_at(&mut self, time: u64) -> (r: Result<VideoFrame, MediaError>)
        requires
            old(self).valid_request(time),
        ensures
            old(self).frame_spec(time, r),
            forall|t: u64| #[trigger]
                final(self).valid_request(t) == old(self).valid_request(t),
            forall|t: u64, res: Result<VideoFrame, MediaError>| #[trigger]
                final(self).frame_spec(t, res) == old(self).frame_spec(t, res),
    ;
}

/// A mock media source: answers every request with a zero-filled CPU frame
/// of its configured size, echoing the requested time as the timecode.
pub struct MockSource {
    pub width: u32,
    pub height: u32,
}

impl MockSource {
    pub fn new(width: u32, height: u32) -> (r: Self)
        ensures
            r.width == width,
            r.height == height,
    {
        Self { width, height }
    }
}

impl MediaSource for MockSource {
    /// The mock computes its buffer size in 32-bit pixel arithmetic, so the
    /// size must fit; overflow would be a programming-contract violation.
    open spec fn valid_request(&self, time: u64) -> bool {
        self.width * self.height * 4 <= u32::MAX
    }

    /// A zero-filled CPU frame of exactly `width * height * 4` bytes, with
    /// the requested time echoed as the timecode. The mock never fails.
    open spec fn frame_spec(&self, time: u64, r: Result<VideoFrame, MediaError>) -> bool {
        match r {
            Ok(f) => {
                &&& f.timecode == time
                &&& f.width == self.width
                &&& f.height == self.height
                &&& match f.ptr@ {
                    FrameDataView::Cpu(data) => data.len() == self.width * self.height * 4
                        && (forall|i: int| 0 <= i < data.len() ==> #[trigger] data[i] == 0),
                    _ => false,
                }
            },
            Err(_) => false,
        }
    }

    fn get_frame_at(&mut self, time: u64) -> (r: Result<VideoFrame, MediaError>) {
        let buffer_size = (self.width * self.height * 4) as usize;
        let mut data: Vec<u8> = Vec::new();
        while data.len() < buffer_size
            invariant
                data@.len() <= buffer_size,
                forall|i: int| 0 <= i < data@.len() ==> #[trigger] data@[i] == 0,
            decreases buffer_size - data@.len(),
        {
            data.push(0u8);
        }
        Ok(VideoFrame { ptr: FrameData::Cpu(data), timecode: time, width: self.width, height: self.height })
    }
}

} // verus!
