//! Demultiplexed samples and the result of parsing one segment.

use vstd::prelude::*;

verus! {

/// One elementary-stream sample.
#[derive(Debug, Clone, PartialEq, Eq)]
pub struct DemuxedFrame {
    /// The sample's bytes, as stored in the media data.
    pub data: Vec<u8>,
    /// Decode time plus composition offset, in the track's time scale,
    /// reduced to 32 bits.
    pub timestamp: Option<u32>,
    /// Duration in the track's time scale, where the run declares one.
    pub duration: Option<u32>,
    /// Whether the sample is a random-access point. Always `false` for audio.
    pub is_keyframe: bool,
}

/// Mathematical content of a [`DemuxedFrame`].
pub struct FrameView {
    pub data: Seq<u8>,
    pub timestamp: Option<u32>,
    pub duration: Option<u32>,
    pub is_keyframe: bool,
}

impl View for DemuxedFrame {
    type V = FrameView;

    open spec fn view(&self) -> FrameView {
        FrameView {
            data: self.data@,
            timestamp: self.timestamp,
            duration: self.duration,
            is_keyframe: self.is_keyframe,
        }
    }
}

impl DeepView for DemuxedFrame {
    type V = FrameView;

    open spec fn deep_view(&self) -> FrameView {
        self@
    }
}

/// The samples of one segment, video and audio apart, each in stream order.
#[derive(Debug, PartialEq, Eq)]
pub struct ParsedSegment {
    pub video_frames: Vec<DemuxedFrame>,
    pub audio_frames: Vec<DemuxedFrame>,
}

/// Mathematical content of a [`ParsedSegment`].
pub struct SegmentView {
    pub video: Seq<FrameView>,
    pub audio: Seq<FrameView>,
}

impl SegmentView {
    /// A segment without samples.
    pub open spec fn empty() -> SegmentView {
        SegmentView { video: Seq::empty(), audio: Seq::empty() }
    }

    /// The samples of `self` followed by those of `later`.
    pub open spec fn concat(self, later: SegmentView) -> SegmentView {
        SegmentView { video: self.video + later.video, audio: self.audio + later.audio }
    }

    /// Number of samples, video and audio together.
    pub open spec fn len(self) -> nat {
        self.video.len() + self.audio.len()
    }
}

impl View for ParsedSegment {
    type V = SegmentView;

    open spec fn view(&self) -> SegmentView {
        SegmentView {
            video: self.video_frames.deep_view(),
            audio: self.audio_frames.deep_view(),
        }
    }
}

} // verus!
