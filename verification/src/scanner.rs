//! Fragment scanning: pairing each movie fragment with its media data.
//!
//! The boxes of a segment are taken one by one. A movie fragment is kept
//! until media data follows, and a later movie fragment takes its place.
//! Media data is extracted against the movie fragment that is kept, which is
//! then dropped; media data without one is skipped, like every other box.

use crate::boxes::{TopLevelBox, TopLevelBoxView};
use crate::error::MalformedPayload;
use crate::extract::{entry_count, fragment_outcome, lemma_fragment_frame_count};
use crate::fragment::{MovieFragment, TrackFragmentView};
use crate::frame::{DemuxedFrame, FrameView, ParsedSegment, SegmentView};
use crate::parser::SegmentParser;
use vstd::prelude::*;

verus! {

/// State of a scan: the movie fragment that awaits its media data, and the
/// frames extracted so far.
pub struct FragmentScanner {
    pub pending: Option<MovieFragment>,
    pub video_frames: Vec<DemuxedFrame>,
    pub audio_frames: Vec<DemuxedFrame>,
}

/// Mathematical content of a [`FragmentScanner`].
pub struct ScanView {
    pub pending: Option<Seq<TrackFragmentView>>,
    pub frames: SegmentView,
}

impl View for FragmentScanner {
    type V = ScanView;

    open spec fn view(&self) -> ScanView {
        ScanView {
            pending: match self.pending {
                Some(moof) => Some(moof@),
                None => None,
            },
            frames: SegmentView {
                video: self.video_frames.deep_view(),
                audio: self.audio_frames.deep_view(),
            },
        }
    }
}

/// The state before the first box: nothing pending, no frames.
pub open spec fn scan_start() -> ScanView {
    ScanView { pending: None, frames: SegmentView::empty() }
}

/// The state after one more box, or the failure of the fragment that the box
/// completes.
pub open spec fn scan_step(state: ScanView, content: TopLevelBoxView, hevc: bool) -> Result<
    ScanView,
    MalformedPayload,
> {
    match content {
        TopLevelBoxView::MovieFragment(tracks) => Ok(
            ScanView { pending: Some(tracks), frames: state.frames },
        ),
        TopLevelBoxView::MediaData(mdat) => match state.pending {
            None => Ok(state),
            Some(tracks) => match fragment_outcome(mdat, tracks, hevc) {
                Ok(frames) => Ok(ScanView { pending: None, frames: state.frames.concat(frames) }),
                Err(e) => Err(e),
            },
        },
        TopLevelBoxView::Other => Ok(state),
    }
}

/// The state after the first `n` of `boxes`; the first failure ends the scan.
pub open spec fn scan_prefix(boxes: Seq<TopLevelBoxView>, n: int, hevc: bool) -> Result<
    ScanView,
    MalformedPayload,
>
    decreases n,
{
    if n <= 0 {
        Ok(scan_start())
    } else {
        match scan_prefix(boxes, n - 1, hevc) {
            Ok(state) => scan_step(state, boxes[n - 1], hevc),
            Err(e) => Err(e),
        }
    }
}

/// What demultiplexing yields for a list of boxes: the frames of all
/// fragments in order, or the failure of the first fragment that fails.
pub open spec fn demux_outcome(boxes: Seq<TopLevelBoxView>, hevc: bool) -> Result<
    SegmentView,
    MalformedPayload,
> {
    match scan_prefix(boxes, boxes.len() as int, hevc) {
        Ok(state) => Ok(state.frames),
        Err(e) => Err(e),
    }
}

/// A failure among the first `n` boxes is the failure of every longer prefix.
pub proof fn lemma_scan_failure_stays(boxes: Seq<TopLevelBoxView>, n: int, m: int, hevc: bool)
    requires
        n <= m,
        scan_prefix(boxes, n, hevc) is Err,
    ensures
        scan_prefix(boxes, m, hevc) == scan_prefix(boxes, n, hevc),
    decreases m - n,
{
    if n < m {
        lemma_scan_failure_stays(boxes, n, m - 1, hevc);
    }
}

/// A fragment that fails makes the whole segment fail with its failure,
/// whatever was extracted before it and whatever follows: where the scan
/// reaches media data with a movie fragment pending, and extraction of that
/// pair fails, demultiplexing yields that failure and no frames.
pub proof fn lemma_failed_fragment_fails_segment(
    boxes: Seq<TopLevelBoxView>,
    j: int,
    hevc: bool,
)
    requires
        0 <= j < boxes.len(),
        boxes[j] is MediaData,
        scan_prefix(boxes, j, hevc) is Ok,
        scan_prefix(boxes, j, hevc)->Ok_0.pending is Some,
        fragment_outcome(
            boxes[j]->MediaData_0,
            scan_prefix(boxes, j, hevc)->Ok_0.pending->Some_0,
            hevc,
        ) is Err,
    ensures
        demux_outcome(boxes, hevc) is Err,
        demux_outcome(boxes, hevc)->Err_0 == fragment_outcome(
            boxes[j]->MediaData_0,
            scan_prefix(boxes, j, hevc)->Ok_0.pending->Some_0,
            hevc,
        )->Err_0,
{
    assert(scan_prefix(boxes, j + 1, hevc) is Err);
    lemma_scan_failure_stays(boxes, j + 1, boxes.len() as int, hevc);
}

/// Frames of earlier fragments stay in front of those of later ones: where
/// the scan succeeds for `m` boxes, it succeeds for every shorter prefix, and
/// what it holds after `n <= m` boxes is the beginning of what it holds after
/// `m`, for video and for audio.
pub proof fn lemma_scan_keeps_order(boxes: Seq<TopLevelBoxView>, n: int, m: int, hevc: bool)
    requires
        0 <= n <= m,
        scan_prefix(boxes, m, hevc) is Ok,
    ensures
        scan_prefix(boxes, n, hevc) is Ok,
        scan_prefix(boxes, n, hevc)->Ok_0.frames.video.is_prefix_of(
            scan_prefix(boxes, m, hevc)->Ok_0.frames.video,
        ),
        scan_prefix(boxes, n, hevc)->Ok_0.frames.audio.is_prefix_of(
            scan_prefix(boxes, m, hevc)->Ok_0.frames.audio,
        ),
    decreases m - n,
{
    if n < m {
        lemma_scan_keeps_order(boxes, n, m - 1, hevc);
    }
}

/// Number of run entries in the fragments that the first `n` boxes complete:
/// for each media data box that finds a movie fragment pending, the entries
/// which that movie fragment declares.
pub open spec fn completed_entry_count(boxes: Seq<TopLevelBoxView>, n: int, hevc: bool) -> int
    decreases n,
{
    if n <= 0 {
        0
    } else {
        completed_entry_count(boxes, n - 1, hevc) + match (
            scan_prefix(boxes, n - 1, hevc),
            boxes[n - 1],
        ) {
            (Ok(state), TopLevelBoxView::MediaData(_)) => match state.pending {
                Some(tracks) => entry_count(tracks, tracks.len() as int),
                None => 0,
            },
            _ => 0,
        }
    }
}

/// A segment that is demultiplexed holds one frame for every run entry of
/// the fragments it completes, video and audio together.
pub proof fn lemma_segment_frame_count(boxes: Seq<TopLevelBoxView>, n: int, hevc: bool)
    requires
        0 <= n,
        scan_prefix(boxes, n, hevc) is Ok,
    ensures
        scan_prefix(boxes, n, hevc)->Ok_0.frames.len() == completed_entry_count(boxes, n, hevc),
    decreases n,
{
    if n > 0 {
        lemma_segment_frame_count(boxes, n - 1, hevc);
        let state = scan_prefix(boxes, n - 1, hevc)->Ok_0;
        match boxes[n - 1] {
            TopLevelBoxView::MediaData(mdat) => {
                if let Some(tracks) = state.pending {
                    lemma_fragment_frame_count(mdat, tracks, hevc);
                }
            },
            _ => {},
        }
    }
}

impl FragmentScanner {
    /// A scanner that has seen no box.
    pub fn new() -> (scanner: Self)
        ensures
            scanner@ == scan_start(),
    {
        let scanner = FragmentScanner {
            pending: None,
            video_frames: Vec::new(),
            audio_frames: Vec::new(),
        };
        proof {
            assert(scanner.video_frames.deep_view() =~= Seq::<FrameView>::empty());
            assert(scanner.audio_frames.deep_view() =~= Seq::<FrameView>::empty());
        }
        scanner
    }

    /// Takes the next box of the segment.
    ///
    /// On failure the fragment that failed is dropped and the frames stay as
    /// they were.
    pub fn push_box(&mut self, parser: &SegmentParser, top: TopLevelBox) -> (r: Result<
        (),
        MalformedPayload,
    >)
        ensures
            match scan_step(old(self)@, top@, parser.hevc) {
                Ok(state) => r is Ok && final(self)@ == state,
                Err(e) => {
                    &&& r == Err::<(), MalformedPayload>(e)
                    &&& final(self)@ == (ScanView { pending: None, frames: old(self)@.frames })
                },
            },
    {
        match top {
            TopLevelBox::MovieFragment(moof) => {
                self.pending = Some(moof);
                Ok(())
            },
            TopLevelBox::MediaData(data) => {
                match self.pending.take() {
                    None => Ok(()),
                    Some(moof) => parser.extract_frames_from_mdat_enhanced(
                        data.as_slice(),
                        &moof,
                        &mut self.video_frames,
                        &mut self.audio_frames,
                    ),
                }
            },
            TopLevelBox::Other => Ok(()),
        }
    }

    /// Ends the scan and hands out the frames. A movie fragment that still
    /// awaits its media data gives none.
    pub fn finish(self) -> (segment: ParsedSegment)
        ensures
            segment@ == self@.frames,
    {
        ParsedSegment { video_frames: self.video_frames, audio_frames: self.audio_frames }
    }
}

} // verus!
