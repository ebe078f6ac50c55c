//! The parts of a movie fragment that sample extraction reads.

use vstd::prelude::*;

verus! {

/// What a sample run declares for one sample. A field that the run leaves
/// out is `None`.
#[derive(Clone, Copy, Debug, PartialEq, Eq)]
pub struct RunEntry {
    /// Size of the sample in bytes.
    pub size: Option<u32>,
    /// Duration of the sample, in the track's time scale.
    pub duration: Option<u32>,
    /// Composition-time offset of the sample, in the track's time scale.
    pub cts: Option<i32>,
}

/// A sample run (`trun`): one entry per sample, in storage order.
#[derive(Clone, Debug, PartialEq, Eq)]
pub struct SampleRun {
    /// Start of the run's first sample, where the run declares one.
    pub data_offset: Option<i32>,
    pub entries: Vec<RunEntry>,
}

/// A track fragment (`traf`): header fields, base decode time and sample runs.
#[derive(Clone, Debug, PartialEq, Eq)]
pub struct TrackFragment {
    pub track_id: u32,
    pub default_sample_size: Option<u32>,
    /// Decode time of the fragment's first sample (`tfdt`).
    pub base_decode_time: Option<u64>,
    pub runs: Vec<SampleRun>,
}

/// A movie fragment (`moof`): its track fragments in declaration order.
#[derive(Clone, Debug, PartialEq, Eq)]
pub struct MovieFragment {
    pub tracks: Vec<TrackFragment>,
}

/// Mathematical content of a [`SampleRun`].
pub struct SampleRunView {
    pub data_offset: Option<i32>,
    pub entries: Seq<RunEntry>,
}

/// Mathematical content of a [`TrackFragment`].
pub struct TrackFragmentView {
    pub track_id: u32,
    pub default_sample_size: Option<u32>,
    pub base_decode_time: Option<u64>,
    pub runs: Seq<SampleRunView>,
}

impl View for SampleRun {
    type V = SampleRunView;

    open spec fn view(&self) -> SampleRunView {
        SampleRunView { data_offset: self.data_offset, entries: self.entries@ }
    }
}

impl DeepView for SampleRun {
    type V = SampleRunView;

    open spec fn deep_view(&self) -> SampleRunView {
        self@
    }
}

impl View for TrackFragment {
    type V = TrackFragmentView;

    open spec fn view(&self) -> TrackFragmentView {
        TrackFragmentView {
            track_id: self.track_id,
            default_sample_size: self.default_sample_size,
            base_decode_time: self.base_decode_time,
            runs: self.runs.deep_view(),
        }
    }
}

impl DeepView for TrackFragment {
    type V = TrackFragmentView;

    open spec fn deep_view(&self) -> TrackFragmentView {
        self@
    }
}

impl View for MovieFragment {
    type V = Seq<TrackFragmentView>;

    open spec fn view(&self) -> Seq<TrackFragmentView> {
        self.tracks.deep_view()
    }
}

} // verus!
