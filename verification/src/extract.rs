//! Sample extraction: from one movie fragment and its media data to frames.
//!
//! The samples of a fragment are packed into the media data without gaps, in
//! the order in which the track fragments declare them. The track with
//! identifier [`VIDEO_TRACK_ID`] carries video; every other track carries
//! audio. Of each track fragment the first sample run is honoured.

use crate::error::MalformedPayload;
use crate::fragment::{MovieFragment, RunEntry, TrackFragment, TrackFragmentView};
use crate::frame::{DemuxedFrame, FrameView, SegmentView};
use crate::keyframe::{is_keyframe, lemma_short_sample_is_not_keyframe};
use crate::parser::SegmentParser;
use vstd::prelude::*;
use vstd::slice::slice_to_vec;

verus! {

/// Identifier of the track that carries video.
pub const VIDEO_TRACK_ID: u32 = 1;

/// Whether a track fragment belongs to the video track.
pub open spec fn is_video_track(t: TrackFragmentView) -> bool {
    t.track_id == VIDEO_TRACK_ID
}

/// The entries of the run that is honoured: those of the first run, none
/// where the track fragment has no run.
pub open spec fn run_entries(t: TrackFragmentView) -> Seq<RunEntry> {
    if t.runs.len() > 0 {
        t.runs[0].entries
    } else {
        Seq::empty()
    }
}

/// Size of a sample: what its entry declares, else the track fragment's
/// default, else 0.
pub open spec fn sample_size(t: TrackFragmentView, e: RunEntry) -> int {
    match e.size {
        Some(n) => n as int,
        None => match t.default_sample_size {
            Some(n) => n as int,
            None => 0,
        },
    }
}

/// Total size of the first `k` samples of a track fragment.
pub open spec fn bytes_before(t: TrackFragmentView, k: int) -> int
    decreases k,
{
    if k <= 0 {
        0
    } else {
        bytes_before(t, k - 1) + sample_size(t, run_entries(t)[k - 1])
    }
}

/// Decode time of sample `k`: the base decode time (0 where none is
/// declared) plus the durations declared for the samples before it.
pub open spec fn decode_time(t: TrackFragmentView, k: int) -> int
    decreases k,
{
    if k <= 0 {
        match t.base_decode_time {
            Some(base) => base as int,
            None => 0,
        }
    } else {
        decode_time(t, k - 1) + match run_entries(t)[k - 1].duration {
            Some(d) => d as int,
            None => 0,
        }
    }
}

/// Timestamp of sample `k`: its decode time plus its composition offset,
/// reduced to 32 bits.
pub open spec fn sample_timestamp(t: TrackFragmentView, k: int) -> u32 {
    let offset = match run_entries(t)[k].cts {
        Some(c) => c as int,
        None => 0,
    };
    ((decode_time(t, k) + offset) % 0x1_0000_0000) as u32
}

/// The frame of sample `k` of a track fragment whose first sample starts at
/// `cursor`.
pub open spec fn sample_frame(
    mdat: Seq<u8>,
    t: TrackFragmentView,
    cursor: int,
    k: int,
    hevc: bool,
) -> FrameView {
    let data = mdat.subrange(cursor + bytes_before(t, k), cursor + bytes_before(t, k + 1));
    FrameView {
        data,
        timestamp: Some(sample_timestamp(t, k)),
        duration: run_entries(t)[k].duration,
        is_keyframe: is_video_track(t) && is_keyframe(data, hevc),
    }
}

/// Index of the first sample at or behind `from` whose byte range ends behind
/// the media data; the number of samples where there is none.
pub open spec fn first_overrun(mdat_len: int, t: TrackFragmentView, cursor: int, from: int) -> int
    decreases run_entries(t).len() - from,
{
    if from >= run_entries(t).len() || cursor + bytes_before(t, from + 1) > mdat_len {
        from
    } else {
        first_overrun(mdat_len, t, cursor, from + 1)
    }
}

/// The samples of one track fragment.
pub struct TrackSamples {
    /// One frame per run entry, in the order of the entries.
    pub frames: Seq<FrameView>,
    /// Offset just behind the last sample.
    pub end: int,
}

/// What extraction yields for one track fragment whose first sample starts
/// at `cursor`.
pub open spec fn track_outcome(
    mdat: Seq<u8>,
    t: TrackFragmentView,
    cursor: int,
    hevc: bool,
) -> Result<TrackSamples, MalformedPayload> {
    let n = run_entries(t).len() as int;
    let k = first_overrun(mdat.len() as int, t, cursor, 0);
    if n == 0 {
        Err(MalformedPayload::NoRunEntries)
    } else if k < n {
        Err(
            MalformedPayload::SampleOutOfBounds {
                sample_index: k as usize,
                sample_size: sample_size(t, run_entries(t)[k]) as usize,
                mdat_len: mdat.len() as usize,
            },
        )
    } else {
        Ok(
            TrackSamples {
                frames: Seq::new(n as nat, |j: int| sample_frame(mdat, t, cursor, j, hevc)),
                end: cursor + bytes_before(t, n),
            },
        )
    }
}

/// Frames and cursor after some of a fragment's track fragments.
pub struct FragmentScan {
    pub frames: SegmentView,
    /// Offset at which the next track fragment's first sample starts.
    pub cursor: int,
}

/// What extraction yields for the first `n` track fragments: the first
/// track fragment begins at offset 0, each later one where the one before
/// it ended, and the first failure ends the extraction.
pub open spec fn fragment_prefix(
    mdat: Seq<u8>,
    tracks: Seq<TrackFragmentView>,
    n: int,
    hevc: bool,
) -> Result<FragmentScan, MalformedPayload>
    decreases n,
{
    if n <= 0 {
        Ok(FragmentScan { frames: SegmentView::empty(), cursor: 0 })
    } else {
        match fragment_prefix(mdat, tracks, n - 1, hevc) {
            Err(e) => Err(e),
            Ok(scan) => match track_outcome(mdat, tracks[n - 1], scan.cursor, hevc) {
                Err(e) => Err(e),
                Ok(samples) => Ok(
                    FragmentScan {
                        frames: if is_video_track(tracks[n - 1]) {
                            SegmentView {
                                video: scan.frames.video + samples.frames,
                                audio: scan.frames.audio,
                            }
                        } else {
                            SegmentView {
                                video: scan.frames.video,
                                audio: scan.frames.audio + samples.frames,
                            }
                        },
                        cursor: samples.end,
                    },
                ),
            },
        }
    }
}

/// What extraction yields for a movie fragment and its media data.
pub open spec fn fragment_outcome(
    mdat: Seq<u8>,
    tracks: Seq<TrackFragmentView>,
    hevc: bool,
) -> Result<SegmentView, MalformedPayload> {
    match fragment_prefix(mdat, tracks, tracks.len() as int, hevc) {
        Ok(scan) => Ok(scan.frames),
        Err(e) => Err(e),
    }
}

/// Sizes are not negative, so the samples of a track fragment lie one behind
/// the other.
pub proof fn lemma_bytes_before_monotonic(t: TrackFragmentView, i: int, j: int)
    requires
        i <= j,
    ensures
        0 <= bytes_before(t, i) <= bytes_before(t, j),
    decreases j - i, j,
{
    if i < j {
        lemma_bytes_before_monotonic(t, i, j - 1);
    } else if i > 0 {
        lemma_bytes_before_monotonic(t, i - 1, j - 1);
    }
}

/// `first_overrun` names the first sample that does not fit: every sample
/// before it does.
pub proof fn lemma_first_overrun(mdat_len: int, t: TrackFragmentView, cursor: int, from: int)
    requires
        0 <= from <= run_entries(t).len(),
    ensures
        ({
            let k = first_overrun(mdat_len, t, cursor, from);
            &&& from <= k <= run_entries(t).len()
            &&& forall|j: int| from <= j < k ==> cursor + #[trigger] bytes_before(t, j + 1) <= mdat_len
            &&& k < run_entries(t).len() ==> cursor + bytes_before(t, k + 1) > mdat_len
        }),
    decreases run_entries(t).len() - from,
{
    if from >= run_entries(t).len() || cursor + bytes_before(t, from + 1) > mdat_len {
    } else {
        lemma_first_overrun(mdat_len, t, cursor, from + 1);
    }
}

/// A failure among the first `n` track fragments is the failure of every
/// longer prefix.
pub proof fn lemma_fragment_failure_stays(
    mdat: Seq<u8>,
    tracks: Seq<TrackFragmentView>,
    n: int,
    m: int,
    hevc: bool,
)
    requires
        n <= m,
        fragment_prefix(mdat, tracks, n, hevc) is Err,
    ensures
        fragment_prefix(mdat, tracks, m, hevc) == fragment_prefix(mdat, tracks, n, hevc),
    decreases m - n,
{
    if n < m {
        lemma_fragment_failure_stays(mdat, tracks, n, m - 1, hevc);
    }
}

/// Number of run entries that the first `n` track fragments declare in the
/// runs that are honoured.
pub open spec fn entry_count(tracks: Seq<TrackFragmentView>, n: int) -> int
    decreases n,
{
    if n <= 0 {
        0
    } else {
        entry_count(tracks, n - 1) + run_entries(tracks[n - 1]).len()
    }
}

/// Number of run entries that the first `n` track fragments declare for
/// video (`video`) or for audio (`!video`).
pub open spec fn entry_count_of_kind(tracks: Seq<TrackFragmentView>, n: int, video: bool) -> int
    decreases n,
{
    if n <= 0 {
        0
    } else if is_video_track(tracks[n - 1]) == video {
        entry_count_of_kind(tracks, n - 1, video) + run_entries(tracks[n - 1]).len()
    } else {
        entry_count_of_kind(tracks, n - 1, video)
    }
}

/// Offset at which the first sample of track fragment `n` starts: the total
/// size of the samples of the track fragments before it.
pub open spec fn track_start(tracks: Seq<TrackFragmentView>, n: int) -> int
    decreases n,
{
    if n <= 0 {
        0
    } else {
        track_start(tracks, n - 1) + bytes_before(
            tracks[n - 1],
            run_entries(tracks[n - 1]).len() as int,
        )
    }
}

/// Where extraction succeeds for `m` track fragments, it succeeds for every
/// shorter prefix.
pub proof fn lemma_fragment_success_is_hereditary(
    mdat: Seq<u8>,
    tracks: Seq<TrackFragmentView>,
    n: int,
    m: int,
    hevc: bool,
)
    requires
        n <= m,
        fragment_prefix(mdat, tracks, m, hevc) is Ok,
    ensures
        fragment_prefix(mdat, tracks, n, hevc) is Ok,
{
    if fragment_prefix(mdat, tracks, n, hevc) is Err {
        lemma_fragment_failure_stays(mdat, tracks, n, m, hevc);
    }
}

/// After `n` track fragments the cursor stands behind their samples, and
/// each sequence holds one frame per entry declared for its kind.
pub proof fn lemma_prefix_layout(mdat: Seq<u8>, tracks: Seq<TrackFragmentView>, n: int, hevc: bool)
    requires
        0 <= n,
        fragment_prefix(mdat, tracks, n, hevc) is Ok,
    ensures
        ({
            let scan = fragment_prefix(mdat, tracks, n, hevc)->Ok_0;
            &&& scan.cursor == track_start(tracks, n)
            &&& scan.frames.video.len() == entry_count_of_kind(tracks, n, true)
            &&& scan.frames.audio.len() == entry_count_of_kind(tracks, n, false)
            &&& scan.frames.len() == entry_count(tracks, n)
        }),
    decreases n,
{
    if n > 0 {
        lemma_prefix_layout(mdat, tracks, n - 1, hevc);
    }
}

/// After `n` track fragments, the frame of entry `k` of track fragment `i`
/// stands in the sequence of its kind behind the frames of all earlier
/// entries of that kind, and is the frame of that sample.
pub proof fn lemma_prefix_frame(
    mdat: Seq<u8>,
    tracks: Seq<TrackFragmentView>,
    n: int,
    hevc: bool,
    i: int,
    k: int,
)
    requires
        0 <= i < n,
        0 <= k < run_entries(tracks[i]).len(),
        fragment_prefix(mdat, tracks, n, hevc) is Ok,
    ensures
        ({
            let scan = fragment_prefix(mdat, tracks, n, hevc)->Ok_0;
            let video = is_video_track(tracks[i]);
            let own = if video {
                scan.frames.video
            } else {
                scan.frames.audio
            };
            let position = entry_count_of_kind(tracks, i, video) + k;
            &&& 0 <= position < own.len()
            &&& own[position] == sample_frame(mdat, tracks[i], track_start(tracks, i), k, hevc)
        }),
    decreases n,
{
    lemma_prefix_layout(mdat, tracks, n, hevc);
    lemma_prefix_layout(mdat, tracks, n - 1, hevc);
    lemma_entry_count_of_kind_monotonic(tracks, i, n - 1, is_video_track(tracks[i]));
    if i < n - 1 {
        lemma_prefix_frame(mdat, tracks, n - 1, hevc, i, k);
    }
}

/// The count of entries of one kind does not fall as track fragments are
/// added.
pub proof fn lemma_entry_count_of_kind_monotonic(
    tracks: Seq<TrackFragmentView>,
    i: int,
    j: int,
    video: bool,
)
    requires
        i <= j,
    ensures
        0 <= entry_count_of_kind(tracks, i, video) <= entry_count_of_kind(tracks, j, video),
    decreases j - i, j,
{
    if i < j {
        lemma_entry_count_of_kind_monotonic(tracks, i, j - 1, video);
    } else if i > 0 {
        lemma_entry_count_of_kind_monotonic(tracks, i - 1, j - 1, video);
    }
}

/// Every run entry of a fragment that is extracted gives exactly one frame:
/// video and audio frames together are as many as the entries declared.
pub proof fn lemma_fragment_frame_count(mdat: Seq<u8>, tracks: Seq<TrackFragmentView>, hevc: bool)
    requires
        fragment_outcome(mdat, tracks, hevc) is Ok,
    ensures
        fragment_outcome(mdat, tracks, hevc)->Ok_0.len() == entry_count(
            tracks,
            tracks.len() as int,
        ),
{
    lemma_prefix_layout(mdat, tracks, tracks.len() as int, hevc);
}

/// Frames keep the order of their declaration. The frame of entry `k` of
/// track fragment `i` stands in the sequence of its kind (video or audio) at
/// the number of entries that earlier track fragments declare for that kind,
/// plus `k`; it holds the bytes, timing and keyframe flag of that sample.
/// Video frames are counted and placed without regard to audio frames, and
/// audio frames without regard to video frames.
pub proof fn lemma_fragment_frame_order(
    mdat: Seq<u8>,
    tracks: Seq<TrackFragmentView>,
    hevc: bool,
    i: int,
    k: int,
)
    requires
        fragment_outcome(mdat, tracks, hevc) is Ok,
        0 <= i < tracks.len(),
        0 <= k < run_entries(tracks[i]).len(),
    ensures
        ({
            let frames = fragment_outcome(mdat, tracks, hevc)->Ok_0;
            let video = is_video_track(tracks[i]);
            let own = if video {
                frames.video
            } else {
                frames.audio
            };
            let position = entry_count_of_kind(tracks, i, video) + k;
            &&& 0 <= position < own.len()
            &&& own[position] == sample_frame(mdat, tracks[i], track_start(tracks, i), k, hevc)
        }),
{
    lemma_prefix_frame(mdat, tracks, tracks.len() as int, hevc, i, k);
}

/// A sample whose byte range ends behind the media data makes extraction of
/// the whole fragment fail, whatever the track fragments before it hold.
pub proof fn lemma_overrun_is_refused(
    mdat: Seq<u8>,
    tracks: Seq<TrackFragmentView>,
    hevc: bool,
    i: int,
    k: int,
)
    requires
        0 <= i < tracks.len(),
        0 <= k < run_entries(tracks[i]).len(),
        track_start(tracks, i) + bytes_before(tracks[i], k + 1) > mdat.len(),
    ensures
        fragment_outcome(mdat, tracks, hevc) is Err,
{
    if fragment_outcome(mdat, tracks, hevc) is Ok {
        lemma_fragment_success_is_hereditary(mdat, tracks, i + 1, tracks.len() as int, hevc);
        lemma_fragment_success_is_hereditary(mdat, tracks, i, tracks.len() as int, hevc);
        lemma_prefix_layout(mdat, tracks, i, hevc);
        lemma_first_overrun(mdat.len() as int, tracks[i], track_start(tracks, i), 0);
    }
}

/// A track fragment without run entries makes extraction of the whole
/// fragment fail.
pub proof fn lemma_empty_run_is_refused(
    mdat: Seq<u8>,
    tracks: Seq<TrackFragmentView>,
    hevc: bool,
    i: int,
)
    requires
        0 <= i < tracks.len(),
        run_entries(tracks[i]).len() == 0,
    ensures
        fragment_outcome(mdat, tracks, hevc) is Err,
{
    if fragment_outcome(mdat, tracks, hevc) is Ok {
        lemma_fragment_success_is_hereditary(mdat, tracks, i + 1, tracks.len() as int, hevc);
    }
}

/// Extraction succeeds exactly when every track fragment declares an entry
/// and every sample lies inside the media data.
pub proof fn lemma_fragment_success(mdat: Seq<u8>, tracks: Seq<TrackFragmentView>, hevc: bool)
    ensures
        fragment_outcome(mdat, tracks, hevc) is Ok <==> forall|i: int|
            0 <= i < tracks.len() ==> {
                &&& run_entries(#[trigger] tracks[i]).len() > 0
                &&& track_start(tracks, i + 1) <= mdat.len()
            },
{
    let n = tracks.len() as int;
    if fragment_outcome(mdat, tracks, hevc) is Ok {
        assert forall|i: int| 0 <= i < n implies {
            &&& run_entries(#[trigger] tracks[i]).len() > 0
            &&& track_start(tracks, i + 1) <= mdat.len()
        } by {
            lemma_fragment_success_is_hereditary(mdat, tracks, i + 1, n, hevc);
            lemma_fragment_success_is_hereditary(mdat, tracks, i, n, hevc);
            lemma_prefix_layout(mdat, tracks, i, hevc);
            lemma_prefix_layout(mdat, tracks, i + 1, hevc);
            lemma_first_overrun(mdat.len() as int, tracks[i], track_start(tracks, i), 0);
            let count = run_entries(tracks[i]).len() as int;
            assert(track_start(tracks, i) + bytes_before(tracks[i], (count - 1) + 1)
                <= mdat.len());
        }
    }
    if forall|i: int|
        0 <= i < tracks.len() ==> {
            &&& run_entries(#[trigger] tracks[i]).len() > 0
            &&& track_start(tracks, i + 1) <= mdat.len()
        } {
        lemma_all_fit_succeeds(mdat, tracks, n, hevc);
    }
}

proof fn lemma_all_fit_succeeds(mdat: Seq<u8>, tracks: Seq<TrackFragmentView>, n: int, hevc: bool)
    requires
        0 <= n <= tracks.len(),
        forall|i: int|
            0 <= i < tracks.len() ==> {
                &&& run_entries(#[trigger] tracks[i]).len() > 0
                &&& track_start(tracks, i + 1) <= mdat.len()
            },
    ensures
        fragment_prefix(mdat, tracks, n, hevc) is Ok,
    decreases n,
{
    if n > 0 {
        lemma_all_fit_succeeds(mdat, tracks, n - 1, hevc);
        lemma_prefix_layout(mdat, tracks, n - 1, hevc);
        let t = tracks[n - 1];
        let cursor = track_start(tracks, n - 1);
        let count = run_entries(t).len() as int;
        lemma_first_overrun(mdat.len() as int, t, cursor, 0);
        let k = first_overrun(mdat.len() as int, t, cursor, 0);
        if k < count {
            lemma_bytes_before_monotonic(t, k + 1, count);
        }
    }
}

proof fn lemma_low_bits(a: int)
    ensures
        (a % 0x1_0000_0000_0000_0000) % 0x1_0000_0000 == a % 0x1_0000_0000,
{
    let q = a / 0x1_0000_0000_0000_0000;
    let r = a % 0x1_0000_0000_0000_0000;
    vstd::arithmetic::div_mod::lemma_mod_multiples_vanish(q * 0x1_0000_0000, r, 0x1_0000_0000);
}

proof fn lemma_wrapped_sum(a: int, time: u64, delta: int, sum: u64)
    requires
        time == a % 0x1_0000_0000_0000_0000,
        sum == time + delta || sum == time + delta - 0x1_0000_0000_0000_0000 || sum == time + delta
            + 0x1_0000_0000_0000_0000,
    ensures
        sum == (a + delta) % 0x1_0000_0000_0000_0000,
{
    let m = 0x1_0000_0000_0000_0000int;
    let q = a / m;
    if sum == time + delta {
        vstd::arithmetic::div_mod::lemma_fundamental_div_mod_converse(a + delta, m, q, sum as int);
    } else if sum == time + delta - m {
        assert(a + delta == (q + 1) * m + sum) by (nonlinear_arith)
            requires
                a == q * m + time,
                sum == time + delta - m,
        ;
        vstd::arithmetic::div_mod::lemma_fundamental_div_mod_converse(a + delta, m, q + 1, sum as int);
    } else {
        assert(a + delta == (q - 1) * m + sum) by (nonlinear_arith)
            requires
                a == q * m + time,
                sum == time + delta + m,
        ;
        vstd::arithmetic::div_mod::lemma_fundamental_div_mod_converse(a + delta, m, q - 1, sum as int);
    }
}

impl SegmentParser {
    /// Appends to `frames` the samples of one track fragment whose first
    /// sample starts at `cursor`, and returns the offset behind the last.
    fn extract_track(
        &self,
        mdat: &[u8],
        track: &TrackFragment,
        cursor: usize,
        frames: &mut Vec<DemuxedFrame>,
    ) -> (r: Result<usize, MalformedPayload>)
        requires
            cursor <= mdat@.len(),
        ensures
            match track_outcome(mdat@, track@, cursor as int, self.hevc) {
                Ok(samples) => {
                    &&& r matches Ok(end) && end == samples.end
                    &&& samples.end <= mdat@.len()
                    &&& final(frames).deep_view() == old(frames).deep_view() + samples.frames
                },
                Err(e) => r == Err::<usize, MalformedPayload>(e),
            },
    {
        if track.runs.len() == 0 {
            return Err(MalformedPayload::NoRunEntries);
        }
        let run = &track.runs[0];
        let n = run.entries.len();
        if n == 0 {
            return Err(MalformedPayload::NoRunEntries);
        }
        let is_video = track.track_id == VIDEO_TRACK_ID;
        let default_size: u32 = match track.default_sample_size {
            Some(size) => size,
            None => 0,
        };
        let mdat_len = mdat.len();
        let mut offset = cursor;
        let mut time: u64 = match track.base_decode_time {
            Some(base) => base,
            None => 0,
        };
        let mut k: usize = 0;
        while k < n
            invariant
                mdat_len == mdat@.len(),
                n == run.entries@.len(),
                run_entries(track@) == run.entries@,
                is_video == is_video_track(track@),
                default_size == match track.default_sample_size {
                    Some(size) => size,
                    None => 0,
                },
                k <= n,
                offset == cursor + bytes_before(track@, k as int),
                offset <= mdat_len,
                time == decode_time(track@, k as int) % 0x1_0000_0000_0000_0000,
                first_overrun(mdat_len as int, track@, cursor as int, 0) == first_overrun(
                    mdat_len as int,
                    track@,
                    cursor as int,
                    k as int,
                ),
                frames.deep_view() == old(frames).deep_view() + Seq::new(
                    k as nat,
                    |j: int| sample_frame(mdat@, track@, cursor as int, j, self.hevc),
                ),
            decreases n - k,
        {
            let entry = run.entries[k];
            let size = match entry.size {
                Some(size) => size,
                None => default_size,
            } as usize;
            let shifted: u64 = match entry.cts {
                Some(cts) => time.wrapping_add_signed(cts as i64),
                None => time,
            };
            let timestamp: u32 = #[verifier::truncate] (shifted as u32);
            if size > mdat_len - offset {
                return Err(
                    MalformedPayload::SampleOutOfBounds {
                        sample_index: k,
                        sample_size: size,
                        mdat_len,
                    },
                );
            }
            let data = &mdat[offset..offset + size];
            let is_keyframe = if is_video && data.len() >= 5 {
                self.is_keyframe_sample(data)
            } else {
                false
            };
            let frame = DemuxedFrame {
                data: slice_to_vec(data),
                timestamp: Some(timestamp),
                duration: entry.duration,
                is_keyframe,
            };
            proof {
                let ghost_offset = match entry.cts {
                    Some(c) => c as int,
                    None => 0,
                };
                lemma_wrapped_sum(decode_time(track@, k as int), time, ghost_offset, shifted);
                lemma_low_bits(decode_time(track@, k as int) + ghost_offset);
                assert(shifted as u32 == shifted % 0x1_0000_0000) by (bit_vector);
                if data@.len() < 5 {
                    lemma_short_sample_is_not_keyframe(data@, self.hevc);
                }
            }
            let ghost before = frames.deep_view();
            frames.push(frame);
            proof {
                assert(frames.deep_view() =~= before.push(frame@));
                let step = match entry.duration {
                    Some(d) => d as int,
                    None => 0,
                };
                let next: u64 = match entry.duration {
                    Some(d) => time.wrapping_add(d as u64),
                    None => time,
                };
                lemma_wrapped_sum(decode_time(track@, k as int), time, step, next);
            }
            offset += size;
            if let Some(duration) = entry.duration {
                time = time.wrapping_add(duration as u64);
            }
            k += 1;
        }
        Ok(offset)
    }

    /// Appends the samples of one movie fragment to `video_frames` and
    /// `audio_frames`.
    ///
    /// Track fragments are taken in declaration order. Where one of them
    /// declares no sample, or a sample does not fit into `mdat_data`, the
    /// call fails and leaves both vectors as they were.
    pub fn extract_frames_from_mdat_enhanced(
        &self,
        mdat_data: &[u8],
        moof: &MovieFragment,
        video_frames: &mut Vec<DemuxedFrame>,
        audio_frames: &mut Vec<DemuxedFrame>,
    ) -> (r: Result<(), MalformedPayload>)
        ensures
            match fragment_outcome(mdat_data@, moof@, self.hevc) {
                Ok(frames) => {
                    &&& r is Ok
                    &&& final(video_frames).deep_view() == old(video_frames).deep_view()
                        + frames.video
                    &&& final(audio_frames).deep_view() == old(audio_frames).deep_view()
                        + frames.audio
                },
                Err(e) => {
                    &&& r == Err::<(), MalformedPayload>(e)
                    &&& *final(video_frames) == *old(video_frames)
                    &&& *final(audio_frames) == *old(audio_frames)
                },
            },
    {
        let mut video: Vec<DemuxedFrame> = Vec::new();
        let mut audio: Vec<DemuxedFrame> = Vec::new();
        let mut cursor: usize = 0;
        let count = moof.tracks.len();
        let mut i: usize = 0;
        proof {
            assert(video.deep_view() =~= Seq::<FrameView>::empty());
            assert(audio.deep_view() =~= Seq::<FrameView>::empty());
        }
        while i < count
            invariant
                count == moof.tracks@.len(),
                count == moof@.len(),
                i <= count,
                cursor <= mdat_data@.len(),
                fragment_prefix(mdat_data@, moof@, i as int, self.hevc) == Ok::<
                    FragmentScan,
                    MalformedPayload,
                >(
                    FragmentScan {
                        frames: SegmentView {
                            video: video.deep_view(),
                            audio: audio.deep_view(),
                        },
                        cursor: cursor as int,
                    },
                ),
            decreases count - i,
        {
            let track = &moof.tracks[i];
            let extracted = if track.track_id == VIDEO_TRACK_ID {
                self.extract_track(mdat_data, track, cursor, &mut video)
            } else {
                self.extract_track(mdat_data, track, cursor, &mut audio)
            };
            match extracted {
                Err(e) => {
                    proof {
                        lemma_fragment_failure_stays(
                            mdat_data@,
                            moof@,
                            i + 1,
                            count as int,
                            self.hevc,
                        );
                    }
                    return Err(e);
                },
                Ok(end) => {
                    cursor = end;
                },
            }
            i += 1;
        }
        video_frames.append(&mut video);
        audio_frames.append(&mut audio);
        Ok(())
    }
}

} // verus!
