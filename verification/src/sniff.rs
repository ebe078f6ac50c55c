//! Extraction by content: an alternative to the fixed track convention.
//!
//! Here a sample counts as video when its bytes look like a length-prefixed
//! NAL unit, whatever track it belongs to. A run that declares a data offset
//! starts there; video samples are rewritten into Annex-B form; the
//! timestamp is the composition offset alone. As with the fixed convention,
//! a sample that does not lie inside the media data fails the call. The two
//! policies classify differently on streams of unusual encoders, so a caller
//! picks one of them and keeps to it.

use crate::annexb::annex_b;
use crate::error::MalformedPayload;
use crate::extract::{run_entries, FragmentScan};
use crate::fragment::{MovieFragment, RunEntry, TrackFragment, TrackFragmentView};
use crate::frame::{DemuxedFrame, FrameView, SegmentView};
use crate::keyframe::is_keyframe;
use crate::nal::{be_u16_at, be_u32_at, read_be_u16, read_be_u32};
use crate::parser::SegmentParser;
use vstd::prelude::*;

verus! {

/// Highest H.264 unit type that is taken for video.
pub const H264_TYPE_LAST: u8 = 24;

/// Whether a sample looks like video: it begins with the length prefix of a
/// non-empty unit that lies inside it, and the unit's header has its
/// forbidden bit clear and, for H.264, a type of at most 24.
pub open spec fn looks_like_video(s: Seq<u8>, hevc: bool) -> bool {
    &&& s.len() >= 8
    &&& 0 < be_u32_at(s, 0) <= s.len() - 4
    &&& if hevc {
        (be_u16_at(s, 4) >> 15) & 1 == 0
    } else {
        (s[4] >> 7) & 1 == 0 && s[4] & 0x1f <= H264_TYPE_LAST
    }
}

/// Size of a sample: what its entry declares, else 0.
pub open spec fn declared_size(e: RunEntry) -> int {
    match e.size {
        Some(n) => n as int,
        None => 0,
    }
}

/// Total declared size of the first `k` entries.
pub open spec fn declared_bytes_before(entries: Seq<RunEntry>, k: int) -> int
    decreases k,
{
    if k <= 0 {
        0
    } else {
        declared_bytes_before(entries, k - 1) + declared_size(entries[k - 1])
    }
}

/// Where the first sample of a track fragment starts: at the data offset of
/// its run where one is declared, else at the cursor.
pub open spec fn run_start(t: TrackFragmentView, cursor: int) -> int {
    match t.runs[0].data_offset {
        Some(offset) => offset as int,
        None => cursor,
    }
}

/// Index of the first sample at or behind `from` that does not lie inside
/// the media data, for a run that starts at `start`; the number of samples
/// where there is none. With a negative start no sample lies inside.
pub open spec fn first_misfit(mdat_len: int, entries: Seq<RunEntry>, start: int, from: int) -> int
    decreases entries.len() - from,
{
    if from >= entries.len() || start < 0 || start + declared_bytes_before(entries, from + 1)
        > mdat_len {
        from
    } else {
        first_misfit(mdat_len, entries, start, from + 1)
    }
}

/// The composition offset as a 32-bit timestamp.
pub open spec fn offset_timestamp(e: RunEntry) -> Option<u32> {
    match e.cts {
        Some(c) => Some((c as int % 0x1_0000_0000) as u32),
        None => None,
    }
}

/// The bytes of sample `k` of a run that starts at `start`.
pub open spec fn sample_bytes(mdat: Seq<u8>, entries: Seq<RunEntry>, start: int, k: int) -> Seq<u8> {
    mdat.subrange(
        start + declared_bytes_before(entries, k),
        start + declared_bytes_before(entries, k + 1),
    )
}

/// The frame of sample `k`: rewritten and classified where it looks like
/// video, copied where it does not.
pub open spec fn sniffed_frame(
    mdat: Seq<u8>,
    entries: Seq<RunEntry>,
    start: int,
    k: int,
    hevc: bool,
) -> FrameView {
    let data = sample_bytes(mdat, entries, start, k);
    if looks_like_video(data, hevc) {
        FrameView {
            data: annex_b(data),
            timestamp: offset_timestamp(entries[k]),
            duration: entries[k].duration,
            is_keyframe: is_keyframe(data, hevc),
        }
    } else {
        FrameView {
            data,
            timestamp: offset_timestamp(entries[k]),
            duration: entries[k].duration,
            is_keyframe: false,
        }
    }
}

/// The frames of the first `m` samples of a run, video and audio apart.
pub open spec fn sniffed_frames(
    mdat: Seq<u8>,
    entries: Seq<RunEntry>,
    start: int,
    m: int,
    hevc: bool,
) -> SegmentView
    decreases m,
{
    if m <= 0 {
        SegmentView::empty()
    } else {
        let before = sniffed_frames(mdat, entries, start, m - 1, hevc);
        let frame = sniffed_frame(mdat, entries, start, m - 1, hevc);
        if looks_like_video(sample_bytes(mdat, entries, start, m - 1), hevc) {
            SegmentView { video: before.video.push(frame), audio: before.audio }
        } else {
            SegmentView { video: before.video, audio: before.audio.push(frame) }
        }
    }
}

/// What one track fragment yields: a frame for every sample and the offset
/// behind the last, or the failure of the first sample that does not lie
/// inside the media data.
pub open spec fn sniffed_track_outcome(
    mdat: Seq<u8>,
    t: TrackFragmentView,
    cursor: int,
    hevc: bool,
) -> Result<FragmentScan, MalformedPayload> {
    let entries = run_entries(t);
    let n = entries.len() as int;
    let start = run_start(t, cursor);
    let k = first_misfit(mdat.len() as int, entries, start, 0);
    if n == 0 {
        Err(MalformedPayload::NoRunEntries)
    } else if k < n {
        Err(
            MalformedPayload::SampleOutOfBounds {
                sample_index: k as usize,
                sample_size: declared_size(entries[k]) as usize,
                mdat_len: mdat.len() as usize,
            },
        )
    } else {
        Ok(
            FragmentScan {
                frames: sniffed_frames(mdat, entries, start, n, hevc),
                cursor: start + declared_bytes_before(entries, n),
            },
        )
    }
}

/// What the first `n` track fragments yield. The cursor begins at 0 and
/// moves on with each track fragment.
pub open spec fn sniffed_prefix(
    mdat: Seq<u8>,
    tracks: Seq<TrackFragmentView>,
    n: int,
    hevc: bool,
) -> Result<FragmentScan, MalformedPayload>
    decreases n,
{
    if n <= 0 {
        Ok(FragmentScan { frames: SegmentView::empty(), cursor: 0 })
    } else {
        match sniffed_prefix(mdat, tracks, n - 1, hevc) {
            Err(e) => Err(e),
            Ok(scan) => match sniffed_track_outcome(mdat, tracks[n - 1], scan.cursor, hevc) {
                Err(e) => Err(e),
                Ok(own) => Ok(
                    FragmentScan { frames: scan.frames.concat(own.frames), cursor: own.cursor },
                ),
            },
        }
    }
}

/// What extraction by content yields for a movie fragment and its media
/// data.
pub open spec fn sniffed_outcome(
    mdat: Seq<u8>,
    tracks: Seq<TrackFragmentView>,
    hevc: bool,
) -> Result<SegmentView, MalformedPayload> {
    match sniffed_prefix(mdat, tracks, tracks.len() as int, hevc) {
        Ok(scan) => Ok(scan.frames),
        Err(e) => Err(e),
    }
}

/// A failure among the first `n` track fragments is the failure of every
/// longer prefix.
pub proof fn lemma_sniffed_failure_stays(
    mdat: Seq<u8>,
    tracks: Seq<TrackFragmentView>,
    n: int,
    m: int,
    hevc: bool,
)
    requires
        n <= m,
        sniffed_prefix(mdat, tracks, n, hevc) is Err,
    ensures
        sniffed_prefix(mdat, tracks, m, hevc) == sniffed_prefix(mdat, tracks, n, hevc),
    decreases m - n,
{
    if n < m {
        lemma_sniffed_failure_stays(mdat, tracks, n, m - 1, hevc);
    }
}

/// `first_misfit` names the first sample that does not lie inside the media
/// data: every sample before it does.
pub proof fn lemma_first_misfit(mdat_len: int, entries: Seq<RunEntry>, start: int, from: int)
    requires
        0 <= from <= entries.len(),
    ensures
        ({
            let k = first_misfit(mdat_len, entries, start, from);
            &&& from <= k <= entries.len()
            &&& forall|j: int|
                from <= j < k ==> 0 <= start && start + #[trigger] declared_bytes_before(
                    entries,
                    j + 1,
                ) <= mdat_len
            &&& k < entries.len() ==> start < 0 || start + declared_bytes_before(entries, k + 1)
                > mdat_len
        }),
    decreases entries.len() - from,
{
    if from >= entries.len() || start < 0 || start + declared_bytes_before(entries, from + 1)
        > mdat_len {
    } else {
        lemma_first_misfit(mdat_len, entries, start, from + 1);
    }
}

/// A sample that does not lie inside the media data makes extraction by
/// content fail: where the track fragments before `i` are extracted and
/// leave the cursor at some offset, and sample `k` of track fragment `i`
/// begins before the media data or ends behind it, no frame is returned.
pub proof fn lemma_sniffed_misfit_is_refused(
    mdat: Seq<u8>,
    tracks: Seq<TrackFragmentView>,
    hevc: bool,
    i: int,
    k: int,
)
    requires
        0 <= i < tracks.len(),
        0 <= k < run_entries(tracks[i]).len(),
        sniffed_prefix(mdat, tracks, i, hevc) is Ok,
        ({
            let start = run_start(tracks[i], sniffed_prefix(mdat, tracks, i, hevc)->Ok_0.cursor);
            start < 0 || start + declared_bytes_before(run_entries(tracks[i]), k + 1) > mdat.len()
        }),
    ensures
        sniffed_outcome(mdat, tracks, hevc) is Err,
{
    let entries = run_entries(tracks[i]);
    let start = run_start(tracks[i], sniffed_prefix(mdat, tracks, i, hevc)->Ok_0.cursor);
    lemma_first_misfit(mdat.len() as int, entries, start, 0);
    let first = first_misfit(mdat.len() as int, entries, start, 0);
    if first > k {
        assert(start + declared_bytes_before(entries, k + 1) <= mdat.len());
    }
    assert(sniffed_prefix(mdat, tracks, i + 1, hevc) is Err);
    lemma_sniffed_failure_stays(mdat, tracks, i + 1, tracks.len() as int, hevc);
}

/// A track fragment without run entries makes extraction by content fail.
pub proof fn lemma_sniffed_empty_run_is_refused(
    mdat: Seq<u8>,
    tracks: Seq<TrackFragmentView>,
    hevc: bool,
    i: int,
)
    requires
        0 <= i < tracks.len(),
        run_entries(tracks[i]).len() == 0,
    ensures
        sniffed_outcome(mdat, tracks, hevc) is Err,
{
    if sniffed_prefix(mdat, tracks, i, hevc) is Ok {
        assert(sniffed_prefix(mdat, tracks, i + 1, hevc) is Err);
        lemma_sniffed_failure_stays(mdat, tracks, i + 1, tracks.len() as int, hevc);
    } else {
        lemma_sniffed_failure_stays(mdat, tracks, i, tracks.len() as int, hevc);
    }
}

impl SegmentParser {
    /// Whether `sample` looks like video.
    pub fn is_video_sample(&self, sample: &[u8]) -> (video: bool)
        ensures
            video == looks_like_video(sample@, self.hevc),
    {
        if sample.len() < 8 {
            return false;
        }
        let nal_size = read_be_u32(sample, 0) as usize;
        if nal_size == 0 || nal_size > sample.len() - 4 {
            return false;
        }
        if self.hevc {
            let header = read_be_u16(sample, 4);
            (header >> 15) & 1 == 0
        } else {
            let header = sample[4];
            (header >> 7) & 1 == 0 && header & 0x1f <= H264_TYPE_LAST
        }
    }

    /// Appends the samples of one track fragment, classified by content.
    fn sniff_track(
        &self,
        mdat: &[u8],
        track: &TrackFragment,
        cursor: usize,
        video: &mut Vec<DemuxedFrame>,
        audio: &mut Vec<DemuxedFrame>,
    ) -> (r: Result<usize, MalformedPayload>)
        requires
            cursor <= mdat@.len(),
        ensures
            match sniffed_track_outcome(mdat@, track@, cursor as int, self.hevc) {
                Ok(own) => {
                    &&& r matches Ok(end) && end == own.cursor
                    &&& own.cursor <= mdat@.len()
                    &&& final(video).deep_view() == old(video).deep_view() + own.frames.video
                    &&& final(audio).deep_view() == old(audio).deep_view() + own.frames.audio
                },
                Err(e) => r == Err::<usize, MalformedPayload>(e),
            },
    {
        if track.runs.len() == 0 {
            return Err(MalformedPayload::NoRunEntries);
        }
        let run = &track.runs[0];
        let n = run.entries.len();
        if n == 0 {
            return Err(MalformedPayload::NoRunEntries);
        }
        let mdat_len = mdat.len();
        let start: usize = match run.data_offset {
            Some(offset) => {
                if offset < 0 {
                    let first_size: u32 = match run.entries[0].size {
                        Some(size) => size,
                        None => 0,
                    };
                    return Err(
                        MalformedPayload::SampleOutOfBounds {
                            sample_index: 0,
                            sample_size: first_size as usize,
                            mdat_len,
                        },
                    );
                }
                offset as usize
            },
            None => cursor,
        };
        let mut offset: usize = start;
        let mut k: usize = 0;
        proof {
            assert(video.deep_view() =~= old(video).deep_view() + Seq::<FrameView>::empty());
            assert(audio.deep_view() =~= old(audio).deep_view() + Seq::<FrameView>::empty());
        }
        while k < n
            invariant
                mdat_len == mdat@.len(),
                n == run.entries@.len(),
                n > 0,
                run_entries(track@) == run.entries@,
                start == run_start(track@, cursor as int),
                start <= mdat_len || start <= i32::MAX,
                k <= n,
                offset == start + declared_bytes_before(run.entries@, k as int),
                k > 0 ==> offset <= mdat_len,
                first_misfit(mdat_len as int, run.entries@, start as int, 0) == first_misfit(
                    mdat_len as int,
                    run.entries@,
                    start as int,
                    k as int,
                ),
                video.deep_view() == old(video).deep_view() + sniffed_frames(
                    mdat@,
                    run.entries@,
                    start as int,
                    k as int,
                    self.hevc,
                ).video,
                audio.deep_view() == old(audio).deep_view() + sniffed_frames(
                    mdat@,
                    run.entries@,
                    start as int,
                    k as int,
                    self.hevc,
                ).audio,
            decreases n - k,
        {
            let entry = run.entries[k];
            let size = match entry.size {
                Some(size) => size,
                None => 0,
            } as usize;
            let timestamp: Option<u32> = match entry.cts {
                Some(cts) => Some(
                    if cts >= 0 {
                        cts as u32
                    } else {
                        (cts as i64 + 0x1_0000_0000) as u32
                    },
                ),
                None => None,
            };
            if offset > mdat_len || size > mdat_len - offset {
                return Err(
                    MalformedPayload::SampleOutOfBounds {
                        sample_index: k,
                        sample_size: size,
                        mdat_len,
                    },
                );
            }
            let data = &mdat[offset..offset + size];
            let ghost video_before = video.deep_view();
            let ghost audio_before = audio.deep_view();
            if self.is_video_sample(data) {
                let frame = DemuxedFrame {
                    data: self.extract_video_nalus(data),
                    timestamp,
                    duration: entry.duration,
                    is_keyframe: self.is_keyframe_sample(data),
                };
                video.push(frame);
                proof {
                    assert(video.deep_view() =~= video_before.push(frame@));
                }
            } else {
                let frame = DemuxedFrame {
                    data: self.extract_aac_frame(data),
                    timestamp,
                    duration: entry.duration,
                    is_keyframe: false,
                };
                audio.push(frame);
                proof {
                    assert(audio.deep_view() =~= audio_before.push(frame@));
                }
            }
            offset += size;
            k += 1;
        }
        Ok(offset)
    }

    /// Appends the samples of one movie fragment to `video_frames` and
    /// `audio_frames`, classified by content.
    ///
    /// Where a track fragment declares no sample, or a sample does not lie
    /// inside `mdat_data`, the call fails and leaves both vectors as they
    /// were.
    pub fn extract_frames_from_mdat(
        &self,
        mdat_data: &[u8],
        moof: &MovieFragment,
        video_frames: &mut Vec<DemuxedFrame>,
        audio_frames: &mut Vec<DemuxedFrame>,
    ) -> (r: Result<(), MalformedPayload>)
        ensures
            match sniffed_outcome(mdat_data@, moof@, self.hevc) {
                Ok(frames) => {
                    &&& r is Ok
                    &&& final(video_frames).deep_view() == old(video_frames).deep_view()
                        + frames.video
                    &&& final(audio_frames).deep_view() == old(audio_frames).deep_view()
                        + frames.audio
                },
                Err(e) => {
                    &&& r == Err::<(), MalformedPayload>(e)
                    &&& *final(video_frames) == *old(video_frames)
                    &&& *final(audio_frames) == *old(audio_frames)
                },
            },
    {
        let mut video: Vec<DemuxedFrame> = Vec::new();
        let mut audio: Vec<DemuxedFrame> = Vec::new();
        let mut cursor: usize = 0;
        let count = moof.tracks.len();
        let mut i: usize = 0;
        proof {
            assert(video.deep_view() =~= Seq::<FrameView>::empty());
            assert(audio.deep_view() =~= Seq::<FrameView>::empty());
        }
        while i < count
            invariant
                count == moof.tracks@.len(),
                count == moof@.len(),
                i <= count,
                cursor <= mdat_data@.len(),
                sniffed_prefix(mdat_data@, moof@, i as int, self.hevc) == Ok::<
                    FragmentScan,
                    MalformedPayload,
                >(
                    FragmentScan {
                        frames: SegmentView {
                            video: video.deep_view(),
                            audio: audio.deep_view(),
                        },
                        cursor: cursor as int,
                    },
                ),
            decreases count - i,
        {
            let track = &moof.tracks[i];
            match self.sniff_track(mdat_data, track, cursor, &mut video, &mut audio) {
                Err(e) => {
                    proof {
                        lemma_sniffed_failure_stays(
                            mdat_data@,
                            moof@,
                            i + 1,
                            count as int,
                            self.hevc,
                        );
                    }
                    return Err(e);
                },
                Ok(end) => {
                    cursor = end;
                },
            }
            i += 1;
        }
        video_frames.append(&mut video);
        audio_frames.append(&mut audio);
        Ok(())
    }
}

} // verus!
