use fmp4_demuxer::error::MalformedPayload;
use fmp4_demuxer::fragment::{MovieFragment, RunEntry, SampleRun, TrackFragment};
use fmp4_demuxer::frame::DemuxedFrame;
use fmp4_demuxer::parser::SegmentParser;

fn entry(size: Option<u32>, duration: Option<u32>, cts: Option<i32>) -> RunEntry {
    RunEntry { size, duration, cts }
}

fn track(track_id: u32, data_offset: Option<i32>, entries: Vec<RunEntry>) -> TrackFragment {
    TrackFragment {
        track_id,
        default_sample_size: None,
        base_decode_time: None,
        runs: vec![SampleRun { data_offset, entries }],
    }
}

fn sniff(
    hevc: bool,
    mdat: &[u8],
    tracks: Vec<TrackFragment>,
) -> Result<(Vec<DemuxedFrame>, Vec<DemuxedFrame>), MalformedPayload> {
    let mut video = Vec::new();
    let mut audio = Vec::new();
    SegmentParser::new(hevc).extract_frames_from_mdat(
        mdat,
        &MovieFragment { tracks },
        &mut video,
        &mut audio,
    )?;
    Ok((video, audio))
}

#[test]
fn annex_b_replaces_the_length_prefix() {
    let parser = SegmentParser::new(false);
    assert_eq!(
        parser.extract_video_nalus(&[0, 0, 0, 2, 0x65, 0xaa]),
        vec![0, 0, 0, 1, 0x65, 0xaa]
    );
}

#[test]
fn annex_b_of_several_units() {
    let parser = SegmentParser::new(true);
    let sample = [0u8, 0, 0, 1, 0x67, 0, 0, 0, 3, 0x65, 1, 2, 0, 0, 0, 2, 0x41, 9];
    assert_eq!(
        parser.extract_video_nalus(&sample),
        vec![0, 0, 0, 1, 0x67, 0, 0, 0, 1, 0x65, 1, 2, 0, 0, 0, 1, 0x41, 9]
    );
}

#[test]
fn annex_b_keeps_empty_units() {
    let parser = SegmentParser::new(false);
    let sample = [0u8, 0, 0, 0, 0, 0, 0, 1, 0x41];
    assert_eq!(parser.extract_video_nalus(&sample), vec![0, 0, 0, 1, 0, 0, 0, 1, 0x41]);
    assert_eq!(parser.extract_video_nalus(&[0, 0, 0, 0]), vec![0, 0, 0, 1]);
}

#[test]
fn annex_b_drops_what_is_cut_short() {
    let parser = SegmentParser::new(false);
    assert_eq!(parser.extract_video_nalus(&[]), Vec::<u8>::new());
    assert_eq!(parser.extract_video_nalus(&[0, 0, 1]), Vec::<u8>::new());
    assert_eq!(parser.extract_video_nalus(&[0, 0, 0, 5, 1, 2, 3, 4]), Vec::<u8>::new());
    assert_eq!(
        parser.extract_video_nalus(&[0, 0, 0, 1, 0x65, 0, 0, 0, 9, 1, 2]),
        vec![0, 0, 0, 1, 0x65]
    );
    assert_eq!(
        parser.extract_video_nalus(&[0, 0, 0, 1, 0x65, 0xff, 0xff]),
        vec![0, 0, 0, 1, 0x65]
    );
}

#[test]
fn aac_frame_is_a_copy() {
    let parser = SegmentParser::new(false);
    assert_eq!(parser.extract_aac_frame(&[0, 0, 0, 2, 0x65, 1]), vec![0, 0, 0, 2, 0x65, 1]);
    assert_eq!(parser.extract_aac_frame(&[]), Vec::<u8>::new());
}

#[test]
fn video_sample_needs_eight_bytes() {
    let parser = SegmentParser::new(false);
    assert!(!parser.is_video_sample(&[]));
    assert!(!parser.is_video_sample(&[0, 0, 0, 3, 0x65, 1, 2]));
    assert!(parser.is_video_sample(&[0, 0, 0, 4, 0x65, 1, 2, 3]));
}

#[test]
fn video_sample_needs_a_unit_that_lies_inside() {
    let parser = SegmentParser::new(false);
    assert!(!parser.is_video_sample(&[0, 0, 0, 0, 0x65, 1, 2, 3]));
    assert!(!parser.is_video_sample(&[0, 0, 0, 5, 0x65, 1, 2, 3]));
    assert!(!parser.is_video_sample(&[1, 0, 0, 0, 0x65, 1, 2, 3]));
    assert!(parser.is_video_sample(&[0, 0, 0, 1, 0x65, 1, 2, 3]));
}

#[test]
fn h264_header_decides_on_video() {
    let parser = SegmentParser::new(false);
    let with = |header: u8| [0u8, 0, 0, 4, header, 1, 2, 3];
    assert!(parser.is_video_sample(&with(0x00)));
    assert!(parser.is_video_sample(&with(0x18)));
    assert!(parser.is_video_sample(&with(0x78)));
    assert!(!parser.is_video_sample(&with(0x19)));
    assert!(!parser.is_video_sample(&with(0x1f)));
    assert!(!parser.is_video_sample(&with(0x85)));
    assert!(!parser.is_video_sample(&with(0xff)));
}

#[test]
fn h265_header_decides_on_video() {
    let parser = SegmentParser::new(true);
    let with = |header: u8| [0u8, 0, 0, 4, header, 0xff, 2, 3];
    assert!(parser.is_video_sample(&with(0x00)));
    assert!(parser.is_video_sample(&with(0x7f)));
    assert!(!parser.is_video_sample(&with(0x80)));
    assert!(!parser.is_video_sample(&with(0xa6)));
}

#[test]
fn content_decides_between_video_and_audio() {
    let video_sample = [0u8, 0, 0, 4, 0x65, 1, 2, 3];
    let audio_sample = [0xffu8, 0xf1, 0x50, 0x80, 1, 2, 3, 4];
    let mdat: Vec<u8> = video_sample.iter().chain(audio_sample.iter()).copied().collect();
    // Both samples on the audio track of the fixed convention.
    let tracks = vec![track(2, None, vec![entry(Some(8), Some(5), Some(7)), entry(Some(8), None, None)])];
    let (video, audio) = sniff(false, &mdat, tracks).unwrap();
    assert_eq!(
        video,
        vec![DemuxedFrame {
            data: vec![0, 0, 0, 1, 0x65, 1, 2, 3],
            timestamp: Some(7),
            duration: Some(5),
            is_keyframe: true,
        }]
    );
    assert_eq!(
        audio,
        vec![DemuxedFrame {
            data: audio_sample.to_vec(),
            timestamp: None,
            duration: None,
            is_keyframe: false,
        }]
    );
}

#[test]
fn content_video_without_idr_is_not_keyframe() {
    let mdat = [0u8, 0, 0, 4, 0x41, 1, 2, 3];
    let (video, _) = sniff(false, &mdat, vec![track(1, None, vec![entry(Some(8), None, None)])])
        .unwrap();
    assert_eq!(video.len(), 1);
    assert!(!video[0].is_keyframe);
}

#[test]
fn content_timestamp_is_the_composition_offset() {
    let mdat = [0u8; 4];
    let mut t = track(2, None, vec![
        entry(Some(1), Some(100), Some(0)),
        entry(Some(1), Some(100), Some(i32::MAX)),
        entry(Some(1), Some(100), Some(-1)),
        entry(Some(1), Some(100), Some(i32::MIN)),
    ]);
    t.base_decode_time = Some(5000);
    let (_, audio) = sniff(false, &mdat, vec![t]).unwrap();
    let stamps: Vec<Option<u32>> = audio.iter().map(|f| f.timestamp).collect();
    assert_eq!(stamps, vec![Some(0), Some(0x7fff_ffff), Some(0xffff_ffff), Some(0x8000_0000)]);
}

#[test]
fn content_size_ignores_the_default() {
    let mdat = [1u8, 2, 3, 4];
    let mut t = track(2, None, vec![entry(None, None, None), entry(Some(2), None, None)]);
    t.default_sample_size = Some(3);
    let (_, audio) = sniff(false, &mdat, vec![t]).unwrap();
    let data: Vec<Vec<u8>> = audio.iter().map(|f| f.data.clone()).collect();
    assert_eq!(data, vec![vec![], vec![1, 2]]);
}

#[test]
fn content_run_starts_at_its_data_offset() {
    let mdat = [1u8, 2, 3, 4, 5, 6];
    let tracks = vec![
        track(2, Some(3), vec![entry(Some(2), None, None)]),
        track(2, None, vec![entry(Some(1), None, None)]),
        track(2, Some(0), vec![entry(Some(1), None, None)]),
    ];
    let (_, audio) = sniff(false, &mdat, tracks).unwrap();
    let data: Vec<Vec<u8>> = audio.iter().map(|f| f.data.clone()).collect();
    assert_eq!(data, vec![vec![4, 5], vec![6], vec![1]]);
}

#[test]
fn content_sample_that_does_not_fit_fails_the_call() {
    let mdat = [1u8, 2, 3, 4, 5];
    let tracks = vec![
        track(2, None, vec![
            entry(Some(2), None, None),
            entry(Some(9), None, None),
            entry(Some(1), None, None),
        ]),
        track(2, None, vec![entry(Some(3), None, None), entry(Some(1), None, None)]),
    ];
    assert_eq!(
        sniff(false, &mdat, tracks),
        Err(MalformedPayload::SampleOutOfBounds { sample_index: 1, sample_size: 9, mdat_len: 5 })
    );
}

#[test]
fn content_overrun_in_a_later_track_fragment_fails_the_call() {
    let mdat = [1u8, 2, 3, 4, 5];
    let tracks = vec![
        track(2, None, vec![entry(Some(2), None, None)]),
        track(2, None, vec![entry(Some(3), None, None), entry(Some(1), None, None)]),
    ];
    assert_eq!(
        sniff(false, &mdat, tracks),
        Err(MalformedPayload::SampleOutOfBounds { sample_index: 1, sample_size: 1, mdat_len: 5 })
    );
}

#[test]
fn content_failure_leaves_the_output_vectors_as_they_were() {
    let parser = SegmentParser::new(false);
    let old = DemuxedFrame { data: vec![9], timestamp: None, duration: None, is_keyframe: false };
    let mut video = vec![old.clone()];
    let mut audio = vec![old.clone()];
    let moof = MovieFragment {
        tracks: vec![track(2, None, vec![entry(Some(1), None, None), entry(Some(2), None, None)])],
    };
    let r = parser.extract_frames_from_mdat(&[1, 2], &moof, &mut video, &mut audio);
    assert_eq!(
        r,
        Err(MalformedPayload::SampleOutOfBounds { sample_index: 1, sample_size: 2, mdat_len: 2 })
    );
    assert_eq!(video, vec![old.clone()]);
    assert_eq!(audio, vec![old]);
}

#[test]
fn content_offsets_outside_the_media_data_fail_the_call() {
    let mdat = [1u8, 2, 3];
    for offset in [-1, i32::MIN, 4, i32::MAX] {
        let tracks = vec![
            track(2, Some(offset), vec![entry(Some(1), None, None), entry(Some(0), None, None)]),
            track(2, None, vec![entry(Some(1), None, None)]),
        ];
        assert_eq!(
            sniff(false, &mdat, tracks),
            Err(MalformedPayload::SampleOutOfBounds {
                sample_index: 0,
                sample_size: 1,
                mdat_len: 3
            }),
            "offset {}",
            offset
        );
    }
}

#[test]
fn content_empty_sample_outside_the_media_data_fails_the_call() {
    let mdat = [1u8, 2, 3];
    for offset in [-1, 4] {
        let tracks = vec![track(2, Some(offset), vec![entry(None, None, None)])];
        assert_eq!(
            sniff(false, &mdat, tracks),
            Err(MalformedPayload::SampleOutOfBounds {
                sample_index: 0,
                sample_size: 0,
                mdat_len: 3
            })
        );
    }
}

#[test]
fn content_offset_at_the_end_takes_empty_samples_only() {
    let mdat = [1u8, 2, 3];
    let tracks = vec![track(2, Some(3), vec![entry(Some(0), None, None), entry(None, None, None)])];
    let (_, audio) = sniff(false, &mdat, tracks).unwrap();
    assert_eq!(audio.len(), 2);
    assert!(audio.iter().all(|f| f.data.is_empty()));
    let tracks = vec![track(2, Some(3), vec![entry(Some(0), None, None), entry(Some(1), None, None)])];
    assert_eq!(
        sniff(false, &mdat, tracks),
        Err(MalformedPayload::SampleOutOfBounds { sample_index: 1, sample_size: 1, mdat_len: 3 })
    );
}

#[test]
fn content_sample_that_ends_at_the_end_fits() {
    let mdat = [1u8, 2, 3];
    let tracks = vec![track(2, Some(1), vec![entry(Some(2), None, None)])];
    let (_, audio) = sniff(false, &mdat, tracks).unwrap();
    assert_eq!(audio[0].data, vec![2, 3]);
}

#[test]
fn content_empty_run_is_malformed_and_changes_nothing() {
    let parser = SegmentParser::new(false);
    let old = DemuxedFrame { data: vec![9], timestamp: None, duration: None, is_keyframe: false };
    let mut video = vec![old.clone()];
    let mut audio = vec![old.clone()];
    let moof = MovieFragment {
        tracks: vec![track(2, None, vec![entry(Some(1), None, None)]), track(1, None, vec![])],
    };
    let r = parser.extract_frames_from_mdat(&[1, 2], &moof, &mut video, &mut audio);
    assert_eq!(r, Err(MalformedPayload::NoRunEntries));
    assert_eq!(video, vec![old.clone()]);
    assert_eq!(audio, vec![old]);
    let mut t = track(1, None, vec![]);
    t.runs.clear();
    assert_eq!(sniff(false, &[1, 2], vec![t]), Err(MalformedPayload::NoRunEntries));
}

#[test]
fn content_and_convention_differ_on_the_same_fragment() {
    let parser = SegmentParser::new(false);
    let mdat = [0u8, 0, 0, 4, 0x65, 1, 2, 3];
    let moof = MovieFragment { tracks: vec![track(2, None, vec![entry(Some(8), None, None)])] };
    let (mut video, mut audio) = (Vec::new(), Vec::new());
    parser.extract_frames_from_mdat(&mdat, &moof, &mut video, &mut audio).unwrap();
    assert_eq!((video.len(), audio.len()), (1, 0));
    let (mut video, mut audio) = (Vec::new(), Vec::new());
    parser.extract_frames_from_mdat_enhanced(&mdat, &moof, &mut video, &mut audio).unwrap();
    assert_eq!((video.len(), audio.len()), (0, 1));
    assert_eq!(audio[0].data, mdat.to_vec());
}
