use fmp4_demuxer::boxes::{next_box, TopLevelBox};
use fmp4_demuxer::error::MalformedPayload;
use fmp4_demuxer::fragment::{MovieFragment, RunEntry, SampleRun, TrackFragment};
use fmp4_demuxer::frame::{DemuxedFrame, ParsedSegment};
use fmp4_demuxer::parser::SegmentParser;
use mp4_atom::{Encode, Ftyp, Mdat, Mfhd, Moof, Tfdt, Tfhd, Traf, Trun, TrunEntry};

fn run_entry(size: Option<u32>, duration: Option<u32>, cts: Option<i32>) -> TrunEntry {
    TrunEntry { duration, size, flags: None, cts }
}

fn traf(track_id: u32, entries: Vec<TrunEntry>) -> Traf {
    Traf {
        tfhd: Tfhd { track_id, ..Default::default() },
        trun: vec![Trun { data_offset: None, entries }],
        ..Default::default()
    }
}

fn moof_bytes(traf: Vec<Traf>) -> Vec<u8> {
    let mut out = Vec::new();
    Moof { mfhd: Mfhd { sequence_number: 1 }, traf }.encode(&mut out).unwrap();
    out
}

fn mdat_bytes(data: &[u8]) -> Vec<u8> {
    let mut out = Vec::new();
    Mdat { data: data.to_vec() }.encode(&mut out).unwrap();
    out
}

fn ftyp_bytes() -> Vec<u8> {
    let mut out = Vec::new();
    Ftyp { major_brand: b"iso6".into(), minor_version: 512, compatible_brands: vec![b"mp41".into()] }
        .encode(&mut out)
        .unwrap();
    out
}

fn join(parts: &[Vec<u8>]) -> Vec<u8> {
    parts.iter().flat_map(|p| p.iter().copied()).collect()
}

/// A `moof` with one track fragment: the given track, default sample size 0,
/// one run entry of the given size.
fn handwritten_moof(track_id: u8, size: u8) -> Vec<u8> {
    let mut out = vec![0, 0, 0, 72];
    out.extend_from_slice(b"moof");
    out.extend_from_slice(&[0, 0, 0, 16]);
    out.extend_from_slice(b"mfhd");
    out.extend_from_slice(&[0, 0, 0, 0, 0, 0, 0, 1]);
    out.extend_from_slice(&[0, 0, 0, 48]);
    out.extend_from_slice(b"traf");
    out.extend_from_slice(&[0, 0, 0, 20]);
    out.extend_from_slice(b"tfhd");
    out.extend_from_slice(&[0, 0, 0, 0x10, 0, 0, 0, track_id, 0, 0, 0, 0]);
    out.extend_from_slice(&[0, 0, 0, 20]);
    out.extend_from_slice(b"trun");
    out.extend_from_slice(&[0, 0, 2, 0, 0, 0, 0, 1, 0, 0, 0, size]);
    out
}

fn handwritten_mdat(data: &[u8]) -> Vec<u8> {
    let mut out = ((data.len() + 8) as u32).to_be_bytes().to_vec();
    out.extend_from_slice(b"mdat");
    out.extend_from_slice(data);
    out
}

#[test]
fn fragment_with_idr_sample_gives_one_video_keyframe() {
    let sample = [0u8, 0, 0, 2, 0x65, 0, 0, 0, 0, 0];
    let payload = join(&[handwritten_moof(1, 10), handwritten_mdat(&sample)]);
    let segment = SegmentParser::new(false).parse_segment(&payload).unwrap();
    assert_eq!(
        segment,
        ParsedSegment {
            video_frames: vec![DemuxedFrame {
                data: sample.to_vec(),
                timestamp: Some(0),
                duration: None,
                is_keyframe: true,
            }],
            audio_frames: vec![],
        }
    );
}

#[test]
fn fragment_with_non_idr_sample_gives_one_video_frame() {
    let sample = [0u8, 0, 0, 2, 0x61, 0, 0, 0, 0, 0];
    let payload = join(&[handwritten_moof(1, 10), handwritten_mdat(&sample)]);
    let segment = SegmentParser::new(false).parse_segment(&payload).unwrap();
    assert_eq!(segment.video_frames.len(), 1);
    assert!(segment.audio_frames.is_empty());
    assert!(!segment.video_frames[0].is_keyframe);
    assert_eq!(segment.video_frames[0].data, sample.to_vec());
}

#[test]
fn audio_fragment_gives_one_unmodified_audio_frame() {
    let sample = [0xde, 0xad, 0xbe, 0xef, 0x65, 0x01];
    let payload = join(&[handwritten_moof(2, 6), handwritten_mdat(&sample)]);
    let segment = SegmentParser::new(false).parse_segment(&payload).unwrap();
    assert!(segment.video_frames.is_empty());
    assert_eq!(
        segment.audio_frames,
        vec![DemuxedFrame {
            data: sample.to_vec(),
            timestamp: Some(0),
            duration: None,
            is_keyframe: false,
        }]
    );
}

#[test]
fn second_moof_without_mdat_between_replaces_the_first() {
    let payload = join(&[
        moof_bytes(vec![traf(1, vec![run_entry(Some(1), None, None)])]),
        moof_bytes(vec![traf(2, vec![run_entry(Some(3), None, None)])]),
        mdat_bytes(&[1, 2, 3]),
    ]);
    let segment = SegmentParser::new(false).parse_segment(&payload).unwrap();
    assert!(segment.video_frames.is_empty());
    assert_eq!(segment.audio_frames.len(), 1);
    assert_eq!(segment.audio_frames[0].data, vec![1, 2, 3]);
}

#[test]
fn mdat_before_any_moof_gives_no_frames() {
    let payload = mdat_bytes(&[1, 2, 3, 4]);
    let segment = SegmentParser::new(false).parse_segment(&payload).unwrap();
    assert!(segment.video_frames.is_empty());
    assert!(segment.audio_frames.is_empty());
}

#[test]
fn orphan_mdat_then_fragment() {
    let payload = join(&[
        mdat_bytes(&[9, 9]),
        moof_bytes(vec![traf(1, vec![run_entry(Some(2), None, None)])]),
        mdat_bytes(&[1, 2]),
        mdat_bytes(&[3, 4]),
    ]);
    let segment = SegmentParser::new(false).parse_segment(&payload).unwrap();
    assert_eq!(segment.video_frames.len(), 1);
    assert_eq!(segment.video_frames[0].data, vec![1, 2]);
    assert!(segment.audio_frames.is_empty());
}

#[test]
fn empty_payload_gives_no_frames() {
    let segment = SegmentParser::new(true).parse_segment(&[]).unwrap();
    assert!(segment.video_frames.is_empty());
    assert!(segment.audio_frames.is_empty());
}

#[test]
fn other_top_level_boxes_are_ignored() {
    let payload = join(&[
        ftyp_bytes(),
        moof_bytes(vec![traf(1, vec![run_entry(Some(2), None, None)])]),
        ftyp_bytes(),
        mdat_bytes(&[1, 2]),
        ftyp_bytes(),
    ]);
    let segment = SegmentParser::new(false).parse_segment(&payload).unwrap();
    assert_eq!(segment.video_frames.len(), 1);
    assert_eq!(segment.video_frames[0].data, vec![1, 2]);
}

#[test]
fn trailing_bytes_that_do_not_decode_end_the_scan() {
    let fragment = join(&[
        moof_bytes(vec![traf(2, vec![run_entry(Some(2), None, None)])]),
        mdat_bytes(&[1, 2]),
    ]);
    for tail in [vec![0xffu8], vec![0, 0, 0], vec![0, 0, 0, 99, b'm', b'd', b'a', b't', 1]] {
        let payload = join(&[fragment.clone(), tail]);
        let segment = SegmentParser::new(false).parse_segment(&payload).unwrap();
        assert_eq!(segment.audio_frames.len(), 1);
        assert!(segment.video_frames.is_empty());
    }
}

#[test]
fn boxes_behind_a_broken_box_are_not_read() {
    let payload = join(&[
        vec![0, 0, 0, 4, b'f', b'r', b'e', b'e'],
        moof_bytes(vec![traf(2, vec![run_entry(Some(2), None, None)])]),
        mdat_bytes(&[1, 2]),
    ]);
    let segment = SegmentParser::new(false).parse_segment(&payload).unwrap();
    assert!(segment.video_frames.is_empty());
    assert!(segment.audio_frames.is_empty());
}

#[test]
fn two_tracks_share_one_mdat() {
    let video = [0u8, 0, 0, 1, 0x65];
    let audio = [7u8, 8, 9];
    let payload = join(&[
        moof_bytes(vec![
            Traf {
                tfhd: Tfhd { track_id: 1, ..Default::default() },
                tfdt: Some(Tfdt { base_media_decode_time: 9000 }),
                trun: vec![Trun {
                    data_offset: None,
                    entries: vec![run_entry(Some(5), Some(3000), Some(1500))],
                }],
                ..Default::default()
            },
            Traf {
                tfhd: Tfhd { track_id: 2, default_sample_size: Some(3), ..Default::default() },
                tfdt: Some(Tfdt { base_media_decode_time: 48000 }),
                trun: vec![Trun { data_offset: None, entries: vec![run_entry(None, Some(1024), None)] }],
                ..Default::default()
            },
        ]),
        mdat_bytes(&join(&[video.to_vec(), audio.to_vec()])),
    ]);
    let segment = SegmentParser::new(false).parse_segment(&payload).unwrap();
    assert_eq!(
        segment,
        ParsedSegment {
            video_frames: vec![DemuxedFrame {
                data: video.to_vec(),
                timestamp: Some(10500),
                duration: Some(3000),
                is_keyframe: true,
            }],
            audio_frames: vec![DemuxedFrame {
                data: audio.to_vec(),
                timestamp: Some(48000),
                duration: Some(1024),
                is_keyframe: false,
            }],
        }
    );
}

#[test]
fn several_fragments_keep_their_order() {
    let mut parts = Vec::new();
    for i in 0u8..4 {
        parts.push(moof_bytes(vec![
            traf(1, vec![run_entry(Some(1), None, None), run_entry(Some(1), None, None)]),
            traf(2, vec![run_entry(Some(1), None, None)]),
        ]));
        parts.push(mdat_bytes(&[10 * i, 10 * i + 1, 10 * i + 2]));
    }
    let segment = SegmentParser::new(false).parse_segment(&join(&parts)).unwrap();
    let video: Vec<u8> = segment.video_frames.iter().map(|f| f.data[0]).collect();
    let audio: Vec<u8> = segment.audio_frames.iter().map(|f| f.data[0]).collect();
    assert_eq!(video, vec![0, 1, 10, 11, 20, 21, 30, 31]);
    assert_eq!(audio, vec![2, 12, 22, 32]);
    assert_eq!(segment.video_frames.len() + segment.audio_frames.len(), 4 * 3);
}

#[test]
fn sample_behind_mdat_fails_the_whole_call() {
    let payload = join(&[
        moof_bytes(vec![traf(1, vec![run_entry(Some(2), None, None)])]),
        mdat_bytes(&[1, 2]),
        moof_bytes(vec![traf(1, vec![run_entry(Some(2), None, None), run_entry(Some(3), None, None)])]),
        mdat_bytes(&[1, 2, 3, 4]),
    ]);
    assert_eq!(
        SegmentParser::new(false).parse_segment(&payload),
        Err(MalformedPayload::SampleOutOfBounds { sample_index: 1, sample_size: 3, mdat_len: 4 })
    );
}

#[test]
fn empty_run_fails_the_whole_call() {
    let payload = join(&[
        moof_bytes(vec![traf(2, vec![run_entry(Some(1), None, None)])]),
        mdat_bytes(&[1]),
        moof_bytes(vec![traf(1, vec![])]),
        mdat_bytes(&[1, 2, 3, 4]),
    ]);
    assert_eq!(
        SegmentParser::new(false).parse_segment(&payload),
        Err(MalformedPayload::NoRunEntries)
    );
}

#[test]
fn track_fragment_without_trun_fails_the_whole_call() {
    let payload = join(&[
        moof_bytes(vec![Traf { tfhd: Tfhd { track_id: 1, ..Default::default() }, ..Default::default() }]),
        mdat_bytes(&[1, 2, 3, 4]),
    ]);
    assert_eq!(
        SegmentParser::new(false).parse_segment(&payload),
        Err(MalformedPayload::NoRunEntries)
    );
}

#[test]
fn malformed_fragment_without_mdat_is_no_failure() {
    let payload = moof_bytes(vec![traf(1, vec![])]);
    let segment = SegmentParser::new(false).parse_segment(&payload).unwrap();
    assert!(segment.video_frames.is_empty());
    assert!(segment.audio_frames.is_empty());
}

#[test]
fn parsing_twice_gives_the_same_result() {
    let payload = join(&[
        ftyp_bytes(),
        moof_bytes(vec![
            traf(1, vec![run_entry(Some(5), Some(10), Some(-2)), run_entry(Some(5), Some(10), None)]),
            traf(2, vec![run_entry(Some(2), None, None)]),
        ]),
        mdat_bytes(&[0, 0, 0, 1, 0x65, 0, 0, 0, 1, 0x41, 7, 7]),
    ]);
    for hevc in [false, true] {
        let parser = SegmentParser::new(hevc);
        let first = parser.parse_segment(&payload);
        let second = parser.parse_segment(&payload);
        assert!(first.is_ok());
        assert_eq!(first, second);
        assert_eq!(first, SegmentParser::new(hevc).parse_segment(&payload.clone()));
    }
    let broken = join(&[moof_bytes(vec![traf(1, vec![run_entry(Some(9), None, None)])]), mdat_bytes(&[1])]);
    let parser = SegmentParser::new(false);
    assert_eq!(parser.parse_segment(&broken), parser.parse_segment(&broken));
    assert!(parser.parse_segment(&broken).is_err());
}

#[test]
fn next_box_decodes_a_movie_fragment() {
    let payload = join(&[handwritten_moof(1, 10), handwritten_mdat(&[1, 2, 3])]);
    let (top, next) = next_box(&payload, 0).unwrap();
    assert_eq!(next, 72);
    assert_eq!(
        top,
        TopLevelBox::MovieFragment(MovieFragment {
            tracks: vec![TrackFragment {
                track_id: 1,
                default_sample_size: Some(0),
                base_decode_time: None,
                runs: vec![SampleRun {
                    data_offset: None,
                    entries: vec![RunEntry { size: Some(10), duration: None, cts: None }],
                }],
            }],
        })
    );
    let (top, end) = next_box(&payload, next).unwrap();
    assert_eq!(end, payload.len());
    assert_eq!(top, TopLevelBox::MediaData(vec![1, 2, 3]));
    assert_eq!(next_box(&payload, end), None);
}

#[test]
fn next_box_copies_every_field_it_reads() {
    let payload = moof_bytes(vec![
        Traf {
            tfhd: Tfhd { track_id: 7, default_sample_size: Some(33), ..Default::default() },
            tfdt: Some(Tfdt { base_media_decode_time: 1 << 40 }),
            trun: vec![
                Trun {
                    data_offset: Some(-4),
                    entries: vec![
                        run_entry(Some(1), Some(2), Some(-3)),
                        run_entry(Some(4), Some(5), Some(6)),
                    ],
                },
                Trun { data_offset: None, entries: vec![run_entry(None, None, None)] },
            ],
            ..Default::default()
        },
        traf(2, vec![]),
    ]);
    let (top, next) = next_box(&payload, 0).unwrap();
    assert_eq!(next, payload.len());
    assert_eq!(
        top,
        TopLevelBox::MovieFragment(MovieFragment {
            tracks: vec![
                TrackFragment {
                    track_id: 7,
                    default_sample_size: Some(33),
                    base_decode_time: Some(1 << 40),
                    runs: vec![
                        SampleRun {
                            data_offset: Some(-4),
                            entries: vec![
                                RunEntry { size: Some(1), duration: Some(2), cts: Some(-3) },
                                RunEntry { size: Some(4), duration: Some(5), cts: Some(6) },
                            ],
                        },
                        SampleRun {
                            data_offset: None,
                            entries: vec![RunEntry { size: None, duration: None, cts: None }],
                        },
                    ],
                },
                TrackFragment {
                    track_id: 2,
                    default_sample_size: None,
                    base_decode_time: None,
                    runs: vec![SampleRun { data_offset: None, entries: vec![] }],
                },
            ],
        })
    );
}

#[test]
fn next_box_reports_other_boxes_and_their_end() {
    let payload = join(&[ftyp_bytes(), mdat_bytes(&[])]);
    let (top, next) = next_box(&payload, 0).unwrap();
    assert_eq!(top, TopLevelBox::Other);
    assert_eq!(next, 20);
    let (top, end) = next_box(&payload, next).unwrap();
    assert_eq!(top, TopLevelBox::MediaData(vec![]));
    assert_eq!(end, 28);
}

#[test]
fn next_box_fails_on_truncated_or_missing_boxes() {
    let payload = mdat_bytes(&[1, 2, 3]);
    assert_eq!(next_box(&payload, payload.len()), None);
    assert_eq!(next_box(&payload[..payload.len() - 1], 0), None);
    assert_eq!(next_box(&payload[..7], 0), None);
    assert_eq!(next_box(&payload, 1), None);
}

#[test]
fn box_that_extends_to_the_end_takes_the_rest() {
    let mut payload = vec![0u8, 0, 0, 0];
    payload.extend_from_slice(b"mdat");
    payload.extend_from_slice(&[5, 6, 7]);
    let (top, next) = next_box(&payload, 0).unwrap();
    assert_eq!(top, TopLevelBox::MediaData(vec![5, 6, 7]));
    assert_eq!(next, payload.len());
}

#[test]
fn crate_root_names_the_main_types() {
    let parser = fmp4_demuxer::SegmentParser::new(false);
    let result: Result<fmp4_demuxer::ParsedSegment, fmp4_demuxer::MalformedPayload> =
        parser.parse_segment(&[]);
    let segment = result.unwrap();
    let frames: Vec<fmp4_demuxer::DemuxedFrame> = segment.video_frames;
    assert!(frames.is_empty());
}
