//! Keyframe detection on length-prefixed H.264 and H.265 samples.

use crate::nal::{be_u16_at, nal_units, nal_units_from, read_be_u16, read_be_u32, NalUnit};
use crate::parser::SegmentParser;
use vstd::prelude::*;

verus! {

/// H.264 type of an IDR slice.
pub const H264_IDR: u8 = 5;

/// H.264 type of a non-IDR slice.
pub const H264_NON_IDR: u8 = 1;

/// Lowest H.265 type of a random-access (IRAP) picture.
pub const H265_IRAP_FIRST: u16 = 16;

/// Highest H.265 type of a random-access (IRAP) picture.
pub const H265_IRAP_LAST: u16 = 21;

/// H.264 type of a unit: the low five bits of its first payload byte.
pub open spec fn h264_nal_type(s: Seq<u8>, u: NalUnit) -> u8 {
    s[u.start] & 0x1f
}

/// Whether the two bytes of an H.265 unit header lie inside the sample.
pub open spec fn has_h265_header(s: Seq<u8>, u: NalUnit) -> bool {
    u.start + 2 <= s.len()
}

/// H.265 type of a unit: six bits of the 16-bit header at its start.
pub open spec fn h265_nal_type(s: Seq<u8>, u: NalUnit) -> u16 {
    (be_u16_at(s, u.start) >> 9) & 0x3f
}

/// Whether a unit marks its sample as a random-access point.
pub open spec fn is_random_access_unit(s: Seq<u8>, u: NalUnit, hevc: bool) -> bool {
    if hevc {
        has_h265_header(s, u) && H265_IRAP_FIRST <= h265_nal_type(s, u) <= H265_IRAP_LAST
    } else {
        h264_nal_type(s, u) == H264_IDR
    }
}

/// Whether one of `units` marks the sample as a random-access point.
pub open spec fn has_random_access_unit(s: Seq<u8>, units: Seq<NalUnit>, hevc: bool) -> bool {
    exists|k: int| 0 <= k < units.len() && #[trigger] is_random_access_unit(s, units[k], hevc)
}

/// A sample is a keyframe when one of its units is a random-access unit.
pub open spec fn is_keyframe(s: Seq<u8>, hevc: bool) -> bool {
    has_random_access_unit(s, nal_units(s), hevc)
}

proof fn lemma_random_access_split(s: Seq<u8>, u: NalUnit, rest: Seq<NalUnit>, hevc: bool)
    ensures
        has_random_access_unit(s, seq![u] + rest, hevc) == (is_random_access_unit(s, u, hevc)
            || has_random_access_unit(s, rest, hevc)),
{
    let all = seq![u] + rest;
    if has_random_access_unit(s, all, hevc) {
        let k = choose|k: int| 0 <= k < all.len() && #[trigger] is_random_access_unit(s, all[k], hevc);
        if k > 0 {
            assert(all[k] == rest[k - 1]);
        }
    }
    if is_random_access_unit(s, u, hevc) {
        assert(all[0] == u);
    }
    if has_random_access_unit(s, rest, hevc) {
        let k = choose|k: int| 0 <= k < rest.len() && #[trigger] is_random_access_unit(s, rest[k], hevc);
        assert(all[k + 1] == rest[k]);
    }
}

impl SegmentParser {
    /// Whether `sample` is a random-access point of the video stream.
    ///
    /// The sample is scanned unit by unit. The scan stops with `true` at the
    /// first random-access unit, and with `false` where the units end.
    pub fn is_keyframe_sample(&self, sample: &[u8]) -> (keyframe: bool)
        ensures
            keyframe == is_keyframe(sample@, self.hevc),
    {
        let len = sample.len();
        let mut offset: usize = 0;
        while len - offset >= 4
            invariant
                len == sample@.len(),
                offset <= len,
                is_keyframe(sample@, self.hevc) == has_random_access_unit(
                    sample@,
                    nal_units_from(sample@, offset as int, true),
                    self.hevc,
                ),
            decreases len - offset,
        {
            let nal_size = read_be_u32(sample, offset) as usize;
            let start = offset + 4;
            if nal_size == 0 || nal_size > len - start {
                return false;
            }
            proof {
                lemma_random_access_split(
                    sample@,
                    NalUnit { start: start as int, len: nal_size as int },
                    nal_units_from(sample@, start + nal_size, true),
                    self.hevc,
                );
            }
            if self.hevc {
                if start + 1 < len {
                    let header = read_be_u16(sample, start);
                    let nal_type = (header >> 9) & 0x3f;
                    if H265_IRAP_FIRST <= nal_type && nal_type <= H265_IRAP_LAST {
                        return true;
                    }
                }
            } else {
                let nal_type = sample[start] & 0x1f;
                if nal_type == H264_IDR {
                    return true;
                }
            }
            offset = start + nal_size;
        }
        false
    }
}

/// H.264: a sample that holds a unit of type 5 is a keyframe.
pub proof fn lemma_h264_idr_is_keyframe(s: Seq<u8>, k: int)
    requires
        0 <= k < nal_units(s).len(),
        h264_nal_type(s, nal_units(s)[k]) == H264_IDR,
    ensures
        is_keyframe(s, false),
{
    assert(is_random_access_unit(s, nal_units(s)[k], false));
}

/// H.264: a sample whose units are all of type 1 is not a keyframe.
pub proof fn lemma_h264_slices_only_is_not_keyframe(s: Seq<u8>)
    requires
        forall|k: int| 0 <= k < nal_units(s).len() ==> h264_nal_type(s, #[trigger] nal_units(s)[k]) == H264_NON_IDR,
    ensures
        !is_keyframe(s, false),
{
}

/// H.265: a sample that holds a unit whose header type is in `16..=21` is a
/// keyframe.
pub proof fn lemma_h265_irap_is_keyframe(s: Seq<u8>, k: int)
    requires
        0 <= k < nal_units(s).len(),
        has_h265_header(s, nal_units(s)[k]),
        H265_IRAP_FIRST <= h265_nal_type(s, nal_units(s)[k]) <= H265_IRAP_LAST,
    ensures
        is_keyframe(s, true),
{
    assert(is_random_access_unit(s, nal_units(s)[k], true));
}

/// A sample too short to hold a unit (fewer than five bytes) is not a
/// keyframe.
pub proof fn lemma_short_sample_is_not_keyframe(s: Seq<u8>, hevc: bool)
    requires
        s.len() < 5,
    ensures
        nal_units(s).len() == 0,
        !is_keyframe(s, hevc),
{
}

} // verus!
