//! Rewriting length-prefixed video samples into Annex-B form, an optional
//! step behind extraction.

use crate::nal::{nal_units_from, read_be_u32, NalUnit};
use crate::parser::SegmentParser;
use vstd::prelude::*;

verus! {

/// The Annex-B start code.
pub open spec fn start_code() -> Seq<u8> {
    seq![0u8, 0u8, 0u8, 1u8]
}

/// The payloads of `units`, each behind a start code.
pub open spec fn annex_b_of(s: Seq<u8>, units: Seq<NalUnit>) -> Seq<u8>
    decreases units.len(),
{
    if units.len() == 0 {
        Seq::empty()
    } else {
        let last = units.last();
        annex_b_of(s, units.drop_last()) + start_code() + s.subrange(
            last.start,
            last.start + last.len,
        )
    }
}

/// The units that the rewriting takes from a sample: all up to the first
/// that is cut short or overruns the sample, empty ones included.
pub open spec fn annex_b_units(s: Seq<u8>) -> Seq<NalUnit> {
    nal_units_from(s, 0, false)
}

/// A sample in Annex-B form: a start code in place of each length prefix.
pub open spec fn annex_b(s: Seq<u8>) -> Seq<u8> {
    annex_b_of(s, annex_b_units(s))
}

impl SegmentParser {
    /// Rewrites a length-prefixed sample into Annex-B form.
    pub fn extract_video_nalus(&self, sample: &[u8]) -> (out: Vec<u8>)
        ensures
            out@ == annex_b(sample@),
    {
        let len = sample.len();
        let mut result: Vec<u8> = Vec::new();
        let mut offset: usize = 0;
        let ghost all = annex_b_units(sample@);
        let ghost mut visited: Seq<NalUnit> = Seq::empty();
        while len - offset >= 4
            invariant
                len == sample@.len(),
                offset <= len,
                all == annex_b_units(sample@),
                all == visited + nal_units_from(sample@, offset as int, false),
                result@ == annex_b_of(sample@, visited),
            decreases len - offset,
        {
            let nal_size = read_be_u32(sample, offset) as usize;
            let start = offset + 4;
            if nal_size > len - start {
                return result;
            }
            let ghost unit = NalUnit { start: start as int, len: nal_size as int };
            result.push(0x00);
            result.push(0x00);
            result.push(0x00);
            result.push(0x01);
            result.extend_from_slice(&sample[start..start + nal_size]);
            proof {
                assert(visited.push(unit).drop_last() =~= visited);
                visited = visited.push(unit);
            }
            offset = start + nal_size;
        }
        result
    }

    /// The bytes of an audio sample, which are stored as they are played.
    pub fn extract_aac_frame(&self, sample: &[u8]) -> (out: Vec<u8>)
        ensures
            out@ == sample@,
    {
        vstd::slice::slice_to_vec(sample)
    }
}

} // verus!
