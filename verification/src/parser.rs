//! The demultiplexer: from the bytes of a segment to its frames.

use crate::boxes::{next_box, top_level_boxes, TopLevelBoxView};
use crate::error::MalformedPayload;
use crate::frame::{ParsedSegment, SegmentView};
use crate::scanner::{demux_outcome, lemma_scan_failure_stays, scan_prefix, FragmentScanner};
use vstd::prelude::*;

verus! {

/// Demultiplexer for the segments of one stream.
pub struct SegmentParser {
    /// Bitstream of the video track: `true` for H.265, `false` for H.264.
    pub hevc: bool,
}

/// What parsing yields for the bytes of a segment: the frames of its
/// fragments, or the failure of the first fragment that fails.
pub open spec fn parse_outcome(payload: Seq<u8>, hevc: bool) -> Result<
    SegmentView,
    MalformedPayload,
> {
    demux_outcome(top_level_boxes(payload, 0), hevc)
}

/// Whether a result holds exactly what `outcome` names.
pub open spec fn yields(
    r: Result<ParsedSegment, MalformedPayload>,
    outcome: Result<SegmentView, MalformedPayload>,
) -> bool {
    match outcome {
        Ok(frames) => r matches Ok(segment) && segment@ == frames,
        Err(e) => r matches Err(f) && f == e,
    }
}

impl SegmentParser {
    /// A demultiplexer for H.265 video if `hevc`, else for H.264.
    pub fn new(hevc: bool) -> (parser: Self)
        ensures
            parser.hevc == hevc,
    {
        Self { hevc }
    }

    /// Demultiplexes one segment.
    ///
    /// Boxes are decoded from the start of `payload` until one fails to
    /// decode; what lies behind is ignored. Boxes of other kinds than
    /// `moof` and `mdat` are ignored wherever they stand; those of a kind
    /// that no media segment needs, such as `moov`, are stepped over by
    /// their size without a look at their content, at the top and inside a
    /// `moof` (see [`prepared`](crate::guard::prepared)). A box that
    /// declares a size which 32 bits cannot hold ends the scan. The call
    /// fails, and returns no frame, as soon as one fragment cannot be
    /// honoured against its media data.
    pub fn parse_segment(&self, payload: &[u8]) -> (r: Result<ParsedSegment, MalformedPayload>)
        ensures
            yields(r, parse_outcome(payload@, self.hevc)),
    {
        let mut scanner = FragmentScanner::new();
        let mut pos: usize = 0;
        let ghost all = top_level_boxes(payload@, 0);
        let ghost mut seen: Seq<TopLevelBoxView> = Seq::empty();
        proof {
            assert(all =~= seen + top_level_boxes(payload@, pos as int));
        }
        loop
            invariant
                pos <= payload@.len(),
                all == top_level_boxes(payload@, 0),
                all == seen + top_level_boxes(payload@, pos as int),
                scan_prefix(all, seen.len() as int, self.hevc) == Ok::<_, MalformedPayload>(
                    scanner@,
                ),
            ensures
                seen == all,
            decreases payload@.len() - pos,
        {
            match next_box(payload, pos) {
                None => {
                    proof {
                        assert(seen =~= all);
                    }
                    break ;
                },
                Some((top, next)) => {
                    proof {
                        let rest = top_level_boxes(payload@, next as int);
                        assert(top_level_boxes(payload@, pos as int) == seq![top@] + rest);
                        assert(all =~= seen.push(top@) + rest);
                        assert(all[seen.len() as int] == top@);
                        seen = seen.push(top@);
                    }
                    match scanner.push_box(self, top) {
                        Ok(()) => {},
                        Err(e) => {
                            proof {
                                lemma_scan_failure_stays(
                                    all,
                                    seen.len() as int,
                                    all.len() as int,
                                    self.hevc,
                                );
                            }
                            return Err(e);
                        },
                    }
                    pos = next;
                },
            }
        }
        Ok(scanner.finish())
    }
}

/// Parsing the same bytes twice gives the same result: the same frames with
/// the same bytes in the same order, or the same failure.
pub proof fn lemma_parse_is_repeatable(
    payload: Seq<u8>,
    hevc: bool,
    first: Result<ParsedSegment, MalformedPayload>,
    second: Result<ParsedSegment, MalformedPayload>,
)
    requires
        yields(first, parse_outcome(payload, hevc)),
        yields(second, parse_outcome(payload, hevc)),
    ensures
        match (first, second) {
            (Ok(a), Ok(b)) => a@ == b@,
            (Err(a), Err(b)) => a == b,
            _ => false,
        },
{
}

} // verus!
