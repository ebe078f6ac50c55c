//! Length-prefixed NAL units: how a video sample is framed.
//!
//! A video sample is a run of units, each a 4-byte big-endian length followed
//! by that many payload bytes.

use vstd::prelude::*;

verus! {

/// The big-endian 32-bit number stored in `s[i..i + 4]`.
pub open spec fn be_u32_at(s: Seq<u8>, i: int) -> int
    recommends
        0 <= i,
        i + 4 <= s.len(),
{
    s[i] as int * 0x100_0000 + s[i + 1] as int * 0x1_0000 + s[i + 2] as int * 0x100 + s[i + 3] as int
}

/// The big-endian 16-bit number stored in `s[i..i + 2]`.
pub open spec fn be_u16_at(s: Seq<u8>, i: int) -> u16
    recommends
        0 <= i,
        i + 2 <= s.len(),
{
    (s[i] as int * 0x100 + s[i + 1] as int) as u16
}

/// Where the payload of one unit lies inside its sample.
pub struct NalUnit {
    /// Offset of the first payload byte.
    pub start: int,
    /// Number of payload bytes.
    pub len: int,
}

/// The units met by a scan of `s` that begins at offset `from`, in order.
///
/// The scan ends, without error, at the first length prefix that is cut
/// short or that declares more bytes than the sample has left. With
/// `stop_at_empty` it also ends at a unit of length 0; without, such a unit
/// is listed like any other.
pub open spec fn nal_units_from(s: Seq<u8>, from: int, stop_at_empty: bool) -> Seq<NalUnit>
    decreases s.len() - from,
{
    if from < 0 || from + 4 > s.len() {
        Seq::empty()
    } else {
        let len = be_u32_at(s, from);
        let start = from + 4;
        if start + len > s.len() || (stop_at_empty && len == 0) {
            Seq::empty()
        } else {
            seq![NalUnit { start, len }] + nal_units_from(s, start + len, stop_at_empty)
        }
    }
}

/// The non-empty units of a sample, up to the first that is empty, cut short
/// or overrunning.
pub open spec fn nal_units(s: Seq<u8>) -> Seq<NalUnit> {
    nal_units_from(s, 0, true)
}

/// Reads the big-endian 32-bit number at `i`.
pub fn read_be_u32(s: &[u8], i: usize) -> (v: u32)
    requires
        i + 4 <= s@.len(),
    ensures
        v == be_u32_at(s@, i as int),
{
    let b0: u32 = s[i] as u32;
    let b1: u32 = s[i + 1] as u32;
    let b2: u32 = s[i + 2] as u32;
    let b3: u32 = s[i + 3] as u32;
    b0 * 0x100_0000 + b1 * 0x1_0000 + b2 * 0x100 + b3
}

/// Reads the big-endian 16-bit number at `i`.
pub fn read_be_u16(s: &[u8], i: usize) -> (v: u16)
    requires
        i + 2 <= s@.len(),
    ensures
        v == be_u16_at(s@, i as int),
{
    let b0: u16 = s[i] as u16;
    let b1: u16 = s[i + 1] as u16;
    b0 * 0x100 + b1
}

} // verus!
