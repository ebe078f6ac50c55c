//! Which boxes the decoder is given, and in what form.
//!
//! `mp4_atom` knows well over a hundred kinds of boxes, and decodes every
//! child of a `moof` or `traf` by its kind, whatever it is. The decoders of
//! some kinds do not return on malformed input: the decoder of `iref`
//! subtracts a length found in the bytes from the count of bytes left
//! without comparing the two, the decoder of `sgpd` grows a vector as often
//! as a count found in the bytes says, and a `traf` inside a `traf` is
//! decoded to any depth. A media segment needs few kinds, so the decoder is
//! given boxes of those kinds alone. Where a box or one of its children is
//! of another kind that the decoder knows, the decoder is given a copy of
//! the bytes in which the kind of that box reads `free`: it then steps over
//! the box by its size, and nothing that the demultiplexer reads is lost.
//!
//! Boxes are found as the decoder finds them. A box begins with a 32-bit
//! size and a kind. Size 0 stands for all that is left, size 1 for a 64-bit
//! size behind the kind; a smaller size than the header itself, or a larger
//! one than what is left, ends the walk.

use crate::nal::{be_u32_at, read_be_u32};
use vstd::prelude::*;

verus! {

/// The kind `moof`.
pub const KIND_MOOF: u32 = 0x6d6f_6f66;

/// The kind `traf`.
pub const KIND_TRAF: u32 = 0x7472_6166;

/// The kind `free`.
pub const KIND_FREE: u32 = 0x6672_6565;

/// Whether `kind` is a kind that `mp4_atom` decodes and that it is not
/// given. These are all kinds it knows but `moof` and `traf`, which hold
/// the boxes of a fragment, and those of the other boxes of a media
/// segment: `mfhd`, `tfhd`, `tfdt`, `trun`, `saiz`, `saio`, `senc`, `sbgp`,
/// `mdat`, `ftyp`, `styp`, `sidx`, `prft`, `emsg`, `free` and `skip`. A kind
/// that `mp4_atom` does not know is not among them: of such a box it copies
/// the bytes.
pub open spec fn is_guarded_kind(kind: u32) -> bool {
    kind == 0x2e6d7033 || kind == 0x4f707573 || kind == 0x61632d33 || kind == 0x61696e66
    || kind == 0x61757843 || kind == 0x61763031 || kind == 0x61763143 || kind == 0x61766331
    || kind == 0x61766333 || kind == 0x61766343 || kind == 0x62747274 || kind == 0x63616d6d
    || kind == 0x63637374 || kind == 0x63686e6c || kind == 0x6368706c || kind == 0x636c6170
    || kind == 0x636d7064 || kind == 0x636f3634 || kind == 0x636f6c72 || kind == 0x636f7672
    || kind == 0x63707274 || kind == 0x63736c67 || kind == 0x63747473 || kind == 0x644f7073
    || kind == 0x64616333 || kind == 0x64616d72 || kind == 0x64617920 || kind == 0x64656333
    || kind == 0x64657363 || kind == 0x64664c61 || kind == 0x64696e66 || kind == 0x64726566
    || kind == 0x64747970 || kind == 0x65632d33 || kind == 0x65647473 || kind == 0x656c7374
    || kind == 0x656d6562 || kind == 0x656d6962 || kind == 0x65736473 || kind == 0x65767465
    || kind == 0x664c6143 || kind == 0x6669656c || kind == 0x666c3332 || kind == 0x666c3634
    || kind == 0x6670636d || kind == 0x66746162 || kind == 0x68646c72 || kind == 0x68657631
    || kind == 0x686d6864 || kind == 0x68766331 || kind == 0x68766343 || kind == 0x69646174
    || kind == 0x69696e66 || kind == 0x696c6f63 || kind == 0x696c7374 || kind == 0x696d6972
    || kind == 0x696e3234 || kind == 0x696e3332 || kind == 0x696e6665 || kind == 0x6970636d
    || kind == 0x6970636f || kind == 0x69706d61 || kind == 0x69707270 || kind == 0x69726566
    || kind == 0x69726f74 || kind == 0x6973636c || kind == 0x69737065 || kind == 0x6a706567
    || kind == 0x6b657964 || kind == 0x6b657973 || kind == 0x6b696e64 || kind == 0x6c687643
    || kind == 0x6c6f6361 || kind == 0x6c70636d || kind == 0x6d646864 || kind == 0x6d646961
    || kind == 0x6d656278 || kind == 0x6d656864 || kind == 0x6d657461 || kind == 0x6d657474
    || kind == 0x6d657478 || kind == 0x6d667261 || kind == 0x6d66726f || kind == 0x6d696e66
    || kind == 0x6d6f6f76 || kind == 0x6d703461 || kind == 0x6d766578 || kind == 0x6d766864
    || kind == 0x6e616d65 || kind == 0x6e6d6864 || kind == 0x70617370 || kind == 0x70636d43
    || kind == 0x7069746d || kind == 0x70697869 || kind == 0x72726566 || kind == 0x72746e67
    || kind == 0x7331366c || kind == 0x73616d72 || kind == 0x73657475 || kind == 0x73677064
    || kind == 0x73696c62 || kind == 0x736d6864 || kind == 0x736f7774 || kind == 0x7374626c
    || kind == 0x7374636f || kind == 0x73746864 || kind == 0x73747363 || kind == 0x73747364
    || kind == 0x73747373 || kind == 0x7374737a || kind == 0x73747473 || kind == 0x73756273
    || kind == 0x74616963 || kind == 0x74667261 || kind == 0x746b6864 || kind == 0x7472616b
    || kind == 0x74726566 || kind == 0x74726578 || kind == 0x74776f73 || kind == 0x74783367
    || kind == 0x74787443 || kind == 0x75647461 || kind == 0x756e6343 || kind == 0x756e6376
    || kind == 0x75726920 || kind == 0x75726949 || kind == 0x7572696d || kind == 0x75726c20
    || kind == 0x75756964 || kind == 0x766c6162 || kind == 0x766d6864 || kind == 0x76703038
    || kind == 0x76703039 || kind == 0x76706343 || kind == 0x76747443 || kind == 0x77767474
    || kind == 0xa9746f6f
}

/// Tests whether `kind` is a kind that the decoder is not given.
pub fn guarded_kind(kind: u32) -> (guarded: bool)
    ensures
        guarded == is_guarded_kind(kind),
{
    kind == 0x2e6d7033 || kind == 0x4f707573 || kind == 0x61632d33 || kind == 0x61696e66
    || kind == 0x61757843 || kind == 0x61763031 || kind == 0x61763143 || kind == 0x61766331
    || kind == 0x61766333 || kind == 0x61766343 || kind == 0x62747274 || kind == 0x63616d6d
    || kind == 0x63637374 || kind == 0x63686e6c || kind == 0x6368706c || kind == 0x636c6170
    || kind == 0x636d7064 || kind == 0x636f3634 || kind == 0x636f6c72 || kind == 0x636f7672
    || kind == 0x63707274 || kind == 0x63736c67 || kind == 0x63747473 || kind == 0x644f7073
    || kind == 0x64616333 || kind == 0x64616d72 || kind == 0x64617920 || kind == 0x64656333
    || kind == 0x64657363 || kind == 0x64664c61 || kind == 0x64696e66 || kind == 0x64726566
    || kind == 0x64747970 || kind == 0x65632d33 || kind == 0x65647473 || kind == 0x656c7374
    || kind == 0x656d6562 || kind == 0x656d6962 || kind == 0x65736473 || kind == 0x65767465
    || kind == 0x664c6143 || kind == 0x6669656c || kind == 0x666c3332 || kind == 0x666c3634
    || kind == 0x6670636d || kind == 0x66746162 || kind == 0x68646c72 || kind == 0x68657631
    || kind == 0x686d6864 || kind == 0x68766331 || kind == 0x68766343 || kind == 0x69646174
    || kind == 0x69696e66 || kind == 0x696c6f63 || kind == 0x696c7374 || kind == 0x696d6972
    || kind == 0x696e3234 || kind == 0x696e3332 || kind == 0x696e6665 || kind == 0x6970636d
    || kind == 0x6970636f || kind == 0x69706d61 || kind == 0x69707270 || kind == 0x69726566
    || kind == 0x69726f74 || kind == 0x6973636c || kind == 0x69737065 || kind == 0x6a706567
    || kind == 0x6b657964 || kind == 0x6b657973 || kind == 0x6b696e64 || kind == 0x6c687643
    || kind == 0x6c6f6361 || kind == 0x6c70636d || kind == 0x6d646864 || kind == 0x6d646961
    || kind == 0x6d656278 || kind == 0x6d656864 || kind == 0x6d657461 || kind == 0x6d657474
    || kind == 0x6d657478 || kind == 0x6d667261 || kind == 0x6d66726f || kind == 0x6d696e66
    || kind == 0x6d6f6f76 || kind == 0x6d703461 || kind == 0x6d766578 || kind == 0x6d766864
    || kind == 0x6e616d65 || kind == 0x6e6d6864 || kind == 0x70617370 || kind == 0x70636d43
    || kind == 0x7069746d || kind == 0x70697869 || kind == 0x72726566 || kind == 0x72746e67
    || kind == 0x7331366c || kind == 0x73616d72 || kind == 0x73657475 || kind == 0x73677064
    || kind == 0x73696c62 || kind == 0x736d6864 || kind == 0x736f7774 || kind == 0x7374626c
    || kind == 0x7374636f || kind == 0x73746864 || kind == 0x73747363 || kind == 0x73747364
    || kind == 0x73747373 || kind == 0x7374737a || kind == 0x73747473 || kind == 0x73756273
    || kind == 0x74616963 || kind == 0x74667261 || kind == 0x746b6864 || kind == 0x7472616b
    || kind == 0x74726566 || kind == 0x74726578 || kind == 0x74776f73 || kind == 0x74783367
    || kind == 0x74787443 || kind == 0x75647461 || kind == 0x756e6343 || kind == 0x756e6376
    || kind == 0x75726920 || kind == 0x75726949 || kind == 0x7572696d || kind == 0x75726c20
    || kind == 0x75756964 || kind == 0x766c6162 || kind == 0x766d6864 || kind == 0x76703038
    || kind == 0x76703039 || kind == 0x76706343 || kind == 0x76747443 || kind == 0x77767474
    || kind == 0xa9746f6f
}

/// Whether a box of this kind is out of place `level` boxes deep: a kind
/// that the decoder is not given, a `traf` that is not the child of a
/// top-level `moof` (level 1), or a `moof` that is not at the top level
/// (level 0).
pub open spec fn is_misplaced(kind: u32, level: int) -> bool {
    ||| is_guarded_kind(kind)
    ||| kind == KIND_MOOF && level != 0
    ||| kind == KIND_TRAF && level != 1
}

/// Whether the children of a box of this kind are walked: those of a
/// top-level `moof` and of its `traf` children.
pub open spec fn holds_children(kind: u32, level: int) -> bool {
    kind == KIND_MOOF && level == 0 || kind == KIND_TRAF && level == 1
}

/// The kind of the box at `p`.
pub open spec fn kind_at(data: Seq<u8>, p: int) -> u32 {
    be_u32_at(data, p + 4) as u32
}

/// The big-endian 64-bit number stored in `data[p..p + 8]`.
pub open spec fn be_u64_at(data: Seq<u8>, p: int) -> int {
    be_u32_at(data, p) * 0x1_0000_0000 + be_u32_at(data, p + 4)
}

/// Where a box lies.
pub struct Extent {
    /// Offset of the first byte behind the header.
    pub body: int,
    /// Offset just behind the box.
    pub next: int,
}

/// Where the box at `p` lies, among boxes that end at `end` at the latest;
/// `None` where the walk ends at `p`.
pub open spec fn box_extent(data: Seq<u8>, p: int, end: int) -> Option<Extent> {
    if p < 0 || p + 8 > end || end > data.len() {
        None
    } else {
        let size = be_u32_at(data, p);
        if size == 0 {
            Some(Extent { body: p + 8, next: end })
        } else if size == 1 {
            if p + 16 > end || be_u64_at(data, p + 8) < 16 || p + be_u64_at(data, p + 8) > end {
                None
            } else {
                Some(Extent { body: p + 16, next: p + be_u64_at(data, p + 8) })
            }
        } else if size < 8 || p + size > end {
            None
        } else {
            Some(Extent { body: p + 8, next: p + size })
        }
    }
}

/// Whether the box at `p` declares a 64-bit size that 32 bits cannot hold.
/// No box inside a segment is that large, and a machine with 32-bit
/// addresses would cut the size short.
pub open spec fn declares_oversize(data: Seq<u8>, p: int, end: int) -> bool {
    &&& 0 <= p
    &&& p + 16 <= end <= data.len()
    &&& be_u32_at(data, p) == 1
    &&& be_u64_at(data, p + 8) > u32::MAX
}

/// Whether the boxes from `p` up to `end`, which stand `level` boxes deep,
/// may be given to the decoder: none declares an oversize, none is
/// misplaced, and the same holds of the children that are walked.
pub open spec fn children_safe(data: Seq<u8>, p: int, end: int, level: int) -> bool
    decreases 3 - level, end - p,
{
    if level < 1 || level > 2 || declares_oversize(data, p, end) {
        false
    } else {
        match box_extent(data, p, end) {
            None => true,
            Some(extent) => {
                &&& !is_misplaced(kind_at(data, p), level)
                &&& holds_children(kind_at(data, p), level) ==> children_safe(
                    data,
                    extent.body,
                    extent.next,
                    level + 1,
                )
                &&& children_safe(data, extent.next, end, level)
            },
        }
    }
}

/// Whether the box at `pos` may be given to the decoder as it stands.
///
/// It may where its header is cut short or its size is out of order: the
/// decoder then fails before it looks at the content. Else the box must
/// not be misplaced, and a `moof` must hold no misplaced box among its
/// children and the children of its `traf` boxes. The decoder then reaches
/// no decoder but those of the kinds named at [`is_guarded_kind`], and
/// boxes nest three deep at most.
pub open spec fn decodes_safely(data: Seq<u8>, pos: int) -> bool {
    if declares_oversize(data, pos, data.len() as int) {
        false
    } else {
        match box_extent(data, pos, data.len() as int) {
            None => true,
            Some(extent) => {
                &&& !is_misplaced(kind_at(data, pos), 0)
                &&& holds_children(kind_at(data, pos), 0) ==> children_safe(
                    data,
                    extent.body,
                    extent.next,
                    1,
                )
            },
        }
    }
}

/// Byte `k` of the kind `free`.
pub open spec fn free_byte(k: int) -> u8 {
    if k == 0 {
        0x66
    } else if k == 1 {
        0x72
    } else {
        0x65
    }
}

/// What the copy holds at offset `i` in place of the byte of `data`, for
/// the boxes from `p` up to `end`: a byte of `free` where `i` lies in the
/// kind of a misplaced box; `None` where the byte is kept.
pub open spec fn children_patch(data: Seq<u8>, p: int, end: int, level: int, i: int) -> Option<u8>
    decreases 3 - level, end - p,
{
    if level < 1 || level > 2 {
        None
    } else {
        match box_extent(data, p, end) {
            None => None,
            Some(extent) => {
                let kind = kind_at(data, p);
                if is_misplaced(kind, level) && p + 4 <= i < p + 8 {
                    Some(free_byte(i - p - 4))
                } else if !is_misplaced(kind, level) && holds_children(kind, level)
                    && children_patch(data, extent.body, extent.next, level + 1, i) is Some {
                    children_patch(data, extent.body, extent.next, level + 1, i)
                } else {
                    children_patch(data, extent.next, end, level, i)
                }
            },
        }
    }
}

/// What the copy holds at offset `i` in place of the byte of `data`, for
/// the box at `pos`.
pub open spec fn box_patch(data: Seq<u8>, pos: int, i: int) -> Option<u8> {
    match box_extent(data, pos, data.len() as int) {
        None => None,
        Some(extent) => {
            let kind = kind_at(data, pos);
            if is_misplaced(kind, 0) {
                if pos + 4 <= i < pos + 8 {
                    Some(free_byte(i - pos - 4))
                } else {
                    None
                }
            } else if holds_children(kind, 0) {
                children_patch(data, extent.body, extent.next, 1, i)
            } else {
                None
            }
        },
    }
}

/// The bytes of `base` with the bytes of `free` written over the kinds of
/// the misplaced boxes from `p` up to `end`.
pub open spec fn patched(data: Seq<u8>, p: int, end: int, level: int, base: Seq<u8>) -> Seq<u8> {
    Seq::new(
        base.len(),
        |i: int|
            match children_patch(data, p, end, level, i) {
                Some(b) => b,
                None => base[i],
            },
    )
}

/// The copy of `data` in which every misplaced box among the box at `pos`,
/// its children and, in a `moof`, the children of its `traf` boxes has the
/// kind `free`.
pub open spec fn sanitized(data: Seq<u8>, pos: int) -> Seq<u8> {
    Seq::new(
        data.len(),
        |i: int|
            match box_patch(data, pos, i) {
                Some(b) => b,
                None => data[i],
            },
    )
}

/// The bytes that the decoder is given for the box at `pos`: `data` itself
/// where that is safe, else the copy.
pub open spec fn prepared(data: Seq<u8>, pos: int) -> Seq<u8> {
    if decodes_safely(data, pos) {
        data
    } else {
        sanitized(data, pos)
    }
}

/// The copy differs from `data` only inside the boxes walked, behind their
/// first four bytes.
pub proof fn lemma_patch_range(data: Seq<u8>, p: int, end: int, level: int, i: int)
    requires
        children_patch(data, p, end, level, i) is Some,
    ensures
        p + 4 <= i < end,
        end <= data.len(),
    decreases 3 - level, end - p,
{
    let extent = box_extent(data, p, end)->Some_0;
    let kind = kind_at(data, p);
    if is_misplaced(kind, level) && p + 4 <= i < p + 8 {
    } else if !is_misplaced(kind, level) && holds_children(kind, level) && children_patch(
        data,
        extent.body,
        extent.next,
        level + 1,
        i,
    ) is Some {
        lemma_patch_range(data, extent.body, extent.next, level + 1, i);
    } else {
        lemma_patch_range(data, extent.next, end, level, i);
    }
}

/// Whether one of the boxes walked from `p` up to `end` declares an
/// oversize. The children of a misplaced box are not walked.
pub open spec fn children_declare_oversize(data: Seq<u8>, p: int, end: int, level: int) -> bool
    decreases 3 - level, end - p,
{
    if level < 1 || level > 2 {
        false
    } else if declares_oversize(data, p, end) {
        true
    } else {
        match box_extent(data, p, end) {
            None => false,
            Some(extent) => {
                ||| !is_misplaced(kind_at(data, p), level) && holds_children(
                    kind_at(data, p),
                    level,
                ) && children_declare_oversize(data, extent.body, extent.next, level + 1)
                ||| children_declare_oversize(data, extent.next, end, level)
            },
        }
    }
}

/// Whether the box at `pos`, or one of the boxes walked inside it, declares
/// an oversize.
pub open spec fn walk_declares_oversize(data: Seq<u8>, pos: int) -> bool {
    ||| declares_oversize(data, pos, data.len() as int)
    ||| box_extent(data, pos, data.len() as int) matches Some(extent) && !is_misplaced(
        kind_at(data, pos),
        0,
    ) && holds_children(kind_at(data, pos), 0) && children_declare_oversize(
        data,
        extent.body,
        extent.next,
        1,
    )
}

/// Sizes are read alike from bytes that agree in the header of a box.
proof fn lemma_same_header(data: Seq<u8>, r: Seq<u8>, p: int, end: int)
    requires
        r.len() == data.len(),
        0 <= p && p + 8 <= end <= data.len() ==> forall|i: int|
            p <= i < p + 4 ==> r[i] == data[i],
        0 <= p && p + 16 <= end <= data.len() && be_u32_at(data, p) == 1 ==> forall|i: int|
            p + 8 <= i < p + 16 ==> r[i] == data[i],
    ensures
        box_extent(r, p, end) == box_extent(data, p, end),
        declares_oversize(r, p, end) == declares_oversize(data, p, end),
{
    if 0 <= p && p + 8 <= end && end <= data.len() {
        assert(r[p] == data[p] && r[p + 1] == data[p + 1] && r[p + 2] == data[p + 2] && r[p + 3]
            == data[p + 3]);
        if be_u32_at(data, p) == 1 && p + 16 <= end {
            assert(r[p + 8] == data[p + 8] && r[p + 9] == data[p + 9] && r[p + 10] == data[p + 10]
                && r[p + 11] == data[p + 11]);
            assert(r[p + 12] == data[p + 12] && r[p + 13] == data[p + 13] && r[p + 14] == data[p
                + 14] && r[p + 15] == data[p + 15]);
        }
    }
}

/// Bytes that hold the copy of the boxes from `p` up to `end` may be given
/// to the decoder, unless one of the boxes walked declares an oversize.
proof fn lemma_patched_children_are_safe(data: Seq<u8>, r: Seq<u8>, p: int, end: int, level: int)
    requires
        level == 1 || level == 2,
        r.len() == data.len(),
        forall|i: int|
            p <= i < end && 0 <= i < data.len() ==> r[i] == match children_patch(
                data,
                p,
                end,
                level,
                i,
            ) {
                Some(b) => b,
                None => data[i],
            },
        !children_declare_oversize(data, p, end, level),
    ensures
        children_safe(r, p, end, level),
    decreases 3 - level, end - p,
{
    // The header at `p` is not written to, but for its kind.
    assert forall|i: int|
        (p <= i < p + 4 || (be_u32_at(data, p) == 1 && p + 8 <= i < p + 16)) && 0 <= i
            < data.len() && box_extent(data, p, end) is Some implies r[i] == data[i] by {
        let extent = box_extent(data, p, end)->Some_0;
        if children_patch(data, extent.body, extent.next, level + 1, i) is Some {
            lemma_patch_range(data, extent.body, extent.next, level + 1, i);
        }
        if children_patch(data, extent.next, end, level, i) is Some {
            lemma_patch_range(data, extent.next, end, level, i);
        }
    }
    if box_extent(data, p, end) is None {
        lemma_same_header(data, r, p, end);
    } else {
        lemma_same_header(data, r, p, end);
        let extent = box_extent(data, p, end)->Some_0;
        let kind = kind_at(data, p);
        assert forall|i: int| p + 4 <= i < p + 8 implies r[i] == if is_misplaced(kind, level) {
            free_byte(i - p - 4)
        } else {
            data[i]
        } by {
            if children_patch(data, extent.body, extent.next, level + 1, i) is Some {
                lemma_patch_range(data, extent.body, extent.next, level + 1, i);
            }
            if children_patch(data, extent.next, end, level, i) is Some {
                lemma_patch_range(data, extent.next, end, level, i);
            }
        }
        assert(r[p + 4] == if is_misplaced(kind, level) { free_byte(0) } else { data[p + 4] });
        assert(r[p + 5] == if is_misplaced(kind, level) { free_byte(1) } else { data[p + 5] });
        assert(r[p + 6] == if is_misplaced(kind, level) { free_byte(2) } else { data[p + 6] });
        assert(r[p + 7] == if is_misplaced(kind, level) { free_byte(3) } else { data[p + 7] });
        assert(kind_at(r, p) == if is_misplaced(kind, level) { KIND_FREE } else { kind });
        if !is_misplaced(kind, level) && holds_children(kind, level) {
            assert forall|i: int|
                extent.body <= i < extent.next && 0 <= i < data.len() implies r[i]
                == match children_patch(data, extent.body, extent.next, level + 1, i) {
                Some(b) => b,
                None => data[i],
            } by {
                if children_patch(data, extent.next, end, level, i) is Some {
                    lemma_patch_range(data, extent.next, end, level, i);
                }
            }
            lemma_patched_children_are_safe(data, r, extent.body, extent.next, level + 1);
        }
        assert forall|i: int| extent.next <= i < end && 0 <= i < data.len() implies r[i]
            == match children_patch(data, extent.next, end, level, i) {
            Some(b) => b,
            None => data[i],
        } by {
            if children_patch(data, extent.body, extent.next, level + 1, i) is Some {
                lemma_patch_range(data, extent.body, extent.next, level + 1, i);
            }
        }
        lemma_patched_children_are_safe(data, r, extent.next, end, level);
    }
}

/// The bytes that the decoder is given may be given to it, unless the box
/// or one of the boxes walked inside it declares an oversize.
pub proof fn lemma_prepared_is_safe(data: Seq<u8>, pos: int)
    requires
        !walk_declares_oversize(data, pos),
    ensures
        decodes_safely(prepared(data, pos), pos),
{
    if !decodes_safely(data, pos) {
        let r = sanitized(data, pos);
        let end = data.len() as int;
        let extent = box_extent(data, pos, end)->Some_0;
        let kind = kind_at(data, pos);
        assert forall|i: int|
            (pos <= i < pos + 4 || (be_u32_at(data, pos) == 1 && pos + 8 <= i < pos + 16)) && 0
                <= i < data.len() implies r[i] == data[i] by {
            if children_patch(data, extent.body, extent.next, 1, i) is Some {
                lemma_patch_range(data, extent.body, extent.next, 1, i);
            }
        }
        lemma_same_header(data, r, pos, end);
        assert forall|i: int| pos + 4 <= i < pos + 8 implies r[i] == if is_misplaced(kind, 0) {
            free_byte(i - pos - 4)
        } else {
            data[i]
        } by {
            if children_patch(data, extent.body, extent.next, 1, i) is Some {
                lemma_patch_range(data, extent.body, extent.next, 1, i);
            }
        }
        assert(r[pos + 4] == if is_misplaced(kind, 0) { free_byte(0) } else { data[pos + 4] });
        assert(r[pos + 5] == if is_misplaced(kind, 0) { free_byte(1) } else { data[pos + 5] });
        assert(r[pos + 6] == if is_misplaced(kind, 0) { free_byte(2) } else { data[pos + 6] });
        assert(r[pos + 7] == if is_misplaced(kind, 0) { free_byte(3) } else { data[pos + 7] });
        assert(kind_at(r, pos) == if is_misplaced(kind, 0) { KIND_FREE } else { kind });
        if !is_misplaced(kind, 0) && holds_children(kind, 0) {
            lemma_patched_children_are_safe(data, r, extent.body, extent.next, 1);
        }
    }
}

/// Tests whether `kind` is out of place `level` boxes deep.
fn misplaced(kind: u32, level: u8) -> (r: bool)
    ensures
        r == is_misplaced(kind, level as int),
{
    guarded_kind(kind) || (kind == KIND_MOOF && level != 0) || (kind == KIND_TRAF && level != 1)
}

/// Reads the size of the box at `p`: `None` where it declares an oversize,
/// else where the box lies, if the walk does not end at `p`.
fn read_extent(data: &[u8], p: usize, end: usize) -> (r: Option<Option<(usize, usize)>>)
    requires
        end <= data@.len(),
    ensures
        r is None <==> declares_oversize(data@, p as int, end as int),
        r matches Some(found) ==> match found {
            Some((body, next)) => box_extent(data@, p as int, end as int) == Some(
                Extent { body: body as int, next: next as int },
            ) && p + 8 <= body <= next <= end && p < next,
            None => box_extent(data@, p as int, end as int) is None,
        },
{
    if end < 8 || p > end - 8 {
        return Some(None);
    }
    let size = read_be_u32(data, p);
    if size == 0 {
        Some(Some((p + 8, end)))
    } else if size == 1 {
        if end - p < 16 {
            return Some(None);
        }
        let high = read_be_u32(data, p + 8);
        let low = read_be_u32(data, p + 12);
        if high != 0 {
            return None;
        }
        if low < 16 || low as usize > end - p {
            Some(None)
        } else {
            Some(Some((p + 16, p + low as usize)))
        }
    } else if size < 8 || size as usize > end - p {
        Some(None)
    } else {
        Some(Some((p + 8, p + size as usize)))
    }
}

/// Tests whether the boxes from `from` up to `end` may be given to the
/// decoder.
fn check_children_safe(data: &[u8], from: usize, end: usize, level: u8) -> (ok: bool)
    requires
        end <= data@.len(),
        level == 1 || level == 2,
    ensures
        ok == children_safe(data@, from as int, end as int, level as int),
    decreases 3 - level,
{
    let mut p = from;
    loop
        invariant
            end <= data@.len(),
            level == 1 || level == 2,
            children_safe(data@, from as int, end as int, level as int) == children_safe(
                data@,
                p as int,
                end as int,
                level as int,
            ),
        decreases end - p,
    {
        match read_extent(data, p, end) {
            None => {
                return false;
            },
            Some(None) => {
                return true;
            },
            Some(Some((body, next))) => {
                let kind = read_be_u32(data, p + 4);
                if misplaced(kind, level) {
                    return false;
                }
                if kind == KIND_TRAF && level == 1 {
                    if !check_children_safe(data, body, next, 2) {
                        return false;
                    }
                }
                p = next;
            },
        }
    }
}

/// Tests whether the box at `pos` may be given to the decoder as it stands.
pub fn check_decodes_safely(data: &[u8], pos: usize) -> (ok: bool)
    ensures
        ok == decodes_safely(data@, pos as int),
{
    match read_extent(data, pos, data.len()) {
        None => false,
        Some(None) => true,
        Some(Some((body, next))) => {
            let kind = read_be_u32(data, pos + 4);
            if misplaced(kind, 0) {
                false
            } else if kind == KIND_MOOF {
                check_children_safe(data, body, next, 1)
            } else {
                true
            }
        },
    }
}

/// Writes `free` over the kind of the box at `p`.
fn write_free(out: &mut Vec<u8>, p: usize)
    requires
        p + 8 <= old(out)@.len(),
    ensures
        final(out)@.len() == old(out)@.len(),
        forall|i: int|
            0 <= i < old(out)@.len() ==> #[trigger] final(out)@[i] == if p + 4 <= i < p + 8 {
                free_byte(i - p - 4)
            } else {
                old(out)@[i]
            },
{
    let len = out.len();
    assert(p + 8 <= len);
    out.set(p + 4, 0x66);
    out.set(p + 5, 0x72);
    out.set(p + 6, 0x65);
    out.set(p + 7, 0x65);
}

/// Writes `free` over the kind of every misplaced box from `from` up to
/// `end`.
fn patch_children(data: &[u8], out: &mut Vec<u8>, from: usize, end: usize, level: u8)
    requires
        end <= data@.len(),
        old(out)@.len() == data@.len(),
        level == 1 || level == 2,
    ensures
        final(out)@ == patched(data@, from as int, end as int, level as int, old(out)@),
    decreases 3 - level,
{
    let mut p = from;
    loop
        invariant
            end <= data@.len(),
            out@.len() == data@.len(),
            level == 1 || level == 2,
            patched(data@, from as int, end as int, level as int, old(out)@) == patched(
                data@,
                p as int,
                end as int,
                level as int,
                out@,
            ),
        decreases end - p,
    {
        let found = match read_extent(data, p, end) {
            None => box_limits(data, p, end),
            Some(found) => found,
        };
        match found {
            None => {
                proof {
                    assert(out@ =~= patched(data@, p as int, end as int, level as int, out@));
                }
                return ;
            },
            Some((body, next)) => {
                let kind = read_be_u32(data, p + 4);
                let ghost before = out@;
                if misplaced(kind, level) {
                    write_free(out, p);
                } else if kind == KIND_TRAF && level == 1 {
                    patch_children(data, out, body, next, 2);
                }
                proof {
                    let a = patched(data@, p as int, end as int, level as int, before);
                    let b = patched(data@, next as int, end as int, level as int, out@);
                    assert forall|i: int| 0 <= i < a.len() implies #[trigger] a[i] == b[i] by {
                        if children_patch(data@, next as int, end as int, level as int, i) is Some {
                            lemma_patch_range(data@, next as int, end as int, level as int, i);
                        }
                        if children_patch(data@, body as int, next as int, level + 1, i) is Some {
                            lemma_patch_range(data@, body as int, next as int, level + 1, i);
                        }
                    }
                    assert(a =~= b);
                }
                p = next;
            },
        }
    }
}

/// Where the box at `p` lies when it declares an oversize.
fn box_limits(data: &[u8], p: usize, end: usize) -> (r: Option<(usize, usize)>)
    requires
        end <= data@.len(),
        declares_oversize(data@, p as int, end as int),
    ensures
        match r {
            Some((body, next)) => box_extent(data@, p as int, end as int) == Some(
                Extent { body: body as int, next: next as int },
            ) && p + 8 <= body <= next <= end && p < next,
            None => box_extent(data@, p as int, end as int) is None,
        },
{
    let high = read_be_u32(data, p + 8);
    let low = read_be_u32(data, p + 12);
    let long: u64 = high as u64 * 0x1_0000_0000 + low as u64;
    if long > (end - p) as u64 {
        None
    } else {
        Some((p + 16, p + long as usize))
    }
}

/// Makes the copy of `data` that the decoder is given for the box at `pos`
/// where `data` itself is not safe.
pub fn sanitize(data: &[u8], pos: usize) -> (copy: Vec<u8>)
    ensures
        copy@ == sanitized(data@, pos as int),
{
    let mut out = vstd::slice::slice_to_vec(data);
    let found = match read_extent(data, pos, data.len()) {
        None => box_limits(data, pos, data.len()),
        Some(found) => found,
    };
    match found {
        None => {},
        Some((body, next)) => {
            let kind = read_be_u32(data, pos + 4);
            if misplaced(kind, 0) {
                write_free(&mut out, pos);
            } else if kind == KIND_MOOF {
                patch_children(data, &mut out, body, next, 1);
            }
        },
    }
    proof {
        assert(out@ =~= sanitized(data@, pos as int));
    }
    out
}

} // verus!
