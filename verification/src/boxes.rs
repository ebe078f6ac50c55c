//! Top-level boxes of a segment, decoded by the `mp4_atom` crate.

use crate::fragment::{MovieFragment, RunEntry, SampleRun, TrackFragment, TrackFragmentView};
use crate::guard::{check_decodes_safely, decodes_safely, prepared, sanitize};
use mp4_atom::{Any, ReadFrom};
use std::io::Cursor;
use vstd::prelude::*;

verus! {

/// A top-level box, reduced to what the demultiplexer reads from it.
#[derive(Clone, Debug, PartialEq, Eq)]
pub enum TopLevelBox {
    /// A `moof` box.
    MovieFragment(MovieFragment),
    /// The payload of an `mdat` box.
    MediaData(Vec<u8>),
    /// Any other box.
    Other,
}

/// Mathematical content of a [`TopLevelBox`].
pub enum TopLevelBoxView {
    MovieFragment(Seq<TrackFragmentView>),
    MediaData(Seq<u8>),
    Other,
}

impl View for TopLevelBox {
    type V = TopLevelBoxView;

    open spec fn view(&self) -> TopLevelBoxView {
        match self {
            TopLevelBox::MovieFragment(m) => TopLevelBoxView::MovieFragment(m@),
            TopLevelBox::MediaData(d) => TopLevelBoxView::MediaData(d@),
            TopLevelBox::Other => TopLevelBoxView::Other,
        }
    }
}

/// `mp4_atom::Any`: a decoded box of any kind. Nothing is known of a value
/// but what [`box_content`] names.
#[verifier::external_type_specification]
#[verifier::external_body]
pub struct ExAny(mp4_atom::Any);

/// What `mp4_atom` decodes from `data` at byte offset `pos`: the content of
/// the box that starts there and the offset just behind it, or `None` where
/// it reports an error.
pub uninterp spec fn box_at(data: Seq<u8>, pos: int) -> Option<(TopLevelBoxView, int)>;

/// What is decoded at offset `pos` of `data`: the content of the box that
/// starts there and the offset just behind it, or `None` where no box
/// decodes.
///
/// The decoder is given `data` itself, or the copy in which the boxes that
/// are out of place read `free` (see [`prepared`]). It is given neither
/// where these bytes are still not safe to decode, which is so only where a
/// box declares a size that 32 bits cannot hold (see
/// [`lemma_prepared_is_safe`](crate::guard::lemma_prepared_is_safe)).
pub open spec fn decoded_at(data: Seq<u8>, pos: int) -> Option<(TopLevelBoxView, int)> {
    if decodes_safely(prepared(data, pos), pos) {
        box_at(prepared(data, pos), pos)
    } else {
        None
    }
}

/// The boxes of `data` from offset `pos` on, up to the first position at
/// which no box decodes.
pub open spec fn top_level_boxes(data: Seq<u8>, pos: int) -> Seq<TopLevelBoxView>
    decreases data.len() - pos,
{
    match decoded_at(data, pos) {
        Some((content, next)) => if pos < next <= data.len() {
            seq![content] + top_level_boxes(data, next)
        } else {
            Seq::empty()
        },
        None => Seq::empty(),
    }
}

/// What a decoded box holds, as far as the demultiplexer reads it.
pub uninterp spec fn box_content(atom: mp4_atom::Any) -> TopLevelBoxView;

/// Calls `mp4_atom::Any::read_from` on a cursor over `data` placed at `pos`,
/// and returns the decoded box with the cursor's new position, or `None`
/// where the call fails.
///
/// Not proved, taken from `mp4_atom` and `std::io::Cursor`: the outcome
/// depends on the bytes and the offset alone; a box decodes only behind a
/// complete header, which takes at least 8 bytes; the cursor does not move
/// past the end of `data`. The call returns on the bytes that
/// [`decodes_safely`] admits: there it reaches no decoder but those of the
/// header, of `moof`, `mfhd`, `traf`, `tfhd`, `tfdt`, `trun`, `saiz`, `saio`,
/// `senc`, `sbgp`, `mdat`, `ftyp`, `styp`, `sidx`, `prft`, `emsg`, `free`,
/// `skip` and of boxes of unknown kind, and nests them three deep at most.
#[verifier::external_body]
fn read_atom(data: &[u8], pos: usize) -> (r: Option<(Any, usize)>)
    requires
        decodes_safely(data@, pos as int),
    ensures
        match r {
            Some((atom, next)) => {
                &&& box_at(data@, pos as int) == Some((box_content(atom), next as int))
                &&& pos + 8 <= next <= data@.len()
            },
            None => box_at(data@, pos as int) is None,
        },
{
    let mut cursor = Cursor::new(data);
    cursor.set_position(pos as u64);
    let atom = Any::read_from(&mut cursor).ok()?;
    Some((atom, cursor.position() as usize))
}

/// Copies out of a box decoded by `mp4_atom` the fields that the
/// demultiplexer reads: of a `moof` its track fragments with track
/// identifier, default sample size, base decode time and sample runs; of an
/// `mdat` its payload; of any other box nothing.
///
/// Not proved: the result holds those fields unchanged. The contract only
/// gives what is copied a name.
#[verifier::external_body]
fn atom_content(atom: Any) -> (b: TopLevelBox)
    ensures
        b@ == box_content(atom),
{
    match atom {
        Any::Moof(m) => TopLevelBox::MovieFragment(MovieFragment { tracks: m.traf.iter().map(|t| TrackFragment {
            track_id: t.tfhd.track_id,
            default_sample_size: t.tfhd.default_sample_size,
            base_decode_time: t.tfdt.as_ref().map(|d| d.base_media_decode_time),
            runs: t.trun.iter().map(|r| SampleRun {
                data_offset: r.data_offset,
                entries: r.entries.iter().map(|e| RunEntry { size: e.size, duration: e.duration, cts: e.cts }).collect(),
            }).collect(),
        }).collect() }),
        Any::Mdat(m) => TopLevelBox::MediaData(m.data),
        _ => TopLevelBox::Other,
    }
}

/// Decodes the box that starts at offset `pos` of `data`.
///
/// Returns the box and the offset just behind it, or `None` where no box
/// decodes at `pos`: at the end of `data`, or where the bytes are cut short
/// or malformed. A box of a kind that the decoder is not given, at the top
/// or inside a `moof`, is stepped over by its size: it counts as a box of
/// another kind, and its content is not looked at.
pub fn next_box(data: &[u8], pos: usize) -> (r: Option<(TopLevelBox, usize)>)
    ensures
        match r {
            Some((b, next)) => {
                &&& decoded_at(data@, pos as int) == Some((b@, next as int))
                &&& pos + 8 <= next <= data@.len()
            },
            None => decoded_at(data@, pos as int) is None,
        },
{
    if check_decodes_safely(data, pos) {
        return match read_atom(data, pos) {
            Some((atom, next)) => Some((atom_content(atom), next)),
            None => None,
        };
    }
    let copy = sanitize(data, pos);
    if !check_decodes_safely(copy.as_slice(), pos) {
        return None;
    }
    match read_atom(copy.as_slice(), pos) {
        Some((atom, next)) => Some((atom_content(atom), next)),
        None => None,
    }
}

} // verus!
