//! The fixed ten-byte MSA header and its parser.

use vstd::prelude::*;
use crate::{be16, read_be16, MSA_MAGIC};

verus! {

/// The geometry an MSA header declares: how many 512-byte sectors each track
/// holds, how many sides the disk has, and the inclusive range of track
/// indices stored in the image.
#[derive(Clone, Copy, Debug, PartialEq, Eq, Structural)]
pub struct MsaHeader {
    /// Sectors per track; the nominal decoded track size is 512 times this.
    pub sectors_per_track: u16,
    /// Number of sides, already converted from the header's zero-based
    /// last-side index (so 1 or 2 on real images).
    pub sides: u16,
    /// First track stored in the image.
    pub start_track: u16,
    /// Last track stored in the image, inclusive.
    pub end_track: u16,
}

/// A buffer carries a readable MSA header: at least ten bytes, opening with
/// the big-endian magic marker.
pub open spec fn spec_header_ok(data: Seq<u8>) -> bool {
    &&& data.len() >= 10
    &&& be16(data[0], data[1]) == MSA_MAGIC as int
}

/// The side count a header declares. The raw field is the zero-based index of
/// the last side; its successor is the count. A raw value of 0xFFFF has no
/// representable successor in sixteen bits and yields a count of zero, so
/// such an image decodes to an empty buffer.
pub open spec fn spec_sides(data: Seq<u8>) -> int {
    if be16(data[4], data[5]) == 0xFFFF {
        0
    } else {
        be16(data[4], data[5]) + 1
    }
}

/// The geometry encoded in a header-carrying buffer.
pub open spec fn spec_header(data: Seq<u8>) -> MsaHeader
    recommends
        spec_header_ok(data),
{
    MsaHeader {
        sectors_per_track: be16(data[2], data[3]) as u16,
        sides: spec_sides(data) as u16,
        start_track: be16(data[6], data[7]) as u16,
        end_track: be16(data[8], data[9]) as u16,
    }
}

/// Validates the magic marker and extracts the geometry fields, or returns
/// `None` when the buffer is shorter than ten bytes or does not open with the
/// marker.
pub fn read_msa_header(msa_data: &[u8]) -> (r: Option<MsaHeader>)
    ensures
        r is Some <==> spec_header_ok(msa_data@),
        r matches Some(h) ==> h == spec_header(msa_data@),
{
    if msa_data.len() < 10 {
        return None;
    }

    let id_marker = read_be16(msa_data[0], msa_data[1]);
    if id_marker != MSA_MAGIC {
        return None;
    }

    let raw_sides = read_be16(msa_data[4], msa_data[5]);
    let sides: u16 = if raw_sides == 0xFFFF {
        0
    } else {
        raw_sides + 1
    };

    Some(MsaHeader {
        sectors_per_track: read_be16(msa_data[2], msa_data[3]),
        sides,
        start_track: read_be16(msa_data[6], msa_data[7]),
        end_track: read_be16(msa_data[8], msa_data[9]),
    })
}

} // verus!
