//! Decoder for MSA ("Magic Shadow Archiver") floppy-disk images.
//!
//! An MSA image is a ten-byte header followed by one length-prefixed data
//! record per track and side. Each record is either a verbatim copy of the
//! track's sectors or a run-length encoding of them. Decoding turns the whole
//! image into the raw sector stream (the "ST" format): the tracks in ascending
//! order, the sides of each track in ascending order, each expanded to plain
//! bytes.
//!
//! The decoder works on in-memory byte buffers only; reading and writing
//! files is the caller's business.

use vstd::prelude::*;

mod header;
mod track;
mod decoder;

pub use decoder::decode;
pub use decoder::decode_msa_to_st;
pub use decoder::decoded_view;
pub use decoder::spec_decode;
pub use decoder::spec_decode_tracks;
pub use decoder::spec_track_count;
pub use decoder::spec_prefix_reads;
pub use decoder::lemma_decode_deterministic;
pub use decoder::lemma_header_rejection;
pub use decoder::lemma_geometry_iteration_count;
pub use track::nominal_track_size;
pub use track::process_data_track;
pub use track::spec_run_length_decode;
pub use track::spec_track_decode;
pub use track::lemma_uncompressed_track_identity;
pub use track::lemma_literal_passthrough;
pub use track::lemma_escape_free_track_passthrough;
pub use track::lemma_escape_run_expansion;
pub use track::lemma_escape_run_token;
pub use header::MsaHeader;
pub use header::read_msa_header;
pub use header::spec_header;
pub use header::spec_header_ok;
pub use header::spec_sides;

verus! {

/// The big-endian marker that opens every MSA image.
pub const MSA_MAGIC: u16 = 0x0E0F;

/// The byte that introduces a run token inside a compressed track.
pub const ESCAPE: u8 = 0xE5;

/// The value of two bytes read as one big-endian 16-bit integer.
pub open spec fn be16(hi: u8, lo: u8) -> int {
    256 * (hi as int) + (lo as int)
}

/// Reads two bytes as one big-endian 16-bit integer.
pub fn read_be16(hi: u8, lo: u8) -> (r: u16)
    ensures
        r as int == be16(hi, lo),
{
    (hi as u16) * 256 + (lo as u16)
}

/// Why a buffer could not be decoded.
#[derive(Clone, Copy, Debug, PartialEq, Eq, Structural)]
pub enum DecodeError {
    /// The input ends before the ten header bytes.
    TooShort,
    /// The header is present but does not start with the MSA marker.
    BadMagic,
    /// A read ran past the end of the input buffer.
    Truncated,
    /// A track's declared range is internally inconsistent: a run token
    /// crosses the end of the range, or a strict-mode size check failed.
    MalformedTrack,
}

/// How much self-consistency to demand of each track record.
#[derive(Clone, Copy, Debug, PartialEq, Eq, Structural)]
pub enum DecodeMode {
    /// Trust the encoder as the format historically did: a declared length
    /// of at least the nominal track size means a verbatim track, and a
    /// compressed track may expand to any length.
    Lenient,
    /// Additionally require every track to declare at most, and decode to
    /// exactly, the nominal `512 * sectors_per_track` bytes.
    Strict,
}

} // verus!
