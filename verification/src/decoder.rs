//! The whole-image decoder: header parsing plus one track record per track
//! and side, in on-disk order.

use vstd::prelude::*;
use crate::{be16, read_be16, DecodeError, DecodeMode, MSA_MAGIC};
use crate::header::{read_msa_header, spec_header, spec_header_ok, MsaHeader};
use crate::track::{process_data_track, spec_track_decode};

verus! {

/// How many track records the image holds: one per side of every track in
/// the declared range, and none when the range is empty.
pub open spec fn spec_track_count(h: MsaHeader) -> int {
    if h.start_track <= h.end_track {
        (h.sides as int) * (h.end_track as int - h.start_track as int + 1)
    } else {
        0
    }
}

/// The concatenated expansion of `remaining` length-prefixed track records
/// starting at `pos`, or the error the first bad record earns.
pub open spec fn spec_decode_tracks(
    data: Seq<u8>,
    pos: int,
    remaining: nat,
    sectors_per_track: u16,
    mode: DecodeMode,
) -> Result<Seq<u8>, DecodeError>
    recommends
        0 <= pos,
    decreases remaining,
{
    if remaining == 0 {
        Ok(Seq::empty())
    } else if pos + 2 > data.len() {
        Err(DecodeError::Truncated)
    } else {
        let len = be16(data[pos], data[pos + 1]);
        match spec_track_decode(data, pos + 2, len, sectors_per_track, mode) {
            Ok(track) => {
                match spec_decode_tracks(
                    data,
                    pos + 2 + len,
                    (remaining - 1) as nat,
                    sectors_per_track,
                    mode,
                ) {
                    Ok(rest) => Ok(track + rest),
                    Err(e) => Err(e),
                }
            },
            Err(e) => Err(e),
        }
    }
}

/// What decoding a whole buffer yields: the header errors on an unreadable
/// header, otherwise the concatenation of every track record the geometry
/// declares, read from byte ten onward.
pub open spec fn spec_decode(data: Seq<u8>, mode: DecodeMode) -> Result<Seq<u8>, DecodeError> {
    if data.len() < 10 {
        Err(DecodeError::TooShort)
    } else if be16(data[0], data[1]) != MSA_MAGIC as int {
        Err(DecodeError::BadMagic)
    } else {
        let h = spec_header(data);
        spec_decode_tracks(data, 10, spec_track_count(h) as nat, h.sectors_per_track, mode)
    }
}

/// A decode result with the output buffer replaced by the bytes it holds.
pub open spec fn decoded_view(r: Result<Vec<u8>, DecodeError>) -> Result<Seq<u8>, DecodeError> {
    match r {
        Ok(v) => Ok(v@),
        Err(e) => Err(e),
    }
}

/// Decodes one MSA image into the raw ST sector stream, or reports why the
/// buffer cannot be decoded under `mode`.
pub fn decode(msa_data: &[u8], mode: DecodeMode) -> (r: Result<Vec<u8>, DecodeError>)
    ensures
        decoded_view(r) == spec_decode(msa_data@, mode),
{
    let header = match read_msa_header(msa_data) {
        Some(h) => h,
        None => {
            if msa_data.len() < 10 {
                return Err(DecodeError::TooShort);
            }
            return Err(DecodeError::BadMagic);
        },
    };

    let total: u64 = if header.start_track <= header.end_track {
        let track_span: u64 = (header.end_track - header.start_track) as u64 + 1;
        proof {
            assert((header.sides as int) * (track_span as int) <= 0x1_0000_0000int)
                by (nonlinear_arith)
                requires
                    header.sides as int <= 0xFFFF,
                    track_span as int <= 0x1_0000,
            ;
        }
        (header.sides as u64) * track_span
    } else {
        0
    };

    let ghost data = msa_data@;
    let mut st_data: Vec<u8> = Vec::new();
    let mut msa_index: usize = 10;
    let mut done: u64 = 0;
    proof {
        if let Ok(rest) = spec_decode_tracks(data, 10, total as nat, header.sectors_per_track, mode) {
            assert(Seq::<u8>::empty() + rest =~= rest);
        }
    }
    while done < total
        invariant
            done <= total,
            10 <= msa_index <= data.len(),
            data == msa_data@,
            spec_header_ok(data),
            header == spec_header(data),
            total == spec_track_count(header),
            ({
                match spec_decode_tracks(
                    data,
                    msa_index as int,
                    (total - done) as nat,
                    header.sectors_per_track,
                    mode,
                ) {
                    Ok(rest) => spec_decode(data, mode) == Ok::<Seq<u8>, DecodeError>(
                        st_data@ + rest,
                    ),
                    Err(e) => spec_decode(data, mode) == Err::<Seq<u8>, DecodeError>(e),
                }
            }),
        decreases total - done,
    {
        if msa_data.len() - msa_index < 2 {
            return Err(DecodeError::Truncated);
        }
        let track_data_length = read_be16(msa_data[msa_index], msa_data[msa_index + 1]) as usize;
        match process_data_track(
            track_data_length,
            msa_data,
            msa_index + 2,
            header.sectors_per_track,
            mode,
        ) {
            Ok((mut track_data, new_index)) => {
                let ghost prev = st_data@;
                let ghost track = track_data@;
                st_data.append(&mut track_data);
                proof {
                    let next_rest = spec_decode_tracks(
                        data,
                        new_index as int,
                        (total - done - 1) as nat,
                        header.sectors_per_track,
                        mode,
                    );
                    if let Ok(rest) = next_rest {
                        assert(prev + (track + rest) =~= (prev + track) + rest);
                    }
                }
                msa_index = new_index;
                done = done + 1;
            },
            Err(e) => {
                return Err(e);
            },
        }
    }
    Ok(st_data)
}

/// Decodes one MSA image as the format historically allowed, keeping only
/// whether it worked: the entry point the file-conversion callers use.
pub fn decode_msa_to_st(msa_data: &[u8]) -> (r: Option<Vec<u8>>)
    ensures
        r is Some <==> spec_decode(msa_data@, DecodeMode::Lenient) is Ok,
        r matches Some(v) ==> spec_decode(msa_data@, DecodeMode::Lenient) == Ok::<
            Seq<u8>,
            DecodeError,
        >(v@),
{
    match decode(msa_data, DecodeMode::Lenient) {
        Ok(st_data) => Some(st_data),
        Err(_) => None,
    }
}

/// Decoding is deterministic: the contract of `decode` pins the result to a
/// function of the input bytes and the mode alone, so any two results it
/// admits for the same input carry the same bytes or the same error.
pub proof fn lemma_decode_deterministic(
    data: Seq<u8>,
    mode: DecodeMode,
    r1: Result<Vec<u8>, DecodeError>,
    r2: Result<Vec<u8>, DecodeError>,
)
    requires
        decoded_view(r1) == spec_decode(data, mode),
        decoded_view(r2) == spec_decode(data, mode),
    ensures
        decoded_view(r1) == decoded_view(r2),
{
}

/// Every buffer shorter than the ten header bytes is rejected as too short,
/// and every buffer of at least ten bytes that does not open with the MSA
/// marker is rejected as not an MSA image, whatever the mode.
pub proof fn lemma_header_rejection(data: Seq<u8>, mode: DecodeMode)
    ensures
        data.len() < 10 ==> spec_decode(data, mode) == Err::<Seq<u8>, DecodeError>(
            DecodeError::TooShort,
        ),
        data.len() >= 10 && be16(data[0], data[1]) != MSA_MAGIC as int ==> spec_decode(data, mode)
            == Err::<Seq<u8>, DecodeError>(DecodeError::BadMagic),
{
}

/// How many length-prefix reads the decoder attempts while walking
/// `remaining` track records from `pos`: one per record until the first
/// record that fails, none once the count is exhausted.
pub open spec fn spec_prefix_reads(
    data: Seq<u8>,
    pos: int,
    remaining: nat,
    sectors_per_track: u16,
    mode: DecodeMode,
) -> nat
    decreases remaining,
{
    if remaining == 0 {
        0
    } else if pos + 2 > data.len() {
        1
    } else {
        let len = be16(data[pos], data[pos + 1]);
        match spec_track_decode(data, pos + 2, len, sectors_per_track, mode) {
            Ok(_) => 1 + spec_prefix_reads(
                data,
                pos + 2 + len,
                (remaining - 1) as nat,
                sectors_per_track,
                mode,
            ),
            Err(_) => 1,
        }
    }
}

proof fn lemma_prefix_reads_of_success(
    data: Seq<u8>,
    pos: int,
    remaining: nat,
    sectors_per_track: u16,
    mode: DecodeMode,
)
    requires
        spec_decode_tracks(data, pos, remaining, sectors_per_track, mode) is Ok,
    ensures
        spec_prefix_reads(data, pos, remaining, sectors_per_track, mode) == remaining,
    decreases remaining,
{
    if remaining > 0 {
        let len = be16(data[pos], data[pos + 1]);
        lemma_prefix_reads_of_success(
            data,
            pos + 2 + len,
            (remaining - 1) as nat,
            sectors_per_track,
            mode,
        );
    }
}

/// The iteration count is driven by the geometry alone: a decode that
/// succeeds read exactly one length prefix per track record, that is
/// `sides * (end_track - start_track + 1)` of them.
pub proof fn lemma_geometry_iteration_count(data: Seq<u8>, mode: DecodeMode)
    requires
        spec_decode(data, mode) is Ok,
    ensures
        spec_header_ok(data),
        spec_prefix_reads(
            data,
            10,
            spec_track_count(spec_header(data)) as nat,
            spec_header(data).sectors_per_track,
            mode,
        ) == spec_track_count(spec_header(data)),
        spec_header(data).start_track <= spec_header(data).end_track ==> spec_track_count(
            spec_header(data),
        ) == (spec_header(data).sides as int) * (spec_header(data).end_track as int - spec_header(
            data,
        ).start_track as int + 1),
{
    let h = spec_header(data);
    lemma_prefix_reads_of_success(data, 10, spec_track_count(h) as nat, h.sectors_per_track, mode);
}

} // verus!
