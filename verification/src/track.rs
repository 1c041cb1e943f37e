//! Decompression of one track record.
//!
//! A record of declared length at least the nominal track size is a verbatim
//! copy of the track. A shorter record is compressed: a stream of tokens read
//! left to right until the declared range is exhausted, where any byte other
//! than the escape value stands for itself and an escape byte opens a
//! four-byte run token `[escape, value, count-high, count-low]` that expands
//! to `count` copies of `value`.

use vstd::prelude::*;
use crate::{be16, read_be16, DecodeError, DecodeMode, ESCAPE};

verus! {

/// The uncompressed size of a track: 512 bytes per declared sector.
pub open spec fn nominal_track_size(sectors_per_track: u16) -> int {
    512 * (sectors_per_track as int)
}

/// The expansion of the token stream in `data[pos..end]`, or `None` when a
/// run token crosses the end of the range.
pub open spec fn spec_run_length_decode(data: Seq<u8>, pos: int, end: int) -> Option<Seq<u8>>
    recommends
        0 <= pos,
        end <= data.len(),
    decreases end - pos,
{
    if pos >= end {
        Some(Seq::empty())
    } else if data[pos] != ESCAPE {
        match spec_run_length_decode(data, pos + 1, end) {
            Some(rest) => Some(seq![data[pos]] + rest),
            None => None,
        }
    } else if pos + 4 <= end {
        let run = Seq::new(be16(data[pos + 2], data[pos + 3]) as nat, |i: int| data[pos + 1]);
        match spec_run_length_decode(data, pos + 4, end) {
            Some(rest) => Some(run + rest),
            None => None,
        }
    } else {
        None
    }
}

/// The decompressor's partial progress: the tokens of `data[start..end]` up
/// to `mid` have expanded to `acc`, so finishing the range from `mid` settles
/// the expansion of the whole range.
spec fn rle_decodes_to(data: Seq<u8>, start: int, mid: int, end: int, acc: Seq<u8>) -> bool {
    match spec_run_length_decode(data, mid, end) {
        Some(rest) => spec_run_length_decode(data, start, end) == Some(acc + rest),
        None => spec_run_length_decode(data, start, end) is None,
    }
}

proof fn lemma_rle_start(data: Seq<u8>, start: int, end: int)
    ensures
        rle_decodes_to(data, start, start, end, Seq::empty()),
{
    if let Some(rest) = spec_run_length_decode(data, start, end) {
        assert(Seq::<u8>::empty() + rest =~= rest);
    }
}

proof fn lemma_rle_step_literal(data: Seq<u8>, start: int, mid: int, end: int, acc: Seq<u8>)
    requires
        rle_decodes_to(data, start, mid, end, acc),
        start <= mid < end,
        data[mid] != ESCAPE,
    ensures
        rle_decodes_to(data, start, mid + 1, end, acc.push(data[mid])),
{
    if let Some(rest) = spec_run_length_decode(data, mid + 1, end) {
        assert(acc + (seq![data[mid]] + rest) =~= acc.push(data[mid]) + rest);
    }
}

proof fn lemma_rle_step_escape(data: Seq<u8>, start: int, mid: int, end: int, acc: Seq<u8>)
    requires
        rle_decodes_to(data, start, mid, end, acc),
        start <= mid,
        mid + 4 <= end,
        data[mid] == ESCAPE,
    ensures
        rle_decodes_to(
            data,
            start,
            mid + 4,
            end,
            acc + Seq::new(be16(data[mid + 2], data[mid + 3]) as nat, |i: int| data[mid + 1]),
        ),
{
    let run = Seq::new(be16(data[mid + 2], data[mid + 3]) as nat, |i: int| data[mid + 1]);
    if let Some(rest) = spec_run_length_decode(data, mid + 4, end) {
        assert(acc + (run + rest) =~= (acc + run) + rest);
    }
}

proof fn lemma_rle_finish(data: Seq<u8>, start: int, end: int, acc: Seq<u8>)
    requires
        rle_decodes_to(data, start, end, end, acc),
    ensures
        spec_run_length_decode(data, start, end) == Some(acc),
{
    assert(acc + Seq::<u8>::empty() =~= acc);
}

/// What decoding one track record yields: the verbatim range when the
/// declared length reaches the nominal size, the token expansion otherwise,
/// or the error the record earns. In strict mode the record must also declare
/// at most, and expand to exactly, the nominal size.
pub open spec fn spec_track_decode(
    data: Seq<u8>,
    pos: int,
    len: int,
    sectors_per_track: u16,
    mode: DecodeMode,
) -> Result<Seq<u8>, DecodeError>
    recommends
        0 <= pos,
        0 <= len,
{
    if pos + len > data.len() {
        Err(DecodeError::Truncated)
    } else if mode == DecodeMode::Strict && len > nominal_track_size(sectors_per_track) {
        Err(DecodeError::MalformedTrack)
    } else if len >= nominal_track_size(sectors_per_track) {
        Ok(data.subrange(pos, pos + len))
    } else {
        match spec_run_length_decode(data, pos, pos + len) {
            Some(decoded) => {
                if mode == DecodeMode::Strict && decoded.len() != nominal_track_size(
                    sectors_per_track,
                ) {
                    Err(DecodeError::MalformedTrack)
                } else {
                    Ok(decoded)
                }
            },
            None => Err(DecodeError::MalformedTrack),
        }
    }
}

/// Appends `count` copies of `value`.
fn push_repeated(out: &mut Vec<u8>, value: u8, count: u16)
    ensures
        final(out)@ == old(out)@ + Seq::new(count as nat, |i: int| value),
{
    let mut i: u16 = 0;
    while i < count
        invariant
            i <= count,
            out@ == old(out)@ + Seq::new(i as nat, |j: int| value),
        decreases count - i,
    {
        out.push(value);
        i = i + 1;
        assert(out@ =~= old(out)@ + Seq::new(i as nat, |j: int| value));
    }
}

/// Appends `data[from..to]` verbatim.
fn push_slice_range(out: &mut Vec<u8>, data: &[u8], from: usize, to: usize)
    requires
        from <= to <= data@.len(),
    ensures
        final(out)@ == old(out)@ + data@.subrange(from as int, to as int),
{
    let mut i: usize = from;
    while i < to
        invariant
            from <= i <= to <= data@.len(),
            out@ == old(out)@ + data@.subrange(from as int, i as int),
        decreases to - i,
    {
        let b = data[i];
        out.push(b);
        i = i + 1;
        assert(out@ =~= old(out)@ + data@.subrange(from as int, i as int));
    }
}

/// Decodes the track record occupying `msa_data[msa_index .. msa_index +
/// track_data_length]` and returns the expanded bytes together with the
/// offset of the first byte after the record, or the error the record earns
/// under `mode`.
pub fn process_data_track(
    track_data_length: usize,
    msa_data: &[u8],
    msa_index: usize,
    sectors_per_track: u16,
    mode: DecodeMode,
) -> (r: Result<(Vec<u8>, usize), DecodeError>)
    ensures
        ({
            match spec_track_decode(
                msa_data@,
                msa_index as int,
                track_data_length as int,
                sectors_per_track,
                mode,
            ) {
                Ok(track) => r matches Ok(p) && p.0@ == track && p.1 == msa_index
                    + track_data_length,
                Err(e) => r == Err::<(Vec<u8>, usize), DecodeError>(e),
            }
        }),
{
    if msa_index > msa_data.len() || track_data_length > msa_data.len() - msa_index {
        return Err(DecodeError::Truncated);
    }
    let track_data_end = msa_index + track_data_length;
    let nominal = 512 * (sectors_per_track as usize);
    let strict = mode == DecodeMode::Strict;

    if strict && track_data_length > nominal {
        return Err(DecodeError::MalformedTrack);
    }

    let mut st_data: Vec<u8> = Vec::new();

    if track_data_length >= nominal {
        push_slice_range(&mut st_data, msa_data, msa_index, track_data_end);
        return Ok((st_data, track_data_end));
    }

    let ghost start = msa_index as int;
    let ghost end = track_data_end as int;
    let mut index = msa_index;
    proof {
        lemma_rle_start(msa_data@, start, end);
    }
    while index < track_data_end
        invariant
            msa_index <= index <= track_data_end <= msa_data@.len(),
            track_data_end == msa_index + track_data_length,
            (track_data_length as int) < nominal_track_size(sectors_per_track),
            start == msa_index as int,
            end == track_data_end as int,
            rle_decodes_to(msa_data@, start, index as int, end, st_data@),
        decreases track_data_end - index,
    {
        let byte = msa_data[index];
        if byte != ESCAPE {
            proof {
                lemma_rle_step_literal(msa_data@, start, index as int, end, st_data@);
            }
            st_data.push(byte);
            index = index + 1;
        } else if track_data_end - index >= 4 {
            let repeated_byte = msa_data[index + 1];
            let repeat_count = read_be16(msa_data[index + 2], msa_data[index + 3]);
            proof {
                lemma_rle_step_escape(msa_data@, start, index as int, end, st_data@);
            }
            push_repeated(&mut st_data, repeated_byte, repeat_count);
            index = index + 4;
        } else {
            // The run token would cross the end of the declared range.
            proof {
                assert(spec_run_length_decode(msa_data@, index as int, end) is None);
            }
            return Err(DecodeError::MalformedTrack);
        }
    }
    proof {
        lemma_rle_finish(msa_data@, start, end, st_data@);
    }

    if strict && st_data.len() != nominal {
        return Err(DecodeError::MalformedTrack);
    }
    Ok((st_data, index))
}

/// A track whose declared length equals the nominal `512 * sectors_per_track`
/// bytes decodes, in either mode, to the declared range verbatim.
pub proof fn lemma_uncompressed_track_identity(
    data: Seq<u8>,
    pos: int,
    sectors_per_track: u16,
    mode: DecodeMode,
)
    requires
        0 <= pos,
        pos + nominal_track_size(sectors_per_track) <= data.len(),
    ensures
        spec_track_decode(data, pos, nominal_track_size(sectors_per_track), sectors_per_track, mode)
            == Ok::<Seq<u8>, DecodeError>(
            data.subrange(pos, pos + nominal_track_size(sectors_per_track)),
        ),
{
}

/// A token range that holds no escape byte expands to itself: every byte
/// passes through the literal path unchanged.
pub proof fn lemma_literal_passthrough(data: Seq<u8>, pos: int, end: int)
    requires
        0 <= pos <= end <= data.len(),
        forall|i: int| pos <= i < end ==> data[i] != ESCAPE,
    ensures
        spec_run_length_decode(data, pos, end) == Some(data.subrange(pos, end)),
    decreases end - pos,
{
    if pos >= end {
        assert(data.subrange(pos, end) =~= Seq::<u8>::empty());
    } else {
        lemma_literal_passthrough(data, pos + 1, end);
        assert(seq![data[pos]] + data.subrange(pos + 1, end) =~= data.subrange(pos, end));
    }
}

/// A compressed track record that holds no escape byte decodes, leniently, to
/// the declared range verbatim.
pub proof fn lemma_escape_free_track_passthrough(
    data: Seq<u8>,
    pos: int,
    len: int,
    sectors_per_track: u16,
)
    requires
        0 <= pos,
        0 <= len,
        pos + len <= data.len(),
        len < nominal_track_size(sectors_per_track),
        forall|i: int| pos <= i < pos + len ==> data[i] != ESCAPE,
    ensures
        spec_track_decode(data, pos, len, sectors_per_track, DecodeMode::Lenient) == Ok::<
            Seq<u8>,
            DecodeError,
        >(data.subrange(pos, pos + len)),
{
    lemma_literal_passthrough(data, pos, pos + len);
}

/// An escape token `[0xE5, value, high, low]` expands to `256 * high + low`
/// copies of `value`, followed by the expansion of the rest of the range.
pub proof fn lemma_escape_run_expansion(data: Seq<u8>, pos: int, end: int)
    requires
        0 <= pos,
        pos + 4 <= end <= data.len(),
        data[pos] == ESCAPE,
    ensures
        spec_run_length_decode(data, pos, end) == (match spec_run_length_decode(
            data,
            pos + 4,
            end,
        ) {
            Some(rest) => Some(
                Seq::new(be16(data[pos + 2], data[pos + 3]) as nat, |i: int| data[pos + 1]) + rest,
            ),
            None => None::<Seq<u8>>,
        }),
{
}

/// A range that is exactly one escape token expands to the token's run alone,
/// and a run count of zero contributes no bytes at all.
pub proof fn lemma_escape_run_token(data: Seq<u8>, pos: int)
    requires
        0 <= pos,
        pos + 4 <= data.len(),
        data[pos] == ESCAPE,
    ensures
        spec_run_length_decode(data, pos, pos + 4) == Some(
            Seq::new(be16(data[pos + 2], data[pos + 3]) as nat, |i: int| data[pos + 1]),
        ),
        be16(data[pos + 2], data[pos + 3]) == 0 ==> spec_run_length_decode(data, pos, pos + 4)
            == Some(Seq::<u8>::empty()),
{
    let run = Seq::new(be16(data[pos + 2], data[pos + 3]) as nat, |i: int| data[pos + 1]);
    assert(spec_run_length_decode(data, pos + 4, pos + 4) == Some(Seq::<u8>::empty()));
    assert(run + Seq::<u8>::empty() =~= run);
    if be16(data[pos + 2], data[pos + 3]) == 0 {
        assert(run =~= Seq::<u8>::empty());
    }
}

} // verus!
