//! The music archive reader (AUDIOHED and AUDIOT files).
//!
//! The header file is a bare run of 32-bit offsets, read to its end;
//! the data file is sliced between consecutive offsets, one uncompressed
//! command-stream blob per track.

use vstd::prelude::*;
use vstd::slice::slice_subrange;
use vstd::slice::slice_to_vec;

use crate::wordio::le32_at;
use crate::WolfError;
use crate::ok_bytes;

verus! {

/// The offset table of a header file: one 32-bit word per full four
/// bytes, trailing odd bytes ignored.
pub open spec fn audiohed_spec(b: Seq<u8>) -> Seq<u32> {
    Seq::new((b.len() / 4) as nat, |i: int| le32_at(b, 4 * i) as u32)
}

/// One music chunk: the slice of the data file between offset `i` and
/// offset `i + 1`.  The table must hold both offsets, they must not
/// run backwards, and the slice must lie inside the data file.
pub open spec fn audiot_chunk_spec(data: Seq<u8>, offsets: Seq<u32>, i: int) -> Result<
    Seq<u8>,
    WolfError,
> {
    if i + 1 >= offsets.len() {
        Err(WolfError::Format)
    } else if offsets[i] > offsets[i + 1] {
        Err(WolfError::Format)
    } else if offsets[i + 1] > data.len() {
        Err(WolfError::Bounds)
    } else {
        Ok(data.subrange(offsets[i] as int, offsets[i + 1] as int))
    }
}

/// Reads the whole offset table of a header file.
pub fn read_audiohed(header: &[u8]) -> (r: Vec<u32>)
    ensures
        r@ == audiohed_spec(header@),
{
    let n = header.len();
    let count = n / 4;
    let mut offsets: Vec<u32> = Vec::new();
    let mut i: usize = 0;
    while i < count
        invariant
            n == header@.len(),
            count == n / 4,
            i <= count,
            offsets@ == audiohed_spec(header@).subrange(0, i as int),
        decreases count - i,
    {
        let v = crate::wordio::read_u32_le(header, 4 * i);
        offsets.push(v);
        assert(offsets@ =~= audiohed_spec(header@).subrange(0, i + 1));
        i = i + 1;
    }
    assert(offsets@ =~= audiohed_spec(header@));
    offsets
}

/// Slices one music chunk out of the data file by consecutive offsets.
pub fn read_audiot_chunk(data: &[u8], offset_index: usize, offsets: &[u32]) -> (r: Result<
    Vec<u8>,
    WolfError,
>)
    ensures
        ok_bytes(r) == audiot_chunk_spec(data@, offsets@, offset_index as int),
{
    if offset_index >= offsets.len() || offset_index + 1 >= offsets.len() {
        return Err(WolfError::Format);
    }
    let off = offsets[offset_index] as usize;
    let next = offsets[offset_index + 1] as usize;
    if off > next {
        return Err(WolfError::Format);
    }
    if next > data.len() {
        return Err(WolfError::Bounds);
    }
    Ok(slice_to_vec(slice_subrange(data, off, next)))
}

} // verus!
