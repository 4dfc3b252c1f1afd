//! An OMF-style record stream: a run of records of one kind byte and a
//! 16-bit length, whose music payloads (kind `0xA0`) are collected with
//! their three-byte prefix and one-byte trailer stripped.

use vstd::prelude::*;

use crate::wordio::le16_at;
use crate::WolfError;
use crate::ok_bytes;

verus! {

/// One record per unfolding: the music payloads collected from `data`
/// at `pos` onward, appended to `out`.  The stream ends cleanly before
/// a kind byte; a record cut short, or a music record too short for
/// its framing, is malformed.
pub open spec fn omf_music_spec(data: Seq<u8>, pos: int, out: Seq<u8>) -> Result<
    Seq<u8>,
    WolfError,
>
    decreases data.len() - pos,
{
    if pos >= data.len() {
        Ok(out)
    } else if pos + 3 > data.len() {
        Err(WolfError::Format)
    } else {
        let len = le16_at(data, pos + 1);
        if pos + 3 + len > data.len() {
            Err(WolfError::Format)
        } else if data[pos] == 0xA0 {
            if len < 4 {
                Err(WolfError::Format)
            } else {
                omf_music_spec(
                    data,
                    pos + 3 + len,
                    out + data.subrange(pos + 6, pos + 3 + len - 1),
                )
            }
        } else {
            omf_music_spec(data, pos + 3 + len, out)
        }
    }
}

/// Collects the music payloads of a whole record stream: the bytes of
/// every kind-`0xA0` record, first three and last one stripped, in
/// stream order.
pub fn omf_music_data(data: &[u8]) -> (r: Result<Vec<u8>, WolfError>)
    ensures
        ok_bytes(r) == omf_music_spec(data@, 0, Seq::empty()),
{
    let n = data.len();
    let mut pos: usize = 0;
    let mut out: Vec<u8> = Vec::new();
    while pos < n
        invariant
            n == data@.len(),
            pos <= n,
            omf_music_spec(data@, pos as int, out@) == omf_music_spec(data@, 0, Seq::empty()),
        decreases n - pos,
    {
        if n - pos < 3 {
            return Err(WolfError::Format);
        }
        let len = crate::wordio::read_u16_le(data, pos + 1) as usize;
        if n - pos - 3 < len {
            return Err(WolfError::Format);
        }
        if data[pos] == 0xA0 {
            if len < 4 {
                return Err(WolfError::Format);
            }
            let mut k: usize = pos + 6;
            let stop = pos + 3 + len - 1;
            let ghost pre = out@;
            while k < stop
                invariant
                    n == data@.len(),
                    pos + 6 <= k <= stop,
                    stop == pos + 3 + len - 1,
                    pos + 3 + len <= n,
                    len >= 4,
                    out@ == pre + data@.subrange(pos + 6, k as int),
                decreases stop - k,
            {
                let b = data[k];
                out.push(b);
                assert(out@ =~= pre + data@.subrange(pos + 6, k + 1));
                k = k + 1;
            }
            assert(out@ =~= pre + data@.subrange(pos + 6, pos + 3 + len - 1));
        }
        pos = pos + 3 + len;
    }
    Ok(out)
}

} // verus!
