//! The Carmack run/copy decompressor.
//!
//! A compressed buffer opens with a little-endian 16-bit word giving the
//! decompressed size in bytes; the remainder is a stream of 16-bit words.
//! A word whose high byte is `0xA7` (near) or `0xA8` (far) is a copy
//! command: its low byte is a word count, followed by a one-byte back
//! distance (near) or a two-byte absolute word index (far) into the
//! output produced so far.  A count of zero escapes a single literal
//! byte.  Any other word is emitted literally, low byte first.

use vstd::prelude::*;

use crate::wordio::le16_at;
use crate::WolfError;
use crate::ok_bytes;

verus! {

/// Appends `n` bytes to `out`, read one at a time starting at `src`;
/// the read cursor may run into bytes this same copy has just written.
pub open spec fn copy_run(out: Seq<u8>, src: int, n: nat) -> Seq<u8>
    decreases n,
{
    if n == 0 {
        out
    } else {
        copy_run(out.push(out[src]), src + 1, (n - 1) as nat)
    }
}

/// One step of the word stream per unfolding: the decoded output once
/// `remaining` more 16-bit units have been expanded out of `input` at
/// byte position `pos`, appended to `out`.
pub open spec fn carmack_words(input: Seq<u8>, pos: int, out: Seq<u8>, remaining: nat) -> Result<
    Seq<u8>,
    WolfError,
>
    decreases remaining,
{
    if remaining == 0 {
        Ok(out)
    } else if pos + 2 > input.len() {
        Err(WolfError::Format)
    } else {
        let count = input[pos] as int;
        let marker = input[pos + 1];
        if marker == 0xA7 || marker == 0xA8 {
            if count == 0 {
                // escaped literal byte
                if pos + 3 > input.len() {
                    Err(WolfError::Format)
                } else {
                    carmack_words(input, pos + 3, out.push(input[pos + 2]), (remaining - 1) as nat)
                }
            } else if count > remaining {
                Err(WolfError::Format)
            } else if marker == 0xA7 {
                // near copy: one-byte distance in words, back from the cursor
                if pos + 3 > input.len() {
                    Err(WolfError::Format)
                } else {
                    let dist = input[pos + 2] as int;
                    if 1 <= dist && 2 * dist <= out.len() {
                        carmack_words(
                            input,
                            pos + 3,
                            copy_run(out, out.len() - 2 * dist, (2 * count) as nat),
                            (remaining - count) as nat,
                        )
                    } else {
                        Err(WolfError::Bounds)
                    }
                }
            } else {
                // far copy: two-byte absolute word index from the start
                if pos + 4 > input.len() {
                    Err(WolfError::Format)
                } else {
                    let start = 2 * le16_at(input, pos + 2);
                    if start < out.len() {
                        carmack_words(
                            input,
                            pos + 4,
                            copy_run(out, start, (2 * count) as nat),
                            (remaining - count) as nat,
                        )
                    } else {
                        Err(WolfError::Bounds)
                    }
                }
            }
        } else {
            carmack_words(input, pos + 2, out.push(input[pos]).push(input[pos + 1]), (remaining - 1) as nat)
        }
    }
}

/// The whole scheme: read the size word, expand `size / 2` word units,
/// and demand that exactly `size` bytes came out.
pub open spec fn carmack_spec(input: Seq<u8>) -> Result<Seq<u8>, WolfError> {
    if input.len() < 2 {
        Err(WolfError::Format)
    } else {
        let size = le16_at(input, 0);
        match carmack_words(input, 2, Seq::empty(), (size / 2) as nat) {
            Ok(out) => if out.len() == size {
                Ok(out)
            } else {
                Err(WolfError::Format)
            },
            Err(e) => Err(e),
        }
    }
}

/// Appends to `out` a copy of `n` of its own bytes starting at `start`,
/// byte by byte, so that the copy may overlap its own output.
fn copy_overlapping(out: &mut Vec<u8>, start: usize, n: usize)
    requires
        start < old(out)@.len(),
        old(out)@.len() + n <= usize::MAX,
    ensures
        final(out)@ == copy_run(old(out)@, start as int, n as nat),
        final(out)@.len() == old(out)@.len() + n,
{
    let mut k: usize = 0;
    let mut src: usize = start;
    while k < n
        invariant
            k <= n,
            src == start + k,
            out@.len() == old(out)@.len() + k,
            start < old(out)@.len(),
            old(out)@.len() + n <= usize::MAX,
            copy_run(old(out)@, start as int, n as nat) == copy_run(out@, src as int, (n - k) as nat),
        decreases n - k,
    {
        let b = out[src];
        out.push(b);
        src = src + 1;
        k = k + 1;
    }
}

/// Expands one Carmack-compressed buffer.  The result is exactly what
/// `carmack_spec` says of the input bytes, success and error alike.
pub fn carmack_expand(compressed: &[u8]) -> (r: Result<Vec<u8>, WolfError>)
    ensures
        ok_bytes(r) == carmack_spec(compressed@),
{
    let n = compressed.len();
    if n < 2 {
        return Err(WolfError::Format);
    }
    let size = read_size(compressed);
    let mut remaining: usize = size / 2;
    let mut pos: usize = 2;
    let mut out: Vec<u8> = Vec::new();
    while remaining > 0
        invariant
            n == compressed@.len(),
            n >= 2,
            2 <= pos <= n,
            size == le16_at(compressed@, 0),
            out@.len() + 2 * remaining <= 0x1_0000,
            carmack_words(compressed@, pos as int, out@, remaining as nat) == carmack_words(
                compressed@,
                2,
                Seq::empty(),
                (le16_at(compressed@, 0) / 2) as nat,
            ),
        decreases remaining,
    {
        if n - pos < 2 {
            return Err(WolfError::Format);
        }
        let count = compressed[pos] as usize;
        let marker = compressed[pos + 1];
        if marker == 0xA7 || marker == 0xA8 {
            if count == 0 {
                if n - pos < 3 {
                    return Err(WolfError::Format);
                }
                out.push(compressed[pos + 2]);
                pos = pos + 3;
                remaining = remaining - 1;
            } else if count > remaining {
                return Err(WolfError::Format);
            } else if marker == 0xA7 {
                if n - pos < 3 {
                    return Err(WolfError::Format);
                }
                let dist = compressed[pos + 2] as usize;
                if 1 <= dist && 2 * dist <= out.len() {
                    let start = out.len() - 2 * dist;
                    copy_overlapping(&mut out, start, 2 * count);
                    pos = pos + 3;
                    remaining = remaining - count;
                } else {
                    return Err(WolfError::Bounds);
                }
            } else {
                if n - pos < 4 {
                    return Err(WolfError::Format);
                }
                let start = 2 * (crate::wordio::read_u16_le(compressed, pos + 2) as usize);
                if start < out.len() {
                    copy_overlapping(&mut out, start, 2 * count);
                    pos = pos + 4;
                    remaining = remaining - count;
                } else {
                    return Err(WolfError::Bounds);
                }
            }
        } else {
            out.push(compressed[pos]);
            out.push(compressed[pos + 1]);
            pos = pos + 2;
            remaining = remaining - 1;
        }
    }
    if out.len() == size {
        Ok(out)
    } else {
        Err(WolfError::Format)
    }
}

/// Reads the leading decompressed-size word.
fn read_size(compressed: &[u8]) -> (r: usize)
    requires
        compressed@.len() >= 2,
    ensures
        r == le16_at(compressed@, 0),
{
    crate::wordio::read_u16_le(compressed, 0) as usize
}

/// A reference encoder: the size word followed by the data itself, every
/// word passed through literally.  It covers exactly the buffers whose
/// words never collide with the two copy markers (see `carmack_plain`).
pub open spec fn carmack_encode(x: Seq<u8>) -> Seq<u8> {
    seq![(x.len() % 0x100) as u8, (x.len() / 0x100) as u8] + x
}

/// No 16-bit word of `x` has `0xA7` or `0xA8` as its high byte, so every
/// word of `x` survives the stream as a literal.
pub open spec fn carmack_plain(x: Seq<u8>) -> bool {
    forall|i: int| 0 <= i < x.len() && i % 2 == 1 ==> x[i] != 0xA7 && x[i] != 0xA8
}

proof fn lemma_carmack_literal_words(input: Seq<u8>, pos: int, out: Seq<u8>, x: Seq<u8>, k: int)
    requires
        0 <= pos <= input.len(),
        0 <= k <= x.len(),
        input.len() - pos == x.len() - k,
        x.len() % 2 == 0,
        k % 2 == 0,
        carmack_plain(x),
        forall|j: int| k <= j < x.len() ==> input[pos + (j - k)] == #[trigger] x[j],
    ensures
        carmack_words(input, pos, out, ((x.len() - k) / 2) as nat) == Ok::<Seq<u8>, WolfError>(
            out + x.subrange(k, x.len() as int),
        ),
    decreases x.len() - k,
{
    if k == x.len() {
        assert(out + x.subrange(k, x.len() as int) =~= out);
    } else {
        assert(input[pos] == x[k]);
        assert(input[pos + 1] == x[k + 1]);
        assert(x[k + 1] != 0xA7 && x[k + 1] != 0xA8);
        lemma_carmack_literal_words(input, pos + 2, out.push(x[k]).push(x[k + 1]), x, k + 2);
        assert(out.push(x[k]).push(x[k + 1]) + x.subrange(k + 2, x.len() as int) =~= out
            + x.subrange(k, x.len() as int));
        assert(((x.len() - k) / 2) as nat == ((x.len() - k - 2) / 2 + 1) as nat);
    }
}

/// Round trip: a buffer of even length below 64 KiB whose words avoid the
/// two copy markers is returned unchanged by the decompressor when framed
/// by the reference encoder.
pub proof fn carmack_round_trip(x: Seq<u8>)
    requires
        x.len() % 2 == 0,
        x.len() < 0x1_0000,
        carmack_plain(x),
    ensures
        carmack_spec(carmack_encode(x)) == Ok::<Seq<u8>, WolfError>(x),
{
    let input = carmack_encode(x);
    assert(input.len() == x.len() + 2);
    assert(input[0] == (x.len() % 0x100) as u8);
    assert(input[1] == (x.len() / 0x100) as u8);
    assert(le16_at(input, 0) == x.len()) by {
        vstd::arithmetic::div_mod::lemma_fundamental_div_mod(x.len() as int, 0x100);
    }
    assert(forall|j: int| 0 <= j < x.len() ==> input[2 + j] == #[trigger] x[j]);
    lemma_carmack_literal_words(input, 2, Seq::empty(), x, 0);
    assert(Seq::<u8>::empty() + x.subrange(0, x.len() as int) =~= x);
}

} // verus!
