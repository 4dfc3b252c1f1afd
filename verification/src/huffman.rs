//! The fixed-tree Huffman decompressor of the graphics archive.
//!
//! The dictionary is an array of 255 nodes of two 16-bit children each;
//! node 254 is the root.  A child value of at most 255 is a literal
//! byte; a larger value, less 256, is the index of the next node.  Input
//! bytes are walked bit 0 to bit 7; a set bit follows `bit1`, a clear
//! bit `bit0`.

use vstd::prelude::*;

use crate::gr::GrArchiveError;

verus! {

/// One node of the Huffman dictionary.
#[derive(Clone, Copy, Debug, PartialEq, Eq, Structural)]
pub struct HuffNode {
    pub bit0: u16,
    pub bit1: u16,
}

/// The child of `node` chosen by one bit.
pub open spec fn huff_child(dict: Seq<HuffNode>, node: int, one: bool) -> int {
    if one {
        dict[node].bit1 as int
    } else {
        dict[node].bit0 as int
    }
}

/// Whether bit `bit` (0 = least significant) of the byte at `pos` is set.
pub open spec fn bit_set(input: Seq<u8>, pos: int, bit: int) -> bool {
    (input[pos] >> (bit as u8)) & 1 == 1
}

/// One bit of the walk per unfolding: the bytes decoded from `input`
/// onward, appended to `out`, stopping when the input is exhausted.
/// A child node index beyond the dictionary is malformed.
pub open spec fn huff_all(
    dict: Seq<HuffNode>,
    input: Seq<u8>,
    pos: int,
    bit: int,
    node: int,
    out: Seq<u8>,
) -> Result<Seq<u8>, GrArchiveError>
    decreases input.len() - pos, 8 - bit,
{
    if pos >= input.len() {
        Ok(out)
    } else {
        let child = huff_child(dict, node, bit_set(input, pos, bit));
        if child <= 255 {
            if bit >= 7 {
                huff_all(dict, input, pos + 1, 0, 254, out.push(child as u8))
            } else {
                huff_all(dict, input, pos, bit + 1, 254, out.push(child as u8))
            }
        } else if child - 256 >= dict.len() {
            Err(GrArchiveError::Format)
        } else {
            if bit >= 7 {
                huff_all(dict, input, pos + 1, 0, child - 256, out)
            } else {
                huff_all(dict, input, pos, bit + 1, child - 256, out)
            }
        }
    }
}

/// The same walk, stopping as soon as `target` bytes have been decoded;
/// an input that runs out first is malformed.
pub open spec fn huff_len(
    dict: Seq<HuffNode>,
    input: Seq<u8>,
    pos: int,
    bit: int,
    node: int,
    out: Seq<u8>,
    target: int,
) -> Result<Seq<u8>, GrArchiveError>
    decreases input.len() - pos, 8 - bit,
{
    if out.len() >= target {
        Ok(out)
    } else if pos >= input.len() {
        Err(GrArchiveError::Format)
    } else {
        let child = huff_child(dict, node, bit_set(input, pos, bit));
        if child <= 255 {
            if bit >= 7 {
                huff_len(dict, input, pos + 1, 0, 254, out.push(child as u8), target)
            } else {
                huff_len(dict, input, pos, bit + 1, 254, out.push(child as u8), target)
            }
        } else if child - 256 >= dict.len() {
            Err(GrArchiveError::Format)
        } else {
            if bit >= 7 {
                huff_len(dict, input, pos + 1, 0, child - 256, out, target)
            } else {
                huff_len(dict, input, pos, bit + 1, child - 256, out, target)
            }
        }
    }
}

/// The size-bounded walk never overshoots: whenever it succeeds from a
/// state not already past `target`, it has decoded exactly `target`
/// bytes.
pub proof fn lemma_huff_len_exact(
    dict: Seq<HuffNode>,
    input: Seq<u8>,
    pos: int,
    bit: int,
    node: int,
    out: Seq<u8>,
    target: int,
)
    requires
        out.len() <= target,
        huff_len(dict, input, pos, bit, node, out, target) is Ok,
    ensures
        huff_len(dict, input, pos, bit, node, out, target)->Ok_0.len() == target,
    decreases input.len() - pos, 8 - bit,
{
    if out.len() >= target {
    } else if pos >= input.len() {
    } else {
        let child = huff_child(dict, node, bit_set(input, pos, bit));
        if child <= 255 {
            if bit >= 7 {
                lemma_huff_len_exact(dict, input, pos + 1, 0, 254, out.push(child as u8), target);
            } else {
                lemma_huff_len_exact(dict, input, pos, bit + 1, 254, out.push(child as u8), target);
            }
        } else if child - 256 >= dict.len() {
        } else {
            if bit >= 7 {
                lemma_huff_len_exact(dict, input, pos + 1, 0, child - 256, out, target);
            } else {
                lemma_huff_len_exact(dict, input, pos, bit + 1, child - 256, out, target);
            }
        }
    }
}

/// Decodes `input` until exactly `target` bytes have come out.
pub fn huff_expand_len(dict: &Vec<HuffNode>, input: &[u8], target: usize) -> (r: Result<
    Vec<u8>,
    GrArchiveError,
>)
    requires
        dict@.len() == 255,
    ensures
        crate::gr::ok_gr_bytes(r) == huff_len(dict@, input@, 0, 0, 254, Seq::empty(), target as int),
{
    let n = input.len();
    let mut pos: usize = 0;
    let mut bit: u8 = 0;
    let mut node: usize = 254;
    let mut out: Vec<u8> = Vec::new();
    while out.len() < target
        invariant
            n == input@.len(),
            dict@.len() == 255,
            pos <= n,
            bit < 8,
            node < 255,
            out@.len() <= target,
            huff_len(dict@, input@, pos as int, bit as int, node as int, out@, target as int)
                == huff_len(dict@, input@, 0, 0, 254, Seq::empty(), target as int),
        decreases n - pos, 8 - bit,
    {
        if pos >= n {
            return Err(GrArchiveError::Format);
        }
        let c = input[pos];
        let one = ((c >> bit) & 1) == 1;
        let child = if one {
            dict[node].bit1
        } else {
            dict[node].bit0
        };
        if child <= 255 {
            out.push(child as u8);
            node = 254;
        } else if child as usize - 256 >= 255 {
            return Err(GrArchiveError::Format);
        } else {
            node = child as usize - 256;
        }
        if bit == 7 {
            bit = 0;
            pos = pos + 1;
        } else {
            bit = bit + 1;
        }
    }
    Ok(out)
}

/// Decodes `input` until the last byte's last bit has been consumed.
/// Running out of input mid-walk is the stream's normal end, not an
/// error; only a child index beyond the dictionary is malformed.
pub fn huff_expand_all(dict: &Vec<HuffNode>, input: &[u8]) -> (r: Result<Vec<u8>, GrArchiveError>)
    requires
        dict@.len() == 255,
    ensures
        crate::gr::ok_gr_bytes(r) == huff_all(dict@, input@, 0, 0, 254, Seq::empty()),
{
    let n = input.len();
    let mut pos: usize = 0;
    let mut bit: u8 = 0;
    let mut node: usize = 254;
    let mut out: Vec<u8> = Vec::new();
    while pos < n
        invariant
            n == input@.len(),
            dict@.len() == 255,
            pos <= n,
            bit < 8,
            node < 255,
            huff_all(dict@, input@, pos as int, bit as int, node as int, out@) == huff_all(
                dict@,
                input@,
                0,
                0,
                254,
                Seq::empty(),
            ),
        decreases n - pos, 8 - bit,
    {
        let c = input[pos];
        let one = ((c >> bit) & 1) == 1;
        let child = if one {
            dict[node].bit1
        } else {
            dict[node].bit0
        };
        if child <= 255 {
            out.push(child as u8);
            node = 254;
        } else if child as usize - 256 >= 255 {
            return Err(GrArchiveError::Format);
        } else {
            node = child as usize - 256;
        }
        if bit == 7 {
            bit = 0;
            pos = pos + 1;
        } else {
            bit = bit + 1;
        }
    }
    Ok(out)
}

} // verus!
