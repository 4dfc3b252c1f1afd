//! The RLEW run-length decompressor.
//!
//! A compressed buffer opens with a little-endian 16-bit word giving the
//! decompressed size in bytes; the remainder is a stream of 16-bit
//! words.  A word equal to the caller-supplied tag announces a run: the
//! two following words are a repeat count and a value, and the value is
//! emitted `count` times.  Any other word is emitted once.  Words are
//! emitted low byte first.

use vstd::prelude::*;

use crate::wordio::le16_at;
use crate::WolfError;
use crate::ok_bytes;

verus! {

/// `n` copies of the 16-bit word `(lo, hi)`, low byte first.
pub open spec fn repeat_word(lo: u8, hi: u8, n: nat) -> Seq<u8>
    decreases n,
{
    if n == 0 {
        Seq::empty()
    } else {
        repeat_word(lo, hi, (n - 1) as nat).push(lo).push(hi)
    }
}

/// One word of the stream per unfolding: the decoded output once the
/// stream at byte position `pos` has been expanded after `out`, stopping
/// as soon as `size` bytes are reached and demanding an exact landing.
pub open spec fn rlew_words(input: Seq<u8>, pos: int, out: Seq<u8>, size: int, tag: int) -> Result<
    Seq<u8>,
    WolfError,
>
    decreases input.len() - pos,
{
    if out.len() >= size {
        if out.len() == size {
            Ok(out)
        } else {
            Err(WolfError::Format)
        }
    } else if pos + 2 > input.len() {
        Err(WolfError::Format)
    } else if le16_at(input, pos) != tag {
        rlew_words(input, pos + 2, out.push(input[pos]).push(input[pos + 1]), size, tag)
    } else if pos + 6 > input.len() {
        Err(WolfError::Format)
    } else {
        rlew_words(
            input,
            pos + 6,
            out + repeat_word(input[pos + 4], input[pos + 5], le16_at(input, pos + 2) as nat),
            size,
            tag,
        )
    }
}

/// The whole scheme: read the size word, then expand words until exactly
/// `size` bytes have been emitted.
pub open spec fn rlew_spec(input: Seq<u8>, tag: int) -> Result<Seq<u8>, WolfError> {
    if input.len() < 2 {
        Err(WolfError::Format)
    } else {
        rlew_words(input, 2, Seq::empty(), le16_at(input, 0), tag)
    }
}

/// Appends `n` copies of the word `(lo, hi)` to `out`.
fn push_run(out: &mut Vec<u8>, lo: u8, hi: u8, n: usize)
    ensures
        final(out)@ == old(out)@ + repeat_word(lo, hi, n as nat),
        final(out)@.len() == old(out)@.len() + 2 * n,
{
    let mut k: usize = 0;
    while k < n
        invariant
            k <= n,
            out@ == old(out)@ + repeat_word(lo, hi, k as nat),
            out@.len() == old(out)@.len() + 2 * k,
        decreases n - k,
    {
        out.push(lo);
        out.push(hi);
        k = k + 1;
    }
}

/// Expands one RLEW-compressed buffer under the given tag word.  The
/// result is exactly what `rlew_spec` says of the input bytes.
pub fn rlew_expand(compressed: &[u8], rlewtag: u16) -> (r: Result<Vec<u8>, WolfError>)
    ensures
        ok_bytes(r) == rlew_spec(compressed@, rlewtag as int),
{
    let n = compressed.len();
    if n < 2 {
        return Err(WolfError::Format);
    }
    let size = crate::wordio::read_u16_le(compressed, 0) as usize;
    let mut pos: usize = 2;
    let mut out: Vec<u8> = Vec::new();
    while out.len() < size
        invariant
            n == compressed@.len(),
            n >= 2,
            2 <= pos <= n,
            size == le16_at(compressed@, 0),
            out@.len() <= size + 2 * 0xFFFF,
            rlew_words(compressed@, pos as int, out@, size as int, rlewtag as int) == rlew_words(
                compressed@,
                2,
                Seq::empty(),
                le16_at(compressed@, 0),
                rlewtag as int,
            ),
        decreases n - pos,
    {
        if n - pos < 2 {
            return Err(WolfError::Format);
        }
        let value = crate::wordio::read_u16_le(compressed, pos);
        if value != rlewtag {
            out.push(compressed[pos]);
            out.push(compressed[pos + 1]);
            pos = pos + 2;
        } else {
            if n - pos < 6 {
                return Err(WolfError::Format);
            }
            let count = crate::wordio::read_u16_le(compressed, pos + 2) as usize;
            push_run(&mut out, compressed[pos + 4], compressed[pos + 5], count);
            pos = pos + 6;
        }
    }
    if out.len() == size {
        Ok(out)
    } else {
        Err(WolfError::Format)
    }
}

/// A reference encoder: each word of `x` is passed through literally,
/// except a word equal to the tag, which is written as a run of one so
/// that literal data can never collide with the tag.
pub open spec fn rlew_encode_from(x: Seq<u8>, k: int, tag: int) -> Seq<u8>
    decreases x.len() - k,
{
    if k + 2 > x.len() {
        Seq::empty()
    } else if le16_at(x, k) == tag {
        seq![x[k], x[k + 1], 1u8, 0u8, x[k], x[k + 1]] + rlew_encode_from(x, k + 2, tag)
    } else {
        seq![x[k], x[k + 1]] + rlew_encode_from(x, k + 2, tag)
    }
}

/// The reference encoder for a whole buffer: the size word, then the
/// encoded word stream.
pub open spec fn rlew_encode(x: Seq<u8>, tag: int) -> Seq<u8> {
    seq![(x.len() % 0x100) as u8, (x.len() / 0x100) as u8] + rlew_encode_from(x, 0, tag)
}

proof fn lemma_rlew_decode(
    input: Seq<u8>,
    pos: int,
    out: Seq<u8>,
    x: Seq<u8>,
    k: int,
    size: int,
    tag: int,
)
    requires
        0 <= pos <= input.len(),
        0 <= k <= x.len(),
        x.len() % 2 == 0,
        k % 2 == 0,
        input.len() - pos == rlew_encode_from(x, k, tag).len(),
        forall|j: int|
            0 <= j < input.len() - pos ==> input[pos + j] == #[trigger] rlew_encode_from(
                x,
                k,
                tag,
            )[j],
        size == out.len() + (x.len() - k),
    ensures
        rlew_words(input, pos, out, size, tag) == Ok::<Seq<u8>, WolfError>(
            out + x.subrange(k, x.len() as int),
        ),
    decreases x.len() - k,
{
    let enc = rlew_encode_from(x, k, tag);
    if k == x.len() {
        assert(out + x.subrange(k, x.len() as int) =~= out);
    } else {
        let rest = rlew_encode_from(x, k + 2, tag);
        if le16_at(x, k) == tag {
            assert(enc == seq![x[k], x[k + 1], 1u8, 0u8, x[k], x[k + 1]] + rest);
            assert(input[pos] == enc[0] && input[pos + 1] == enc[1]);
            assert(input[pos + 2] == enc[2] && input[pos + 3] == enc[3]);
            assert(input[pos + 4] == enc[4] && input[pos + 5] == enc[5]);
            assert(le16_at(input, pos) == tag);
            assert(le16_at(input, pos + 2) == 1);
            let run = repeat_word(input[pos + 4], input[pos + 5], 1);
            assert(run == seq![x[k], x[k + 1]]) by {
                reveal_with_fuel(repeat_word, 2);
                assert(repeat_word(x[k], x[k + 1], 1) =~= seq![x[k], x[k + 1]]);
            }
            assert forall|j: int| 0 <= j < input.len() - (pos + 6) implies input[pos + 6 + j]
                == #[trigger] rest[j] by {
                assert(input[pos + (j + 6)] == rlew_encode_from(x, k, tag)[j + 6]);
            }
            lemma_rlew_decode(input, pos + 6, out + run, x, k + 2, size, tag);
            assert((out + run) + x.subrange(k + 2, x.len() as int) =~= out + x.subrange(
                k,
                x.len() as int,
            ));
        } else {
            assert(enc == seq![x[k], x[k + 1]] + rest);
            assert(input[pos] == enc[0] && input[pos + 1] == enc[1]);
            assert(le16_at(input, pos) == le16_at(x, k));
            assert forall|j: int| 0 <= j < input.len() - (pos + 2) implies input[pos + 2 + j]
                == #[trigger] rest[j] by {
                assert(input[pos + (j + 2)] == rlew_encode_from(x, k, tag)[j + 2]);
            }
            lemma_rlew_decode(input, pos + 2, out.push(x[k]).push(x[k + 1]), x, k + 2, size, tag);
            assert(out.push(x[k]).push(x[k + 1]) + x.subrange(k + 2, x.len() as int) =~= out
                + x.subrange(k, x.len() as int));
        }
    }
}

/// Round trip: a buffer of even length below 64 KiB is returned
/// unchanged by the decompressor when framed by the reference encoder,
/// whatever tag word is chosen, because the encoder escapes a literal
/// word equal to the tag as a run of one.
pub proof fn rlew_round_trip(x: Seq<u8>, tag: int)
    requires
        x.len() % 2 == 0,
        x.len() < 0x1_0000,
    ensures
        rlew_spec(rlew_encode(x, tag), tag) == Ok::<Seq<u8>, WolfError>(x),
{
    let input = rlew_encode(x, tag);
    let enc = rlew_encode_from(x, 0, tag);
    assert(input == seq![(x.len() % 0x100) as u8, (x.len() / 0x100) as u8] + enc);
    assert(input[0] == (x.len() % 0x100) as u8 && input[1] == (x.len() / 0x100) as u8);
    assert(le16_at(input, 0) == x.len()) by {
        vstd::arithmetic::div_mod::lemma_fundamental_div_mod(x.len() as int, 0x100);
    }
    assert forall|j: int| 0 <= j < input.len() - 2 implies input[2 + j] == #[trigger] enc[j] by {
    }
    lemma_rlew_decode(input, 2, Seq::empty(), x, 0, x.len() as int, tag);
    assert(Seq::<u8>::empty() + x.subrange(0, x.len() as int) =~= x);
}

} // verus!
