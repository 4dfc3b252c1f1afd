//! The VSWAP archive reader: wall textures, sprites and digitized sound.
//!
//! The file opens with a chunk count and two pivot indices, then one
//! 32-bit offset and one 16-bit length per chunk, then the raw chunk
//! bytes.  Every chunk but the last is sliced out and partitioned into
//! walls, sprites and sounds by the pivots.  The last chunk is the PCM
//! descriptor table; each of its entries names the first raw sound
//! chunk and the true byte length of one digitized sound, and the sound
//! is rebuilt by concatenating the raw chunks up to the next entry's
//! start and cutting the block padding off at the true length.

use vstd::prelude::*;
use vstd::math::min;
use vstd::math::max;
use vstd::slice::slice_subrange;
use vstd::slice::slice_to_vec;

use crate::wordio::le16_at;
use crate::wordio::le32_at;
use crate::WolfError;

verus! {

/// One entry of the PCM descriptor table.
#[derive(Clone, Copy, Debug, PartialEq, Eq, Structural)]
pub struct PCMInfo {
    pub chunk_start_index: u16,
    pub length: u16,
}

/// The decoded archive: raw wall chunks, raw sprite chunks, and the
/// digitized sounds rebuilt from the raw sound chunks.
#[derive(Debug, PartialEq, Eq)]
pub struct VSWAPArchive {
    pub wall_chunks: Vec<Vec<u8>>,
    pub sprite_chunks: Vec<Vec<u8>>,
    pub raw_pcm_chunks: Vec<Vec<u8>>,
}

/// The mathematical value of a list of byte buffers.
pub open spec fn bufs(s: Seq<Vec<u8>>) -> Seq<Seq<u8>> {
    s.map_values(|v: Vec<u8>| v@)
}

/// The chunk count of the header.
pub open spec fn chunk_count(b: Seq<u8>) -> int {
    le16_at(b, 0)
}

/// The first sprite chunk index.
pub open spec fn sprite_start(b: Seq<u8>) -> int {
    le16_at(b, 2)
}

/// The first sound chunk index.
pub open spec fn sound_start(b: Seq<u8>) -> int {
    le16_at(b, 4)
}

/// The 32-bit data offset of chunk `i`.
pub open spec fn chunk_offset(b: Seq<u8>, i: int) -> int {
    le32_at(b, 6 + 4 * i)
}

/// The 16-bit length of chunk `i`.
pub open spec fn chunk_len(b: Seq<u8>, i: int) -> int {
    le16_at(b, 6 + 4 * chunk_count(b) + 2 * i)
}

/// The header is complete: it holds the three counts and both tables,
/// and there is at least the one descriptor chunk.
pub open spec fn header_ok(b: Seq<u8>) -> bool {
    b.len() >= 6 && chunk_count(b) >= 1 && 6 + 6 * chunk_count(b) <= b.len()
}

/// Chunk `i` lies inside the file.
pub open spec fn chunk_ok(b: Seq<u8>, i: int) -> bool {
    chunk_offset(b, i) + chunk_len(b, i) <= b.len()
}

/// Every chunk of the table lies inside the file.
pub open spec fn chunks_ok(b: Seq<u8>) -> bool {
    forall|i: int| 0 <= i < chunk_count(b) ==> chunk_ok(b, i)
}

/// The raw bytes of chunk `i`.
pub open spec fn chunk_bytes(b: Seq<u8>, i: int) -> Seq<u8> {
    b.subrange(chunk_offset(b, i), chunk_offset(b, i) + chunk_len(b, i))
}

/// How many of the first `m` data chunks are wall chunks.
pub open spec fn wall_hi(b: Seq<u8>, m: int) -> int {
    min(sprite_start(b), m)
}

/// One past the last sprite index among the first `m` data chunks.
pub open spec fn sprite_hi(b: Seq<u8>, m: int) -> int {
    min(max(sound_start(b), sprite_start(b)), m)
}

/// The wall chunks among the first `m` data chunks.
pub open spec fn walls_pre(b: Seq<u8>, m: int) -> Seq<Seq<u8>> {
    Seq::new(wall_hi(b, m) as nat, |j: int| chunk_bytes(b, j))
}

/// The sprite chunks among the first `m` data chunks.
pub open spec fn sprites_pre(b: Seq<u8>, m: int) -> Seq<Seq<u8>> {
    Seq::new(
        (sprite_hi(b, m) - wall_hi(b, m)) as nat,
        |j: int| chunk_bytes(b, sprite_start(b) + j),
    )
}

/// The raw sound chunks among the first `m` data chunks.
pub open spec fn sounds_pre(b: Seq<u8>, m: int) -> Seq<Seq<u8>> {
    Seq::new((m - sprite_hi(b, m)) as nat, |j: int| chunk_bytes(b, sprite_hi(b, m) + j))
}

/// The wall chunks of the archive: every data chunk below the sprite
/// pivot, the descriptor chunk excluded.
pub open spec fn walls_spec(b: Seq<u8>) -> Seq<Seq<u8>> {
    walls_pre(b, chunk_count(b) - 1)
}

/// The sprite chunks of the archive.
pub open spec fn sprites_spec(b: Seq<u8>) -> Seq<Seq<u8>> {
    sprites_pre(b, chunk_count(b) - 1)
}

/// The raw sound chunks of the archive, block padding still in place.
pub open spec fn sounds_spec(b: Seq<u8>) -> Seq<Seq<u8>> {
    sounds_pre(b, chunk_count(b) - 1)
}

/// The data offset of the PCM descriptor table (the last chunk).
pub open spec fn pcm_table_off(b: Seq<u8>) -> int {
    chunk_offset(b, chunk_count(b) - 1)
}

/// The number of descriptor entries.
pub open spec fn pcm_count(b: Seq<u8>) -> int {
    chunk_len(b, chunk_count(b) - 1) / 4
}

/// The starting raw sound chunk of descriptor entry `j`.
pub open spec fn pcm_entry_start(b: Seq<u8>, j: int) -> int {
    le16_at(b, pcm_table_off(b) + 4 * j)
}

/// The true byte length of descriptor entry `j`.
pub open spec fn pcm_entry_len(b: Seq<u8>, j: int) -> int {
    le16_at(b, pcm_table_off(b) + 4 * j + 2)
}

/// Consecutive descriptor entries name a well-formed, ordered range of
/// raw sound chunks.
pub open spec fn pcm_ok(b: Seq<u8>) -> bool {
    forall|j: int|
        0 <= j < pcm_count(b) - 1 ==> #[trigger] pcm_entry_start(b, j) <= pcm_entry_start(b, j + 1)
            && pcm_entry_start(b, j + 1) <= sounds_spec(b).len()
}

/// The first `n` bytes of `s`, or all of it when it is shorter.
pub open spec fn take_at_most(s: Seq<u8>, n: int) -> Seq<u8> {
    if s.len() <= n {
        s
    } else {
        s.take(n)
    }
}

/// Digitized sound `j`: the raw sound chunks from its descriptor entry
/// up to the next entry's start, concatenated and cut to the true
/// length, so that block padding never reaches the caller.
pub open spec fn pcm_chunk_spec(b: Seq<u8>, j: int) -> Seq<u8> {
    take_at_most(
        sounds_spec(b).subrange(pcm_entry_start(b, j), pcm_entry_start(b, j + 1)).flatten(),
        pcm_entry_len(b, j),
    )
}

/// The number of digitized sounds: one per descriptor entry but the
/// last, which only delimits the table.
pub open spec fn pcm_out_count(b: Seq<u8>) -> int {
    if pcm_count(b) >= 1 {
        pcm_count(b) - 1
    } else {
        0
    }
}

/// Every digitized sound of the archive.
pub open spec fn pcm_chunks_spec(b: Seq<u8>) -> Seq<Seq<u8>> {
    Seq::new(pcm_out_count(b) as nat, |j: int| pcm_chunk_spec(b, j))
}

/// Padding never reaches a digitized sound: whenever the raw chunks of
/// descriptor entry `j` hold at least the entry's true length, the
/// rebuilt sound is exactly the first `length` bytes of their
/// concatenation, trailing padding excluded.
pub proof fn pcm_padding_cut(b: Seq<u8>, j: int)
    requires
        sounds_spec(b).subrange(pcm_entry_start(b, j), pcm_entry_start(b, j + 1)).flatten().len()
            >= pcm_entry_len(b, j),
    ensures
        pcm_chunk_spec(b, j).len() == pcm_entry_len(b, j),
        pcm_chunk_spec(b, j) == sounds_spec(b).subrange(
            pcm_entry_start(b, j),
            pcm_entry_start(b, j + 1),
        ).flatten().take(pcm_entry_len(b, j)),
{
    let flat = sounds_spec(b).subrange(pcm_entry_start(b, j), pcm_entry_start(b, j + 1)).flatten();
    if flat.len() == pcm_entry_len(b, j) {
        assert(flat.take(pcm_entry_len(b, j)) =~= flat);
    }
}

/// The file decodes into an archive.
pub open spec fn vswap_wf(b: Seq<u8>) -> bool {
    header_ok(b) && chunks_ok(b) && pcm_ok(b)
}

/// The error when it does not: a short or empty table is malformed,
/// anything else that fails is an offset or range out of bounds.
pub open spec fn vswap_err(b: Seq<u8>) -> WolfError {
    if !header_ok(b) {
        WolfError::Format
    } else {
        WolfError::Bounds
    }
}

impl VSWAPArchive {
    /// Decodes a whole VSWAP file.  Success is owed exactly on
    /// well-formed files, and then each of the three lists is exactly
    /// its spec: walls and sprites raw, sounds rebuilt and cut to their
    /// descriptor lengths.
    #[verifier::rlimit(60)]
    pub fn open(file: &[u8]) -> (r: Result<VSWAPArchive, WolfError>)
        ensures
            r is Ok <==> vswap_wf(file@),
            match r {
                Ok(a) => {
                    &&& bufs(a.wall_chunks@) == walls_spec(file@)
                    &&& bufs(a.sprite_chunks@) == sprites_spec(file@)
                    &&& bufs(a.raw_pcm_chunks@) == pcm_chunks_spec(file@)
                },
                Err(e) => e == vswap_err(file@),
            },
    {
        let n = file.len();
        if n < 6 {
            return Err(WolfError::Format);
        }
        let count = crate::wordio::read_u16_le(file, 0) as usize;
        if count == 0 {
            return Err(WolfError::Format);
        }
        let ss = crate::wordio::read_u16_le(file, 2) as usize;
        let snd = crate::wordio::read_u16_le(file, 4) as usize;
        if (n - 6) / 6 < count {
            return Err(WolfError::Format);
        }
        assert(header_ok(file@));
        // every chunk of the table must lie inside the file
        let mut i: usize = 0;
        while i < count
            invariant
                n == file@.len(),
                count == chunk_count(file@),
                header_ok(file@),
                i <= count,
                forall|t: int| 0 <= t < i ==> chunk_ok(file@, t),
            decreases count - i,
        {
            let off = crate::wordio::read_u32_le(file, 6 + 4 * i) as usize;
            let len = crate::wordio::read_u16_le(file, 6 + 4 * count + 2 * i) as usize;
            if off > n || n - off < len {
                assert(!chunk_ok(file@, i as int));
                return Err(WolfError::Bounds);
            }
            i = i + 1;
        }
        assert(chunks_ok(file@));
        // slice every data chunk and partition it by the two pivots
        let mut wall_chunks: Vec<Vec<u8>> = Vec::new();
        let mut sprite_chunks: Vec<Vec<u8>> = Vec::new();
        let mut sound_chunks: Vec<Vec<u8>> = Vec::new();
        let mut i: usize = 0;
        while i < count - 1
            invariant
                n == file@.len(),
                count == chunk_count(file@),
                ss == sprite_start(file@),
                snd == sound_start(file@),
                header_ok(file@),
                chunks_ok(file@),
                i <= count - 1,
                bufs(wall_chunks@) == walls_pre(file@, i as int),
                bufs(sprite_chunks@) == sprites_pre(file@, i as int),
                bufs(sound_chunks@) == sounds_pre(file@, i as int),
            decreases count - i,
        {
            let off = crate::wordio::read_u32_le(file, 6 + 4 * i) as usize;
            let len = crate::wordio::read_u16_le(file, 6 + 4 * count + 2 * i) as usize;
            assert(chunk_ok(file@, i as int));
            let buffer = slice_to_vec(slice_subrange(file, off, off + len));
            assert(buffer@ == chunk_bytes(file@, i as int));
            let ghost pw = wall_chunks@;
            let ghost ps = sprite_chunks@;
            let ghost pd = sound_chunks@;
            if i < ss {
                wall_chunks.push(buffer);
                proof {
                    assert(bufs(pw.push(wall_chunks@[pw.len() as int])) =~= bufs(pw).push(
                        chunk_bytes(file@, i as int),
                    ));
                    assert(bufs(wall_chunks@) =~= walls_pre(file@, i + 1));
                    assert(bufs(sprite_chunks@) =~= sprites_pre(file@, i + 1));
                    assert(bufs(sound_chunks@) =~= sounds_pre(file@, i + 1));
                }
            } else if i < snd {
                sprite_chunks.push(buffer);
                proof {
                    assert(bufs(ps.push(sprite_chunks@[ps.len() as int])) =~= bufs(ps).push(
                        chunk_bytes(file@, i as int),
                    ));
                    assert(bufs(wall_chunks@) =~= walls_pre(file@, i + 1));
                    assert(bufs(sprite_chunks@) =~= sprites_pre(file@, i + 1));
                    assert(bufs(sound_chunks@) =~= sounds_pre(file@, i + 1));
                }
            } else {
                sound_chunks.push(buffer);
                proof {
                    assert(bufs(pd.push(sound_chunks@[pd.len() as int])) =~= bufs(pd).push(
                        chunk_bytes(file@, i as int),
                    ));
                    assert(bufs(wall_chunks@) =~= walls_pre(file@, i + 1));
                    assert(bufs(sprite_chunks@) =~= sprites_pre(file@, i + 1));
                    assert(bufs(sound_chunks@) =~= sounds_pre(file@, i + 1));
                }
            }
            i = i + 1;
        }
        assert(bufs(wall_chunks@) == walls_spec(file@));
        assert(bufs(sprite_chunks@) == sprites_spec(file@));
        assert(bufs(sound_chunks@) == sounds_spec(file@));
        // read the PCM descriptor table from the last chunk
        let toff = crate::wordio::read_u32_le(file, 6 + 4 * (count - 1)) as usize;
        let tlen = crate::wordio::read_u16_le(file, 6 + 4 * count + 2 * (count - 1)) as usize;
        assert(chunk_ok(file@, count - 1 as int));
        let npcm = tlen / 4;
        // the descriptor entries must name ordered in-range sound spans
        let mut j: usize = 0;
        while npcm >= 1 && j < npcm - 1
            invariant
                n == file@.len(),
                count == chunk_count(file@),
                header_ok(file@),
                chunks_ok(file@),
                toff == pcm_table_off(file@),
                tlen == chunk_len(file@, count - 1 as int),
                toff + tlen <= n,
                npcm == tlen / 4,
                npcm == pcm_count(file@),
                bufs(sound_chunks@) == sounds_spec(file@),
                npcm >= 1 ==> j <= npcm - 1,
                npcm == 0 ==> j == 0,
                forall|t: int|
                    0 <= t < j ==> #[trigger] pcm_entry_start(file@, t) <= pcm_entry_start(
                        file@,
                        t + 1,
                    ) && pcm_entry_start(file@, t + 1) <= sounds_spec(file@).len(),
            decreases npcm - j,
        {
            let a = crate::wordio::read_u16_le(file, toff + 4 * j) as usize;
            let b2 = crate::wordio::read_u16_le(file, toff + 4 * (j + 1)) as usize;
            proof {
                assert(a == pcm_entry_start(file@, j as int));
                assert(b2 == pcm_entry_start(file@, j + 1));
                assert(sound_chunks@.len() == sounds_spec(file@).len());
            }
            if a > b2 || b2 > sound_chunks.len() {
                assert(!pcm_ok(file@));
                return Err(WolfError::Bounds);
            }
            j = j + 1;
        }
        proof {
            if npcm >= 1 {
                assert(j == npcm - 1);
                assert forall|t: int| 0 <= t < pcm_count(file@) - 1 implies #[trigger] pcm_entry_start(
                    file@,
                    t,
                ) <= pcm_entry_start(file@, t + 1) && pcm_entry_start(file@, t + 1) <= sounds_spec(
                    file@,
                ).len() by {
                    assert(0 <= t < j);
                }
            }
        }
        assert(pcm_ok(file@));
        // rebuild each digitized sound and cut it to its true length
        let mut raw_pcm_chunks: Vec<Vec<u8>> = Vec::new();
        let mut j: usize = 0;
        while npcm >= 1 && j < npcm - 1
            invariant
                n == file@.len(),
                count == chunk_count(file@),
                header_ok(file@),
                chunks_ok(file@),
                pcm_ok(file@),
                toff == pcm_table_off(file@),
                tlen == chunk_len(file@, count - 1 as int),
                toff + tlen <= n,
                npcm == tlen / 4,
                npcm == pcm_count(file@),
                bufs(sound_chunks@) == sounds_spec(file@),
                npcm >= 1 ==> j <= npcm - 1,
                npcm == 0 ==> j == 0,
                bufs(raw_pcm_chunks@) == pcm_chunks_spec(file@).subrange(0, j as int),
            decreases npcm - j,
        {
            let a = crate::wordio::read_u16_le(file, toff + 4 * j) as usize;
            let b2 = crate::wordio::read_u16_le(file, toff + 4 * (j + 1)) as usize;
            let want = crate::wordio::read_u16_le(file, toff + 4 * j + 2) as usize;
            proof {
                assert(a == pcm_entry_start(file@, j as int));
                assert(b2 == pcm_entry_start(file@, j + 1));
                assert(want == pcm_entry_len(file@, j as int));
                assert(pcm_entry_start(file@, j as int) <= pcm_entry_start(file@, j + 1)
                    && pcm_entry_start(file@, j + 1) <= sounds_spec(file@).len());
                assert(sound_chunks@.len() == sounds_spec(file@).len());
                assert(bufs(sound_chunks@).subrange(a as int, a as int) =~= Seq::<Seq<u8>>::empty());
                assert(Seq::<Seq<u8>>::empty().flatten() =~= Seq::<u8>::empty());
            }
            let mut outp: Vec<u8> = Vec::new();
            let mut k: usize = a;
            while k < b2
                invariant
                    a <= k <= b2 <= sound_chunks@.len(),
                    bufs(sound_chunks@) == sounds_spec(file@),
                    outp@ == take_at_most(
                        bufs(sound_chunks@).subrange(a as int, k as int).flatten(),
                        want as int,
                    ),
                decreases b2 - k,
            {
                let ghost flat_k = bufs(sound_chunks@).subrange(a as int, k as int).flatten();
                let chunk_len_k = sound_chunks[k].len();
                let mut m: usize = 0;
                while m < chunk_len_k
                    invariant
                        a <= k < b2 <= sound_chunks@.len(),
                        m <= chunk_len_k,
                        chunk_len_k == sound_chunks@[k as int]@.len(),
                        flat_k == bufs(sound_chunks@).subrange(a as int, k as int).flatten(),
                        outp@ == take_at_most(
                            flat_k + sound_chunks@[k as int]@.subrange(0, m as int),
                            want as int,
                        ),
                    decreases chunk_len_k - m,
                {
                    let ghost s = flat_k + sound_chunks@[k as int]@.subrange(0, m as int);
                    let byte = sound_chunks[k][m];
                    proof {
                        assert(flat_k + sound_chunks@[k as int]@.subrange(0, m + 1) =~= s.push(
                            byte,
                        ));
                    }
                    if outp.len() < want {
                        proof {
                            assert(s.len() < want);
                            assert(take_at_most(s.push(byte), want as int) =~= outp@.push(byte));
                        }
                        outp.push(byte);
                    } else {
                        proof {
                            assert(s.len() >= want);
                            assert(take_at_most(s.push(byte), want as int) =~= outp@);
                        }
                    }
                    m = m + 1;
                }
                proof {
                    assert(sound_chunks@[k as int]@.subrange(
                        0,
                        sound_chunks@[k as int]@.len() as int,
                    ) =~= sound_chunks@[k as int]@);
                    assert(bufs(sound_chunks@).subrange(a as int, k + 1) =~= bufs(
                        sound_chunks@,
                    ).subrange(a as int, k as int).push(sound_chunks@[k as int]@));
                    bufs(sound_chunks@).subrange(a as int, k as int).lemma_flatten_push(
                        sound_chunks@[k as int]@,
                    );
                }
                k = k + 1;
            }
            proof {
                assert(outp@ == pcm_chunk_spec(file@, j as int));
            }
            let ghost pr = raw_pcm_chunks@;
            let ghost outv = outp@;
            raw_pcm_chunks.push(outp);
            proof {
                assert(bufs(raw_pcm_chunks@) =~= bufs(pr).push(outv));
                assert(j < pcm_out_count(file@));
                assert(outv == pcm_chunks_spec(file@)[j as int]);
                assert(bufs(raw_pcm_chunks@) =~= pcm_chunks_spec(file@).subrange(0, j + 1));
            }
            j = j + 1;
        }
        assert(bufs(raw_pcm_chunks@) =~= pcm_chunks_spec(file@));
        Ok(VSWAPArchive { wall_chunks, sprite_chunks, raw_pcm_chunks })
    }
}

/// The run-list offset of sprite column `x`.
pub open spec fn sprite_col_off(s: Seq<u8>, x: int) -> int {
    le16_at(s, 4 + 2 * x)
}

/// One opaque run of a sprite column: pixel bytes are taken one at a
/// time from the shared cursor `pix` and written down rows `y` to
/// `y1 - 1` of column `x` of a 64-wide buffer.  Running out of pixel
/// bytes is malformed; a cell outside the buffer is out of bounds.
pub open spec fn render_col_pixels(
    s: Seq<u8>,
    pal: Seq<u32>,
    buf: Seq<u32>,
    x: int,
    y: int,
    y1: int,
    pix: int,
) -> Result<(Seq<u32>, int), WolfError>
    decreases y1 - y,
{
    if y >= y1 {
        Ok((buf, pix))
    } else if pix >= s.len() {
        Err(WolfError::Format)
    } else if y * 64 + x < 0 || y * 64 + x >= buf.len() {
        Err(WolfError::Bounds)
    } else {
        render_col_pixels(s, pal, buf.update(y * 64 + x, pal[s[pix] as int]), x, y + 1, y1, pix + 1)
    }
}

/// The run list of one sprite column, walked from offset `rp`: each
/// run is an ending row, an unused word and a starting row, all doubled
/// in the data, and an ending row of zero closes the column.
pub open spec fn render_runs(
    s: Seq<u8>,
    pal: Seq<u32>,
    buf: Seq<u32>,
    x: int,
    rp: int,
    pix: int,
) -> Result<(Seq<u32>, int), WolfError>
    decreases s.len() - rp,
{
    if rp + 2 > s.len() {
        Err(WolfError::Format)
    } else if le16_at(s, rp) == 0 {
        Ok((buf, pix))
    } else if rp + 6 > s.len() {
        Err(WolfError::Format)
    } else {
        match render_col_pixels(
            s,
            pal,
            buf,
            x,
            le16_at(s, rp + 4) / 2,
            le16_at(s, rp) / 2,
            pix,
        ) {
            Err(e) => Err(e),
            Ok(bp) => render_runs(s, pal, bp.0, x, rp + 6, bp.1),
        }
    }
}

/// Sprite columns `x` to `ncols - 1`, each walked at its run-list
/// offset, the pixel cursor threaded from one column to the next.
pub open spec fn render_cols(
    s: Seq<u8>,
    pal: Seq<u32>,
    buf: Seq<u32>,
    x: int,
    ncols: int,
    pix: int,
) -> Result<Seq<u32>, WolfError>
    decreases ncols - x,
{
    if x >= ncols {
        Ok(buf)
    } else {
        match render_runs(s, pal, buf, x, sprite_col_off(s, x), pix) {
            Err(e) => Err(e),
            Ok(bp) => render_cols(s, pal, bp.0, x + 1, ncols, bp.1),
        }
    }
}

/// A whole sprite rendered over `buf`: the leading two words give the
/// visible column range, one run-list offset follows per column, and
/// the pixel cursor starts right after the offsets and advances
/// monotonically across all columns and runs.
pub open spec fn sprite_render_spec(s: Seq<u8>, pal: Seq<u32>, buf: Seq<u32>) -> Result<
    Seq<u32>,
    WolfError,
> {
    if s.len() < 4 {
        Err(WolfError::Format)
    } else if le16_at(s, 2) < le16_at(s, 0) {
        Err(WolfError::Format)
    } else {
        let ncols = le16_at(s, 2) - le16_at(s, 0) + 1;
        if 4 + 2 * ncols > s.len() {
            Err(WolfError::Format)
        } else {
            render_cols(s, pal, buf, 0, ncols, 4 + 2 * ncols)
        }
    }
}

/// The rest of the sprite after one column's runs have produced `r`.
spec fn cols_after(
    s: Seq<u8>,
    pal: Seq<u32>,
    r: Result<(Seq<u32>, int), WolfError>,
    x: int,
    ncols: int,
) -> Result<Seq<u32>, WolfError> {
    match r {
        Err(e) => Err(e),
        Ok(bp) => render_cols(s, pal, bp.0, x, ncols, bp.1),
    }
}

/// The rest of a column's runs, then the rest of the sprite, after one
/// run has produced `r`.
spec fn runs_after(
    s: Seq<u8>,
    pal: Seq<u32>,
    r: Result<(Seq<u32>, int), WolfError>,
    x: int,
    rp: int,
    ncols: int,
) -> Result<Seq<u32>, WolfError> {
    match r {
        Err(e) => Err(e),
        Ok(bp) => cols_after(s, pal, render_runs(s, pal, bp.0, x, rp, bp.1), x + 1, ncols),
    }
}

impl VSWAPArchive {
    /// Rasterizes one 64 by 64 wall texture into a row-major pixel
    /// buffer through a palette.  The stored texture is column-major,
    /// so cell `t` of the output takes texel `(t % 64) * 64 + t / 64`;
    /// cells past the texture are untouched.
    pub fn rasterize_wall(&self, wall_num: usize, palette: &[u32], output_buffer: &mut Vec<u32>)
        requires
            wall_num < self.wall_chunks@.len(),
            self.wall_chunks@[wall_num as int]@.len() >= 4096,
            palette@.len() >= 256,
            old(output_buffer)@.len() >= 4096,
        ensures
            final(output_buffer)@.len() == old(output_buffer)@.len(),
            forall|t: int|
                0 <= t < 4096 ==> final(output_buffer)@[t] == palette@[self.wall_chunks@[wall_num as int]@[(t % 64) * 64 + t / 64] as int],
            forall|t: int|
                4096 <= t < old(output_buffer)@.len() ==> final(output_buffer)@[t] == old(
                    output_buffer,
                )@[t],
    {
        let wall_data = &self.wall_chunks[wall_num];
        let ghost wall = wall_data@;
        let mut x: usize = 0;
        while x < 64
            invariant
                x <= 64,
                wall_num < self.wall_chunks@.len(),
                wall == wall_data@,
                wall == self.wall_chunks@[wall_num as int]@,
                wall.len() >= 4096,
                palette@.len() >= 256,
                output_buffer@.len() == old(output_buffer)@.len() >= 4096,
                forall|t: int|
                    0 <= t < 4096 && t % 64 < x ==> output_buffer@[t] == palette@[wall[(t % 64) * 64
                        + t / 64] as int],
                forall|t: int|
                    0 <= t < old(output_buffer)@.len() && !(t < 4096 && t % 64 < x)
                        ==> output_buffer@[t] == old(output_buffer)@[t],
            decreases 64 - x,
        {
            let mut y: usize = 0;
            while y < 64
                invariant
                    x < 64,
                    y <= 64,
                    wall_num < self.wall_chunks@.len(),
                    wall == wall_data@,
                    wall == self.wall_chunks@[wall_num as int]@,
                    wall.len() >= 4096,
                    palette@.len() >= 256,
                    output_buffer@.len() == old(output_buffer)@.len() >= 4096,
                    forall|t: int|
                        0 <= t < 4096 && (t % 64 < x || (t % 64 == x && t / 64 < y))
                            ==> output_buffer@[t] == palette@[wall[(t % 64) * 64 + t / 64] as int],
                    forall|t: int|
                        0 <= t < old(output_buffer)@.len() && !(t < 4096 && (t % 64 < x || (t % 64
                            == x && t / 64 < y))) ==> output_buffer@[t] == old(output_buffer)@[t],
                decreases 64 - y,
            {
                let pix = wall_data[x * 64 + y] as usize;
                let t0 = y * 64 + x;
                proof {
                    vstd::arithmetic::div_mod::lemma_fundamental_div_mod_converse(
                        t0 as int,
                        64,
                        y as int,
                        x as int,
                    );
                }
                let color = palette[pix];
                output_buffer.set(t0, color);
                y = y + 1;
            }
            x = x + 1;
        }
    }

    /// Rasterizes one sprite into a 64-wide pixel buffer through a
    /// palette.  On success the buffer is exactly the sprite rendered
    /// over its old contents, as `sprite_render_spec` says; on a
    /// malformed or out-of-range sprite the buffer is untouched and
    /// the error is the spec's.
    pub fn rasterize_sprite(
        &self,
        sprite_num: usize,
        palette: &[u32],
        output_buffer: &mut Vec<u32>,
    ) -> (r: Result<(), WolfError>)
        requires
            sprite_num < self.sprite_chunks@.len(),
            palette@.len() >= 256,
        ensures
            match r {
                Ok(_) => sprite_render_spec(
                    self.sprite_chunks@[sprite_num as int]@,
                    palette@,
                    old(output_buffer)@,
                ) == Ok::<Seq<u32>, WolfError>(final(output_buffer)@),
                Err(e) => sprite_render_spec(
                    self.sprite_chunks@[sprite_num as int]@,
                    palette@,
                    old(output_buffer)@,
                ) == Err::<Seq<u32>, WolfError>(e) && final(output_buffer)@ == old(
                    output_buffer,
                )@,
            },
    {
        let s = &self.sprite_chunks[sprite_num];
        let ghost sv = s@;
        let n = s.len();
        if n < 4 {
            return Err(WolfError::Format);
        }
        let left = crate::wordio::read_u16_le(s.as_slice(), 0);
        let right = crate::wordio::read_u16_le(s.as_slice(), 2);
        if right < left {
            return Err(WolfError::Format);
        }
        let ncols = (right - left) as usize + 1;
        if 2 * ncols > n - 4 {
            return Err(WolfError::Format);
        }
        // render into a copy, so that nothing is written on failure
        let mut buf: Vec<u32> = Vec::new();
        let olen = output_buffer.len();
        let mut j: usize = 0;
        while j < olen
            invariant
                j <= olen,
                olen == old(output_buffer)@.len(),
                output_buffer@ == old(output_buffer)@,
                buf@ == old(output_buffer)@.subrange(0, j as int),
            decreases olen - j,
        {
            let v = output_buffer[j];
            buf.push(v);
            assert(buf@ =~= old(output_buffer)@.subrange(0, j + 1));
            j = j + 1;
        }
        assert(buf@ =~= old(output_buffer)@);
        let mut pix: usize = 4 + 2 * ncols;
        let ghost total = render_cols(sv, palette@, buf@, 0, ncols as int, pix as int);
        let mut x: usize = 0;
        while x < ncols
            invariant
                sprite_num < self.sprite_chunks@.len(),
                sv == self.sprite_chunks@[sprite_num as int]@,
                sv == s@,
                n == sv.len(),
                palette@.len() >= 256,
                1 <= ncols <= 0x1_0000,
                4 + 2 * ncols <= n,
                x <= ncols,
                pix <= n,
                buf@.len() == old(output_buffer)@.len(),
                output_buffer@ == old(output_buffer)@,
                render_cols(sv, palette@, buf@, x as int, ncols as int, pix as int) == total,
                total == sprite_render_spec(sv, palette@, old(output_buffer)@),
            decreases ncols - x,
        {
            let mut rp = crate::wordio::read_u16_le(s.as_slice(), 4 + 2 * x) as usize;
            loop
                invariant_except_break
                    sv == self.sprite_chunks@[sprite_num as int]@,
                    sprite_num < self.sprite_chunks@.len(),
                    sv == s@,
                    n == sv.len(),
                    palette@.len() >= 256,
                    1 <= ncols <= 0x1_0000,
                    4 + 2 * ncols <= n,
                    x < ncols,
                    pix <= n,
                    buf@.len() == old(output_buffer)@.len(),
                    output_buffer@ == old(output_buffer)@,
                    total == sprite_render_spec(sv, palette@, old(output_buffer)@),
                    cols_after(
                        sv,
                        palette@,
                        render_runs(sv, palette@, buf@, x as int, rp as int, pix as int),
                        x + 1,
                        ncols as int,
                    ) == total,
                ensures
                    pix <= n,
                    buf@.len() == old(output_buffer)@.len(),
                    output_buffer@ == old(output_buffer)@,
                    render_cols(sv, palette@, buf@, x + 1, ncols as int, pix as int) == total,
                decreases n + 7 - rp,
            {
                if rp > n || n - rp < 2 {
                    return Err(WolfError::Format);
                }
                let er = crate::wordio::read_u16_le(s.as_slice(), rp) as usize;
                if er == 0 {
                    break;
                }
                if n - rp < 6 {
                    return Err(WolfError::Format);
                }
                let sr = crate::wordio::read_u16_le(s.as_slice(), rp + 4) as usize;
                let y1 = er / 2;
                let mut y = sr / 2;
                while y < y1
                    invariant
                        sv == self.sprite_chunks@[sprite_num as int]@,
                        sprite_num < self.sprite_chunks@.len(),
                        sv == s@,
                        n == sv.len(),
                        palette@.len() >= 256,
                        x < ncols <= 0x1_0000,
                        pix <= n,
                        y <= 0x8000,
                        y1 <= 0x8000,
                        buf@.len() == old(output_buffer)@.len(),
                        output_buffer@ == old(output_buffer)@,
                        total == sprite_render_spec(sv, palette@, old(output_buffer)@),
                        runs_after(
                            sv,
                            palette@,
                            render_col_pixels(
                                sv,
                                palette@,
                                buf@,
                                x as int,
                                y as int,
                                y1 as int,
                                pix as int,
                            ),
                            x as int,
                            rp + 6,
                            ncols as int,
                        ) == total,
                    decreases y1 - y,
                {
                    if pix >= n {
                        return Err(WolfError::Format);
                    }
                    let t0 = y * 64 + x;
                    if t0 >= buf.len() {
                        return Err(WolfError::Bounds);
                    }
                    let color_index = s[pix];
                    let color = palette[color_index as usize];
                    buf.set(t0, color);
                    pix = pix + 1;
                    y = y + 1;
                }
                rp = rp + 6;
            }
            x = x + 1;
        }
        *output_buffer = buf;
        Ok(())
    }
}

} // verus!
