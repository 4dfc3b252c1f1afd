//! The graphics archive reader (VGA dictionary, header and data files).
//!
//! The header holds one 24-bit offset per chunk plus a trailing entry,
//! with `0xFFFFFF` marking a sparse (absent) chunk.  A chunk's
//! compressed length is the distance to the next present offset.  Most
//! chunks open with a 32-bit decompressed size; the tile chunks omit it
//! and decode to the end of their stream.  Chunk 0 is the picture-size
//! table, decoded once when the archive is opened.

use vstd::prelude::*;
use vstd::slice::slice_subrange;

use crate::huffman::HuffNode;
use crate::huffman::huff_all;
use crate::huffman::huff_len;
use crate::huffman::huff_expand_all;
use crate::huffman::huff_expand_len;
use crate::wordio::le16_at;
use crate::wordio::le24_at;
use crate::wordio::le32_at;

verus! {

/// Chunk count of the graphics archive, not counting the trailing
/// offset entry.
pub const NUMCHUNKS: usize = 149;

/// Number of entries in the picture-size table.
pub const NUMPICS: usize = 132;

/// First chunk index of the picture range.
pub const STARTPICS: usize = 3;

/// One past the last chunk index of the picture range.
pub const STARTPICM: usize = 135;

/// First chunk index of the tile ranges, whose decompressed size is not
/// stored in the stream.
pub const STARTTILE8: usize = 135;

/// First chunk index of the masked 8 by 8 tiles.
pub const STARTTILE8M: usize = 136;

/// First chunk index of the 16 by 16 tiles.
pub const STARTTILE16: usize = 136;

/// First chunk index of the 32 by 32 tiles.
pub const STARTTILE32: usize = 136;

/// First chunk index of the masked 32 by 32 tiles.
pub const STARTTILE32M: usize = 136;

/// One past the last tile chunk index.
pub const STARTEXTERNS: usize = 136;

/// Number of 8 by 8 tiles in the one unmasked tile chunk.
pub const NUMTILE8: usize = 72;

/// Number of masked 8 by 8 tiles.
pub const NUMTILE8M: usize = 0;

/// An error of the graphics archive reader.  `NotAPic` is a chunk index
/// outside the picture range handed to `load_pic`; `SparseChunk` is an
/// attempt to expand a chunk whose offset is the sparse sentinel;
/// `Format` is a truncated or malformed table or stream; `Bounds` is a
/// computed offset or length that exceeds the underlying data file.
#[derive(Clone, Copy, Debug, PartialEq, Eq, Structural)]
pub enum GrArchiveError {
    NotAPic,
    SparseChunk,
    Format,
    Bounds,
}

/// The mathematical value of a byte-buffer result of the graphics
/// reader: the buffer replaced by the sequence of its bytes.
pub open spec fn ok_gr_bytes(r: Result<Vec<u8>, GrArchiveError>) -> Result<Seq<u8>, GrArchiveError> {
    match r {
        Ok(v) => Ok(v@),
        Err(e) => Err(e),
    }
}

/// The width and height of one picture chunk.
#[derive(Clone, Copy, Debug, PartialEq, Eq, Structural)]
pub struct PicSize {
    pub width: u16,
    pub height: u16,
}

/// One decoded picture: its expanded bytes and its size-table entry.
pub struct Pic {
    pub size: PicSize,
    pub data: Vec<u8>,
}

/// The decompressed size of a tile chunk, fixed per sub-range: 64 bytes
/// per unmasked 8 by 8 tile and 128 per masked tile, scaled by the tile
/// counts of each range.  The stream itself carries no size for these.
pub open spec fn implicit_chunk_size(i: int) -> int {
    if i < STARTTILE8M {
        64 * NUMTILE8
    } else if i < STARTTILE16 {
        128 * NUMTILE8M
    } else if i < STARTTILE32 {
        (128 * 4) as int
    } else if i < STARTTILE32M {
        (64 * 16) as int
    } else {
        (128 * 16) as int
    }
}

/// Offset entry `i` of the header file: a 24-bit value, with the
/// all-ones sentinel standing for an absent chunk.
pub open spec fn start_entry(head: Seq<u8>, i: int) -> Option<u32> {
    if le24_at(head, 3 * i) == 0xFF_FF_FF {
        None
    } else {
        Some(le24_at(head, 3 * i) as u32)
    }
}

/// The whole offset table of the header file.
pub open spec fn parse_starts(head: Seq<u8>) -> Seq<Option<u32>> {
    Seq::new((NUMCHUNKS + 1) as nat, |i: int| start_entry(head, i))
}

/// The Huffman dictionary of the dictionary file: 255 nodes of two
/// 16-bit children each.
pub open spec fn parse_dict(b: Seq<u8>) -> Seq<HuffNode> {
    Seq::new(
        255,
        |i: int| HuffNode { bit0: le16_at(b, 4 * i) as u16, bit1: le16_at(b, 4 * i + 2) as u16 },
    )
}

/// The least index at or after `j` whose offset entry is present, or
/// the table's length when none is.
pub open spec fn next_present(starts: Seq<Option<u32>>, j: int) -> int
    decreases starts.len() - j,
{
    if j >= starts.len() {
        starts.len() as int
    } else if starts[j] is Some {
        j
    } else {
        next_present(starts, j + 1)
    }
}

/// One chunk expanded: its compressed bytes run from its offset to the
/// next present offset; a tile chunk decodes to the end of that slice,
/// any other chunk reads a 32-bit size and decodes exactly that many
/// bytes.
pub open spec fn expand_chunk_spec(
    dict: Seq<HuffNode>,
    starts: Seq<Option<u32>>,
    graph: Seq<u8>,
    i: int,
) -> Result<Seq<u8>, GrArchiveError> {
    match starts[i] {
        None => Err(GrArchiveError::SparseChunk),
        Some(pos) => {
            let nxt = next_present(starts, i + 1);
            if nxt >= starts.len() {
                Err(GrArchiveError::Format)
            } else {
                let end = starts[nxt]->Some_0 as int;
                if pos > end || end > graph.len() {
                    Err(GrArchiveError::Bounds)
                } else {
                    let comp = graph.subrange(pos as int, end);
                    if STARTTILE8 <= i < STARTEXTERNS {
                        huff_all(dict, comp, 0, 0, 254, Seq::empty())
                    } else if comp.len() < 4 {
                        Err(GrArchiveError::Format)
                    } else {
                        huff_len(dict, comp.skip(4), 0, 0, 254, Seq::empty(), le32_at(comp, 0))
                    }
                }
            }
        },
    }
}

/// The picture-size table decoded from chunk 0: one width and height
/// pair per picture.
pub open spec fn parse_pic_sizes(e: Seq<u8>) -> Seq<PicSize> {
    Seq::new(
        NUMPICS as nat,
        |i: int| PicSize {
            width: le16_at(e, 4 * i) as u16,
            height: le16_at(e, 4 * i + 2) as u16,
        },
    )
}

/// Chunk 0 of the archive, expanded from the three files' bytes.
pub open spec fn chunk0_spec(dictb: Seq<u8>, headb: Seq<u8>, graph: Seq<u8>) -> Result<
    Seq<u8>,
    GrArchiveError,
> {
    expand_chunk_spec(parse_dict(dictb), parse_starts(headb), graph, 0)
}

/// Whether the three files open into an archive: complete dictionary
/// and header, and a picture-size chunk that expands to a full table.
pub open spec fn gr_new_ok(dictb: Seq<u8>, headb: Seq<u8>, graph: Seq<u8>) -> bool {
    &&& dictb.len() >= 1020
    &&& headb.len() >= 450
    &&& chunk0_spec(dictb, headb, graph) is Ok
    &&& chunk0_spec(dictb, headb, graph)->Ok_0.len() >= 4 * NUMPICS
}

/// The error when they do not.
pub open spec fn gr_new_err(dictb: Seq<u8>, headb: Seq<u8>, graph: Seq<u8>) -> GrArchiveError {
    if dictb.len() < 1020 || headb.len() < 450 {
        GrArchiveError::Format
    } else {
        match chunk0_spec(dictb, headb, graph) {
            Err(e) => e,
            Ok(_) => GrArchiveError::Format,
        }
    }
}

/// The graphics archive: the Huffman dictionary, the offset table, the
/// data file held in memory, and the picture-size table.
pub struct GrArchive {
    huff_dict: Vec<HuffNode>,
    gr_starts: Vec<Option<u32>>,
    graph: Vec<u8>,
    pic_sizes: Vec<PicSize>,
}

impl GrArchive {
    /// The dictionary's mathematical value.
    pub closed spec fn dict(self) -> Seq<HuffNode> {
        self.huff_dict@
    }

    /// The offset table's mathematical value.
    pub closed spec fn starts(self) -> Seq<Option<u32>> {
        self.gr_starts@
    }

    /// The data file's bytes.
    pub closed spec fn data(self) -> Seq<u8> {
        self.graph@
    }

    /// The picture-size table's mathematical value.
    pub closed spec fn sizes(self) -> Seq<PicSize> {
        self.pic_sizes@
    }

    /// The dictionary and offset table are complete.
    pub open spec fn wf_core(self) -> bool {
        self.dict().len() == 255 && self.starts().len() == NUMCHUNKS + 1
    }

    /// The whole archive is complete, picture-size table included.
    pub open spec fn wf(self) -> bool {
        self.wf_core() && self.sizes().len() == NUMPICS
    }

    /// Opens an archive from the bytes of the dictionary file, the
    /// header file and the data file.  On success every table is the
    /// parse of its file and the picture sizes are decoded from
    /// chunk 0; otherwise the error is exactly `gr_new_err`.
    pub fn new(dict_bytes: &[u8], head_bytes: &[u8], graph: Vec<u8>) -> (r: Result<
        GrArchive,
        GrArchiveError,
    >)
        ensures
            match r {
                Ok(a) => {
                    &&& gr_new_ok(dict_bytes@, head_bytes@, graph@)
                    &&& a.wf()
                    &&& a.dict() == parse_dict(dict_bytes@)
                    &&& a.starts() == parse_starts(head_bytes@)
                    &&& a.data() == graph@
                    &&& a.sizes() == parse_pic_sizes(
                        chunk0_spec(dict_bytes@, head_bytes@, graph@)->Ok_0,
                    )
                },
                Err(e) => !gr_new_ok(dict_bytes@, head_bytes@, graph@) && e == gr_new_err(
                    dict_bytes@,
                    head_bytes@,
                    graph@,
                ),
            },
    {
        if dict_bytes.len() < 1020 {
            return Err(GrArchiveError::Format);
        }
        if head_bytes.len() < 450 {
            return Err(GrArchiveError::Format);
        }
        let mut huff_dict: Vec<HuffNode> = Vec::new();
        let mut i: usize = 0;
        while i < 255
            invariant
                i <= 255,
                dict_bytes@.len() >= 1020,
                huff_dict@ == parse_dict(dict_bytes@).subrange(0, i as int),
            decreases 255 - i,
        {
            let bit0 = crate::wordio::read_u16_le(dict_bytes, 4 * i);
            let bit1 = crate::wordio::read_u16_le(dict_bytes, 4 * i + 2);
            huff_dict.push(HuffNode { bit0, bit1 });
            assert(huff_dict@ =~= parse_dict(dict_bytes@).subrange(0, i + 1));
            i = i + 1;
        }
        assert(huff_dict@ =~= parse_dict(dict_bytes@));
        let mut gr_starts: Vec<Option<u32>> = Vec::new();
        let mut j: usize = 0;
        while j < NUMCHUNKS + 1
            invariant
                j <= NUMCHUNKS + 1,
                head_bytes@.len() >= 450,
                gr_starts@ == parse_starts(head_bytes@).subrange(0, j as int),
            decreases NUMCHUNKS + 1 - j,
        {
            let v = crate::wordio::read_u24_le(head_bytes, 3 * j);
            let entry = if v == 0xFF_FF_FF {
                None
            } else {
                Some(v)
            };
            gr_starts.push(entry);
            assert(gr_starts@ =~= parse_starts(head_bytes@).subrange(0, j + 1));
            j = j + 1;
        }
        assert(gr_starts@ =~= parse_starts(head_bytes@));
        let table = match expand_at(&huff_dict, &gr_starts, &graph, 0) {
            Ok(t) => t,
            Err(e) => {
                return Err(e);
            },
        };
        if table.len() < 4 * NUMPICS {
            return Err(GrArchiveError::Format);
        }
        let mut pic_sizes: Vec<PicSize> = Vec::new();
        let mut k: usize = 0;
        while k < NUMPICS
            invariant
                k <= NUMPICS,
                table@.len() >= 4 * NUMPICS,
                pic_sizes@ == parse_pic_sizes(table@).subrange(0, k as int),
            decreases NUMPICS - k,
        {
            let width = crate::wordio::read_u16_le(table.as_slice(), 4 * k);
            let height = crate::wordio::read_u16_le(table.as_slice(), 4 * k + 2);
            pic_sizes.push(PicSize { width, height });
            assert(pic_sizes@ =~= parse_pic_sizes(table@).subrange(0, k + 1));
            k = k + 1;
        }
        assert(pic_sizes@ =~= parse_pic_sizes(table@));
        Ok(GrArchive { huff_dict, gr_starts, graph, pic_sizes })
    }

    /// Expands one chunk of the archive.  The result is exactly what
    /// `expand_chunk_spec` says of the archive's tables and data.
    pub fn expand_chunk(&self, chunk_index: usize) -> (r: Result<Vec<u8>, GrArchiveError>)
        requires
            self.wf_core(),
            chunk_index < NUMCHUNKS,
        ensures
            ok_gr_bytes(r) == expand_chunk_spec(
                self.dict(),
                self.starts(),
                self.data(),
                chunk_index as int,
            ),
    {
        expand_at(&self.huff_dict, &self.gr_starts, &self.graph, chunk_index)
    }

    /// Loads one picture: the chunk index must fall in the picture
    /// range, the chunk is expanded, and the expanded bytes are paired
    /// with the picture's size-table entry.
    pub fn load_pic(&self, pic_no: usize) -> (r: Result<Pic, GrArchiveError>)
        requires
            self.wf(),
        ensures
            match r {
                Ok(p) => {
                    &&& STARTPICS <= pic_no < STARTPICM
                    &&& expand_chunk_spec(self.dict(), self.starts(), self.data(), pic_no as int)
                        == Ok::<Seq<u8>, GrArchiveError>(p.data@)
                    &&& p.size == self.sizes()[pic_no - STARTPICS]
                },
                Err(e) => if !(STARTPICS <= pic_no < STARTPICM) {
                    e == GrArchiveError::NotAPic
                } else {
                    expand_chunk_spec(self.dict(), self.starts(), self.data(), pic_no as int)
                        == Err::<Seq<u8>, GrArchiveError>(e)
                },
            },
    {
        if !(STARTPICS <= pic_no && pic_no < STARTPICM) {
            return Err(GrArchiveError::NotAPic);
        }
        let data = match self.expand_chunk(pic_no) {
            Ok(d) => d,
            Err(e) => {
                return Err(e);
            },
        };
        let size = self.pic_sizes[pic_no - STARTPICS];
        Ok(Pic { size, data })
    }
}

/// Whether frame-buffer index `t` lies inside the rectangle that a
/// picture of pixel width `w` and height `h` drawn at column unit `dx`
/// and row `dy` covers on a 320-wide frame buffer.  `dx` counts
/// four-pixel column units, as the planar format does.
pub open spec fn pic_covers(dx: int, dy: int, w: int, h: int, t: int) -> bool {
    dy <= t / 320 < dy + h && 4 * dx <= t % 320 < 4 * dx + w
}

/// The picture-data index that feeds frame-buffer index `t`: the
/// planar layout stores the four pixel planes one after another,
/// `psize` bytes each, and interleaves them four pixels at a time.
pub open spec fn pic_src(dx: int, dy: int, qw: int, psize: int, t: int) -> int {
    (t / 320 - dy) * qw + (t % 320 - 4 * dx) / 4 + psize * ((t % 320 - 4 * dx) % 4)
}

impl Pic {
    /// Draws the picture at (`dest_x`, `dest_y`) of a 320-wide frame
    /// buffer, de-interleaving the four planes and resolving each
    /// pixel through the palette; `dest_x` counts four-pixel column
    /// units.  Every cell of the covered rectangle takes its pixel;
    /// every other cell is untouched.
    pub fn draw(&self, dest_x: u16, dest_y: u16, output_buffer: &mut Vec<u32>, palette_u32: &[u32])
        requires
            self.size.width % 4 == 0,
            self.data@.len() >= self.size.width * self.size.height,
            palette_u32@.len() >= 256,
            4 * dest_x + self.size.width <= 320,
            (dest_y + self.size.height) * 320 <= old(output_buffer)@.len(),
        ensures
            final(output_buffer)@.len() == old(output_buffer)@.len(),
            forall|t: int|
                0 <= t < old(output_buffer)@.len() ==> final(output_buffer)@[t] == (if pic_covers(
                    dest_x as int,
                    dest_y as int,
                    self.size.width as int,
                    self.size.height as int,
                    t,
                ) {
                    palette_u32@[self.data@[pic_src(
                        dest_x as int,
                        dest_y as int,
                        self.size.width as int / 4,
                        self.size.width as int * self.size.height as int / 4,
                        t,
                    )] as int]
                } else {
                    old(output_buffer)@[t]
                }),
    {
        let w = self.size.width as usize;
        let h = self.size.height as usize;
        let qw = w / 4;
        proof {
            assert(w * h <= 0xFFFE_0001) by (nonlinear_arith)
                requires
                    w <= 0xFFFF,
                    h <= 0xFFFF,
            ;
        }
        let plane_size = w * h / 4;
        let dx = dest_x as usize;
        let dy = dest_y as usize;
        proof {
            assert(4 * qw == w);
            assert(plane_size == qw * h) by (nonlinear_arith)
                requires
                    w == 4 * qw,
                    plane_size == w * h / 4,
            ;
            assert(4 * plane_size == w * h) by (nonlinear_arith)
                requires
                    w == 4 * qw,
                    plane_size == qw * h,
            ;
        }
        let mut y: usize = 0;
        while y < h
            invariant
                w == self.size.width,
                h == self.size.height,
                qw == w / 4,
                4 * qw == w,
                plane_size == qw * h,
                4 * plane_size == w * h,
                dx == dest_x,
                dy == dest_y,
                y <= h,
                self.data@.len() >= w * h,
                palette_u32@.len() >= 256,
                4 * dx + w <= 320,
                (dy + h) * 320 <= old(output_buffer)@.len(),
                output_buffer@.len() == old(output_buffer)@.len(),
                forall|t: int|
                    0 <= t < old(output_buffer)@.len() ==> output_buffer@[t] == (if pic_covers(
                        dx as int,
                        dy as int,
                        w as int,
                        h as int,
                        t,
                    ) && t / 320 - dy < y {
                        palette_u32@[self.data@[pic_src(
                            dx as int,
                            dy as int,
                            qw as int,
                            plane_size as int,
                            t,
                        )] as int]
                    } else {
                        old(output_buffer)@[t]
                    }),
            decreases h - y,
        {
            let mut x: usize = 0;
            while x < qw
                invariant
                    w == self.size.width,
                    h == self.size.height,
                    qw == w / 4,
                    4 * qw == w,
                    plane_size == qw * h,
                    4 * plane_size == w * h,
                    dx == dest_x,
                    dy == dest_y,
                    y < h,
                    x <= qw,
                    self.data@.len() >= w * h,
                    palette_u32@.len() >= 256,
                    4 * dx + w <= 320,
                    (dy + h) * 320 <= old(output_buffer)@.len(),
                    output_buffer@.len() == old(output_buffer)@.len(),
                    forall|t: int|
                        0 <= t < old(output_buffer)@.len() ==> output_buffer@[t] == (if pic_covers(
                            dx as int,
                            dy as int,
                            w as int,
                            h as int,
                            t,
                        ) && (t / 320 - dy < y || (t / 320 - dy == y && (t % 320 - 4 * dx) / 4
                            < x)) {
                            palette_u32@[self.data@[pic_src(
                                dx as int,
                                dy as int,
                                qw as int,
                                plane_size as int,
                                t,
                            )] as int]
                        } else {
                            old(output_buffer)@[t]
                        }),
                decreases qw - x,
            {
                let mut k: usize = 0;
                while k < 4
                    invariant
                        w == self.size.width,
                        h == self.size.height,
                        qw == w / 4,
                        4 * qw == w,
                        plane_size == qw * h,
                        4 * plane_size == w * h,
                        dx == dest_x,
                        dy == dest_y,
                        y < h,
                        x < qw,
                        k <= 4,
                        self.data@.len() >= w * h,
                        palette_u32@.len() >= 256,
                        4 * dx + w <= 320,
                        (dy + h) * 320 <= old(output_buffer)@.len(),
                        output_buffer@.len() == old(output_buffer)@.len(),
                        forall|t: int|
                            0 <= t < old(output_buffer)@.len() ==> output_buffer@[t] == (if
                            pic_covers(dx as int, dy as int, w as int, h as int, t) && (t / 320 - dy
                                < y || (t / 320 - dy == y && ((t % 320 - 4 * dx) / 4 < x || ((t
                                % 320 - 4 * dx) / 4 == x && (t % 320 - 4 * dx) % 4 < k)))) {
                                palette_u32@[self.data@[pic_src(
                                    dx as int,
                                    dy as int,
                                    qw as int,
                                    plane_size as int,
                                    t,
                                )] as int]
                            } else {
                                old(output_buffer)@[t]
                            }),
                    decreases 4 - k,
                {
                    let dn: usize = output_buffer.len();
                    let dl: usize = self.data.len();
                    proof {
                        assert((dy + y) * 320 + (dx + x) * 4 + k < dn) by (nonlinear_arith)
                            requires
                                y < h,
                                x < qw,
                                k < 4,
                                4 * qw == w,
                                4 * dx + w <= 320,
                                (dy + h) * 320 <= dn,
                        ;
                        assert(y * qw + x + plane_size * k < dl) by (nonlinear_arith)
                            requires
                                y < h,
                                x < qw,
                                k < 4,
                                plane_size == qw * h,
                                4 * plane_size == w * h,
                                dl >= w * h,
                        ;
                    }
                    let src = y * qw + x + plane_size * k;
                    let t0 = (dy + y) * 320 + (dx + x) * 4 + k;
                    proof {
                        vstd::arithmetic::div_mod::lemma_fundamental_div_mod_converse(
                            t0 as int,
                            320,
                            dy + y,
                            (dx + x) * 4 + k,
                        );
                        vstd::arithmetic::div_mod::lemma_fundamental_div_mod_converse(
                            t0 as int % 320 - 4 * dx,
                            4,
                            x as int,
                            k as int,
                        );
                        assert(pic_src(dx as int, dy as int, qw as int, plane_size as int, t0 as int)
                            == src);
                    }
                    let color_index = self.data[src];
                    let color = palette_u32[color_index as usize];
                    output_buffer.set(t0, color);
                    k = k + 1;
                }
                x = x + 1;
            }
            y = y + 1;
        }
    }
}

/// A chunk whose offset entry is the sparse sentinel is refused as
/// sparse, whatever the rest of the archive holds: the spec never
/// reads the data file for it.
pub proof fn expand_chunk_sparse(
    dict: Seq<HuffNode>,
    starts: Seq<Option<u32>>,
    graph: Seq<u8>,
    i: int,
)
    requires
        0 <= i < starts.len(),
        starts[i] is None,
    ensures
        expand_chunk_spec(dict, starts, graph, i) == Err::<Seq<u8>, GrArchiveError>(
            GrArchiveError::SparseChunk,
        ),
{
}

/// A present chunk outside the tile ranges expands, whenever it expands
/// at all, to exactly the byte count declared in its 32-bit size
/// prefix.
pub proof fn expand_chunk_exact_size(
    dict: Seq<HuffNode>,
    starts: Seq<Option<u32>>,
    graph: Seq<u8>,
    i: int,
)
    requires
        0 <= i < starts.len(),
        !(STARTTILE8 <= i < STARTEXTERNS),
        expand_chunk_spec(dict, starts, graph, i) is Ok,
    ensures
        ({
            let pos = starts[i]->Some_0 as int;
            let end = starts[next_present(starts, i + 1)]->Some_0 as int;
            expand_chunk_spec(dict, starts, graph, i)->Ok_0.len() == le32_at(
                graph.subrange(pos, end),
                0,
            )
        }),
{
    let pos = starts[i]->Some_0 as int;
    let end = starts[next_present(starts, i + 1)]->Some_0 as int;
    let comp = graph.subrange(pos, end);
    crate::huffman::lemma_huff_len_exact(
        dict,
        comp.skip(4),
        0,
        0,
        254,
        Seq::empty(),
        le32_at(comp, 0),
    );
}

/// The shared body of `expand_chunk`, usable before the picture-size
/// table exists.
fn expand_at(
    dict: &Vec<HuffNode>,
    starts: &Vec<Option<u32>>,
    graph: &Vec<u8>,
    i: usize,
) -> (r: Result<Vec<u8>, GrArchiveError>)
    requires
        dict@.len() == 255,
        starts@.len() == NUMCHUNKS + 1,
        i < NUMCHUNKS,
    ensures
        ok_gr_bytes(r) == expand_chunk_spec(dict@, starts@, graph@, i as int),
{
    let pos32 = match starts[i] {
        None => {
            return Err(GrArchiveError::SparseChunk);
        },
        Some(p) => p,
    };
    let n = starts.len();
    let mut nxt: usize = i + 1;
    while nxt < n && starts[nxt].is_none()
        invariant
            i + 1 <= nxt <= n,
            n == starts@.len(),
            next_present(starts@, nxt as int) == next_present(starts@, i + 1 as int),
        decreases n - nxt,
    {
        nxt = nxt + 1;
    }
    if nxt >= n {
        return Err(GrArchiveError::Format);
    }
    let end32 = match starts[nxt] {
        Some(e) => e,
        None => {
            assert(false);
            return Err(GrArchiveError::Format);
        },
    };
    let pos = pos32 as usize;
    let end = end32 as usize;
    if pos > end || end > graph.len() {
        return Err(GrArchiveError::Bounds);
    }
    let comp = slice_subrange(graph.as_slice(), pos, end);
    if STARTTILE8 <= i && i < STARTEXTERNS {
        huff_expand_all(dict, comp)
    } else {
        if comp.len() < 4 {
            return Err(GrArchiveError::Format);
        }
        let target32 = crate::wordio::read_u32_le(comp, 0);
        let rest = slice_subrange(comp, 4, comp.len());
        assert(rest@ =~= graph@.subrange(pos as int, end as int).skip(4));
        huff_expand_len(dict, rest, target32 as usize)
    }
}

} // verus!
