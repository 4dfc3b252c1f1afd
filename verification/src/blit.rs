//! A 320 by 200 8-bit scratch surface, blitted through a palette into
//! a 32-bit frame buffer, straight or transposed.

use vstd::prelude::*;

verus! {

/// The scratch surface: one palette index per pixel, row-major, and
/// the palette the pixels are resolved through when blitted.
pub struct ScratchBuffer<'a> {
    pub data: Vec<u8>,
    pub palette: &'a [u32],
}

/// Whether frame-buffer index `t` lies inside the blit rectangle of
/// width `ew` and height `eh` at (`dest_x`, `dest_y`) on a 320-wide
/// frame buffer.
pub open spec fn blit_covers(dest_x: int, dest_y: int, ew: int, eh: int, t: int) -> bool {
    dest_y <= t / 320 < dest_y + eh && dest_x <= t % 320 < dest_x + ew
}

/// The scratch index that feeds frame-buffer index `t`.
pub open spec fn blit_src(dest_x: int, dest_y: int, t: int) -> int {
    (t / 320 - dest_y) * 320 + (t % 320 - dest_x)
}

impl<'a> ScratchBuffer<'a> {
    /// The palette's mathematical value.
    pub open spec fn pal(self) -> Seq<u32> {
        self.palette@
    }

    /// The surface is complete: full size, and a palette entry for
    /// every possible pixel byte.
    pub open spec fn wf(self) -> bool {
        self.data@.len() == 64000 && self.pal().len() >= 256
    }

    /// A blank surface over the given palette.
    pub fn new(palette: &'a [u32]) -> (r: ScratchBuffer<'a>)
        requires
            palette@.len() >= 256,
        ensures
            r.wf(),
            r.pal() == palette@,
            forall|t: int| 0 <= t < 64000 ==> r.data@[t] == 0u8,
    {
        let mut data: Vec<u8> = Vec::new();
        let mut j: usize = 0;
        while j < 64000
            invariant
                j <= 64000,
                data@.len() == j,
                forall|t: int| 0 <= t < j ==> data@[t] == 0u8,
            decreases 64000 - j,
        {
            data.push(0);
            j = j + 1;
        }
        ScratchBuffer { data, palette }
    }

    /// Blits the top-left `src_width` by `src_height` corner of the
    /// surface to (`dest_x`, `dest_y`) of a 320-wide frame buffer,
    /// resolving each pixel through the palette.  With `rotate` the
    /// copied rectangle is transposed in place of the straight copy.
    /// Every frame-buffer cell inside the rectangle takes its resolved
    /// pixel; every cell outside it is untouched.
    pub fn blit(
        &self,
        src_width: u16,
        src_height: u16,
        dest_data: &mut Vec<u32>,
        dest_x: usize,
        dest_y: usize,
        rotate: bool,
    )
        requires
            self.wf(),
            ({
                let ew = if rotate { src_height as int } else { src_width as int };
                let eh = if rotate { src_width as int } else { src_height as int };
                &&& ew <= 320
                &&& eh <= 200
                &&& dest_x + ew <= 320
                &&& (dest_y + eh) * 320 <= old(dest_data)@.len()
            }),
        ensures
            final(dest_data)@.len() == old(dest_data)@.len(),
            ({
                let ew = if rotate { src_height as int } else { src_width as int };
                let eh = if rotate { src_width as int } else { src_height as int };
                forall|t: int|
                    0 <= t < old(dest_data)@.len() ==> final(dest_data)@[t] == (if blit_covers(
                        dest_x as int,
                        dest_y as int,
                        ew,
                        eh,
                        t,
                    ) {
                        self.pal()[self.data@[blit_src(dest_x as int, dest_y as int, t)] as int]
                    } else {
                        old(dest_data)@[t]
                    })
            }),
    {
        let ghost dlen = old(dest_data)@.len();
        let ew: usize = if rotate {
            src_height as usize
        } else {
            src_width as usize
        };
        let eh: usize = if rotate {
            src_width as usize
        } else {
            src_height as usize
        };
        let mut yy: usize = 0;
        while yy < eh
            invariant
                self.wf(),
                yy <= eh,
                ew <= 320,
                eh <= 200,
                dest_x + ew <= 320,
                (dest_y + eh) * 320 <= old(dest_data)@.len(),
                dlen == old(dest_data)@.len(),
                dest_data@.len() == old(dest_data)@.len(),
                forall|t: int|
                    0 <= t < old(dest_data)@.len() ==> dest_data@[t] == (if blit_covers(
                        dest_x as int,
                        dest_y as int,
                        ew as int,
                        yy as int,
                        t,
                    ) {
                        self.pal()[self.data@[blit_src(dest_x as int, dest_y as int, t)] as int]
                    } else {
                        old(dest_data)@[t]
                    }),
            decreases eh - yy,
        {
            let mut xx: usize = 0;
            while xx < ew
                invariant
                    self.wf(),
                    yy < eh,
                    xx <= ew,
                    ew <= 320,
                    eh <= 200,
                    dest_x + ew <= 320,
                    (dest_y + eh) * 320 <= old(dest_data)@.len(),
                    dlen == old(dest_data)@.len(),
                    dest_data@.len() == old(dest_data)@.len(),
                    forall|t: int|
                        0 <= t < old(dest_data)@.len() ==> dest_data@[t] == (if blit_covers(
                            dest_x as int,
                            dest_y as int,
                            ew as int,
                            yy as int,
                            t,
                        ) || (blit_covers(dest_x as int, dest_y as int, ew as int, yy + 1, t)
                            && t % 320 - dest_x < xx) {
                            self.pal()[self.data@[blit_src(dest_x as int, dest_y as int, t)] as int]
                        } else {
                            old(dest_data)@[t]
                        }),
                decreases ew - xx,
            {
                let color_index = self.data[yy * 320 + xx];
                let dn: usize = dest_data.len();
                proof {
                    assert((dest_y + yy) * 320 + dest_x + xx < dn) by (nonlinear_arith)
                        requires
                            yy < eh,
                            dest_x + xx < 320,
                            (dest_y + eh) * 320 <= dn,
                    ;
                }
                let t0 = (dest_y + yy) * 320 + dest_x + xx;
                proof {
                    vstd::arithmetic::div_mod::lemma_fundamental_div_mod_converse(
                        t0 as int,
                        320,
                        dest_y + yy,
                        dest_x + xx,
                    );
                }
                let pix = self.palette[color_index as usize];
                dest_data.set(t0, pix);
                proof {
                    assert(blit_src(dest_x as int, dest_y as int, t0 as int) == yy * 320 + xx);
                }
                xx = xx + 1;
            }
            yy = yy + 1;
        }
    }
}

} // verus!
