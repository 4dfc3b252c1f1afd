//! The sign-on screen: a stored 320 by 200 image copied plane by plane
//! into an 8-bit frame buffer.  The four planar stripes together cover
//! every byte of the image, so the copy is byte-for-byte.

use vstd::prelude::*;

verus! {

/// Copies the 320 by 200 sign-on image into the frame buffer: every
/// byte of the image area is taken from the same position of `signon`,
/// and nothing beyond the image area is touched.
pub fn draw(signon: &[u8], output_buffer: &mut Vec<u8>)
    requires
        signon@.len() >= 64000,
        old(output_buffer)@.len() >= 64000,
    ensures
        final(output_buffer)@.len() == old(output_buffer)@.len(),
        forall|t: int| 0 <= t < 64000 ==> final(output_buffer)@[t] == signon@[t],
        forall|t: int|
            64000 <= t < old(output_buffer)@.len() ==> final(output_buffer)@[t] == old(
                output_buffer,
            )@[t],
{
    let mut j: usize = 0;
    while j < 64000
        invariant
            j <= 64000,
            signon@.len() >= 64000,
            output_buffer@.len() == old(output_buffer)@.len() >= 64000,
            forall|t: int| 0 <= t < j ==> output_buffer@[t] == signon@[t],
            forall|t: int|
                j <= t < old(output_buffer)@.len() ==> output_buffer@[t] == old(output_buffer)@[t],
        decreases 64000 - j,
    {
        let b = signon[j];
        output_buffer.set(j, b);
        j = j + 1;
    }
}

} // verus!
