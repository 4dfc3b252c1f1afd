//! Readers for the compressed asset archives of a 1990s game engine:
//! map data (GAMEMAPS), graphics (VGAGRAPH), textures/sprites/digitized
//! sound (VSWAP) and music command streams (AUDIOT), together with the
//! three decompression schemes the formats use (Carmack run/copy
//! compression, RLEW run-length compression, and a fixed-tree Huffman
//! coding).

use vstd::prelude::*;

pub mod audiot;
pub mod blit;
pub mod carmack;
pub mod gamemaps;
pub mod imf;
pub mod omf;
pub mod gr;
pub mod huffman;
pub mod rlew;
pub mod signon;
pub mod vswap;
pub mod wordio;

verus! {

/// An error of a decompressor or an archive reader.  `Format` is a
/// truncated or malformed header, table or stream, including a length
/// mismatch after decompression; `Bounds` is a computed offset or length
/// that exceeds the underlying buffer.
#[derive(Clone, Copy, Debug, PartialEq, Eq, Structural)]
pub enum WolfError {
    Format,
    Bounds,
}

/// The mathematical value of a byte-buffer result: the buffer replaced
/// by the sequence of its bytes.
pub open spec fn ok_bytes(r: Result<Vec<u8>, WolfError>) -> Result<Seq<u8>, WolfError> {
    match r {
        Ok(v) => Ok(v@),
        Err(e) => Err(e),
    }
}

} // verus!
