//! The map archive reader (MAPHEAD and GAMEMAPS files).
//!
//! The header file holds a 16-bit RLEW tag word and 100 32-bit slot
//! offsets into the data file; a slot of zero is unused.  Each used
//! offset points at a 38-byte record: three plane offsets, three plane
//! lengths, width, height and a 16-byte name.  Every plane is sliced
//! from the data file, Carmack-expanded, then RLEW-expanded under the
//! header's tag word.

use vstd::prelude::*;
use vstd::slice::slice_subrange;

use crate::carmack::carmack_spec;
use crate::carmack::carmack_expand;
use crate::rlew::rlew_spec;
use crate::rlew::rlew_expand;
use crate::wordio::le16_at;
use crate::wordio::le32_at;
use crate::WolfError;
use crate::ok_bytes;

verus! {

/// One decoded map: three tile-plane buffers, the tile dimensions, and
/// the display name.
#[derive(Debug, PartialEq, Eq)]
pub struct Gamemaps {
    pub plane0: Vec<u8>,
    pub plane1: Vec<u8>,
    pub plane2: Vec<u8>,
    pub width: u16,
    pub height: u16,
    pub name: String,
}

/// The mathematical value of one decoded map.
pub ghost struct MapRec {
    pub plane0: Seq<u8>,
    pub plane1: Seq<u8>,
    pub plane2: Seq<u8>,
    pub width: u16,
    pub height: u16,
    pub name: Seq<char>,
}

impl View for Gamemaps {
    type V = MapRec;

    open spec fn view(&self) -> MapRec {
        MapRec {
            plane0: self.plane0@,
            plane1: self.plane1@,
            plane2: self.plane2@,
            width: self.width,
            height: self.height,
            name: self.name@,
        }
    }
}

/// The 32-bit offset of map slot `i` in the header file.
pub open spec fn slot_ptr(maphead: Seq<u8>, i: int) -> int {
    le32_at(maphead, 2 + 4 * i)
}

/// One plane: `len` bytes sliced at `off` from the data file, Carmack-
/// expanded, then RLEW-expanded under `tag`.
pub open spec fn plane_spec(data: Seq<u8>, off: int, len: int, tag: int) -> Result<
    Seq<u8>,
    WolfError,
> {
    if off + len > data.len() {
        Err(WolfError::Bounds)
    } else {
        match carmack_spec(data.subrange(off, off + len)) {
            Ok(cm) => rlew_spec(cm, tag),
            Err(e) => Err(e),
        }
    }
}

/// The name field decoded as text: sixteen bytes, taken as characters
/// when all are ASCII and as the empty name otherwise.
pub open spec fn name_chars(b: Seq<u8>) -> Seq<char> {
    if forall|i: int| 0 <= i < b.len() ==> b[i] < 0x80 {
        b.map_values(|c: u8| c as char)
    } else {
        Seq::empty()
    }
}

/// The 38-byte record at `ptr` of the data file, with its three planes
/// expanded.
pub open spec fn map_record_spec(data: Seq<u8>, ptr: int, tag: int) -> Result<MapRec, WolfError> {
    if ptr + 38 > data.len() {
        Err(WolfError::Bounds)
    } else {
        match plane_spec(data, le32_at(data, ptr), le16_at(data, ptr + 12), tag) {
            Err(e) => Err(e),
            Ok(p0) => match plane_spec(data, le32_at(data, ptr + 4), le16_at(data, ptr + 14), tag) {
                Err(e) => Err(e),
                Ok(p1) => match plane_spec(
                    data,
                    le32_at(data, ptr + 8),
                    le16_at(data, ptr + 16),
                    tag,
                ) {
                    Err(e) => Err(e),
                    Ok(p2) => Ok(
                        MapRec {
                            plane0: p0,
                            plane1: p1,
                            plane2: p2,
                            width: le16_at(data, ptr + 18) as u16,
                            height: le16_at(data, ptr + 20) as u16,
                            name: name_chars(data.subrange(ptr + 22, ptr + 38)),
                        },
                    ),
                },
            },
        }
    }
}

/// The maps of slots `i` to 99: a slot of zero is skipped, any other
/// slot must parse, and the first failure is the archive's failure.
pub open spec fn maps_from(maphead: Seq<u8>, data: Seq<u8>, i: int) -> Result<
    Seq<MapRec>,
    WolfError,
>
    decreases 100 - i,
{
    if i >= 100 {
        Ok(Seq::empty())
    } else if slot_ptr(maphead, i) == 0 {
        maps_from(maphead, data, i + 1)
    } else {
        match map_record_spec(data, slot_ptr(maphead, i), le16_at(maphead, 0)) {
            Err(e) => Err(e),
            Ok(rec) => match maps_from(maphead, data, i + 1) {
                Err(e) => Err(e),
                Ok(rest) => Ok(seq![rec] + rest),
            },
        }
    }
}

/// The whole archive: the header must hold the tag word and 100 slots.
pub open spec fn maps_spec(maphead: Seq<u8>, data: Seq<u8>) -> Result<Seq<MapRec>, WolfError> {
    if maphead.len() < 402 {
        Err(WolfError::Format)
    } else {
        maps_from(maphead, data, 0)
    }
}

/// The mathematical values of a sequence of decoded maps.
pub open spec fn views_of(s: Seq<Gamemaps>) -> Seq<MapRec> {
    s.map_values(|g: Gamemaps| g@)
}

spec fn prepend_recs(s: Seq<MapRec>, r: Result<Seq<MapRec>, WolfError>) -> Result<
    Seq<MapRec>,
    WolfError,
> {
    match r {
        Ok(t) => Ok(s + t),
        Err(e) => Err(e),
    }
}

/// The number of nonzero map slots among slots `i` to 99.
pub open spec fn used_slot_count(maphead: Seq<u8>, i: int) -> int
    decreases 100 - i,
{
    if i >= 100 {
        0
    } else if slot_ptr(maphead, i) == 0 {
        used_slot_count(maphead, i + 1)
    } else {
        1 + used_slot_count(maphead, i + 1)
    }
}

/// A slot whose offset is zero is skipped without error and without a
/// record: whenever the archive decodes at all, it yields exactly one
/// record per nonzero slot.
pub proof fn maps_skip_unused_slots(maphead: Seq<u8>, data: Seq<u8>, i: int)
    requires
        0 <= i <= 100,
        maps_from(maphead, data, i) is Ok,
    ensures
        maps_from(maphead, data, i).unwrap().len() == used_slot_count(maphead, i),
    decreases 100 - i,
{
    if i < 100 {
        maps_skip_unused_slots(maphead, data, i + 1);
    }
}

/// Relies on String::from_utf8: ASCII bytes decode to a string of the
/// same characters, one per byte.
#[verifier::external_body]
fn ascii_to_string(b: &Vec<u8>) -> (r: String)
    requires
        forall|i: int| 0 <= i < b@.len() ==> b@[i] < 0x80,
    ensures
        r@ == b@.map_values(|c: u8| c as char),
{
    match String::from_utf8(b.clone()) {
        Ok(s) => s,
        Err(_) => String::new(),
    }
}

/// Reads the name field: sixteen bytes at `pos`, decoded to text when
/// all are ASCII and to the empty name otherwise.
fn read_name(data: &[u8], pos: usize) -> (r: String)
    requires
        pos + 16 <= data@.len(),
    ensures
        r@ == name_chars(data@.subrange(pos as int, pos as int + 16)),
{
    let ghost field = data@.subrange(pos as int, pos as int + 16);
    let n = data.len();
    let mut bytes: Vec<u8> = Vec::new();
    let mut k: usize = 0;
    let mut ascii = true;
    while k < 16
        invariant
            k <= 16,
            n == data@.len(),
            pos + 16 <= n,
            field == data@.subrange(pos as int, pos as int + 16),
            bytes@ == field.subrange(0, k as int),
            ascii == forall|i: int| 0 <= i < k ==> field[i] < 0x80,
        decreases 16 - k,
    {
        let b = data[pos + k];
        assert(field[k as int] == b);
        if b >= 0x80 {
            ascii = false;
        }
        bytes.push(b);
        assert(bytes@ =~= field.subrange(0, k + 1));
        k = k + 1;
    }
    assert(bytes@ =~= field);
    if ascii {
        ascii_to_string(&bytes)
    } else {
        String::new()
    }
}

/// Decodes one plane of a map record.
pub fn get_plane_data(data: &[u8], offset: u32, len: u16, magic: u16) -> (r: Result<
    Vec<u8>,
    WolfError,
>)
    ensures
        ok_bytes(r) == plane_spec(data@, offset as int, len as int, magic as int),
{
    let off = offset as usize;
    if off > data.len() || data.len() - off < len as usize {
        return Err(WolfError::Bounds);
    }
    let plane = slice_subrange(data, off, off + len as usize);
    match carmack_expand(plane) {
        Err(e) => Err(e),
        Ok(cm) => rlew_expand(cm.as_slice(), magic),
    }
}

impl Gamemaps {
    /// Decodes every used map slot of the archive.  The result is
    /// exactly what `maps_spec` says of the two files' bytes: one
    /// record per nonzero slot, in slot order, or the first failure.
    pub fn new(maphead: &[u8], gamemaps: &[u8]) -> (r: Result<Vec<Gamemaps>, WolfError>)
        ensures
            match r {
                Ok(v) => maps_spec(maphead@, gamemaps@) == Ok::<Seq<MapRec>, WolfError>(
                    views_of(v@),
                ),
                Err(e) => maps_spec(maphead@, gamemaps@) == Err::<Seq<MapRec>, WolfError>(e),
            },
    {
        if maphead.len() < 402 {
            return Err(WolfError::Format);
        }
        let magic = crate::wordio::read_u16_le(maphead, 0);
        let mut result: Vec<Gamemaps> = Vec::new();
        let mut i: usize = 0;
        while i < 100
            invariant
                i <= 100,
                maphead@.len() >= 402,
                magic == le16_at(maphead@, 0),
                prepend_recs(views_of(result@), maps_from(maphead@, gamemaps@, i as int))
                    == maps_from(maphead@, gamemaps@, 0),
            decreases 100 - i,
        {
            let ptr32 = crate::wordio::read_u32_le(maphead, 2 + 4 * i);
            if ptr32 != 0 {
                let ptr = ptr32 as usize;
                if ptr > gamemaps.len() || gamemaps.len() - ptr < 38 {
                    return Err(WolfError::Bounds);
                }
                let off0 = crate::wordio::read_u32_le(gamemaps, ptr);
                let off1 = crate::wordio::read_u32_le(gamemaps, ptr + 4);
                let off2 = crate::wordio::read_u32_le(gamemaps, ptr + 8);
                let len0 = crate::wordio::read_u16_le(gamemaps, ptr + 12);
                let len1 = crate::wordio::read_u16_le(gamemaps, ptr + 14);
                let len2 = crate::wordio::read_u16_le(gamemaps, ptr + 16);
                let width = crate::wordio::read_u16_le(gamemaps, ptr + 18);
                let height = crate::wordio::read_u16_le(gamemaps, ptr + 20);
                let name = read_name(gamemaps, ptr + 22);
                let plane0 = match get_plane_data(gamemaps, off0, len0, magic) {
                    Ok(p) => p,
                    Err(e) => {
                        return Err(e);
                    },
                };
                let plane1 = match get_plane_data(gamemaps, off1, len1, magic) {
                    Ok(p) => p,
                    Err(e) => {
                        return Err(e);
                    },
                };
                let plane2 = match get_plane_data(gamemaps, off2, len2, magic) {
                    Ok(p) => p,
                    Err(e) => {
                        return Err(e);
                    },
                };
                let rec = Gamemaps { plane0, plane1, plane2, width, height, name };
                proof {
                    assert(map_record_spec(gamemaps@, ptr32 as int, magic as int) == Ok::<
                        MapRec,
                        WolfError,
                    >(rec@));
                }
                let ghost pre = result@;
                result.push(rec);
                proof {
                    assert(views_of(pre.push(rec)) =~= views_of(pre).push(rec@));
                    match maps_from(maphead@, gamemaps@, i + 1 as int) {
                        Ok(rest) => {
                            assert(views_of(pre).push(rec@) + rest =~= views_of(pre) + (seq![rec@]
                                + rest));
                        },
                        Err(_) => {},
                    }
                }
            }
            i = i + 1;
        }
        Ok(result)
    }
}

} // verus!
