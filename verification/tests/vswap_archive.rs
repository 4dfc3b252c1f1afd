use libwolf::vswap::VSWAPArchive;
use libwolf::WolfError;

fn le16(v: u16) -> [u8; 2] {
    v.to_le_bytes()
}

fn le32(v: u32) -> [u8; 4] {
    v.to_le_bytes()
}

// Three chunks, all sound but the final descriptor: two padded sound
// chunks and a descriptor naming one digitized sound of five bytes.
fn sound_archive() -> Vec<u8> {
    let mut f = Vec::new();
    f.extend_from_slice(&le16(3)); // chunk count
    f.extend_from_slice(&le16(0)); // sprites start at 0
    f.extend_from_slice(&le16(0)); // sounds start at 0
    f.extend_from_slice(&le32(24)); // chunk 0
    f.extend_from_slice(&le32(28)); // chunk 1
    f.extend_from_slice(&le32(32)); // chunk 2: descriptor
    f.extend_from_slice(&le16(4));
    f.extend_from_slice(&le16(4));
    f.extend_from_slice(&le16(8));
    assert_eq!(f.len(), 24);
    f.extend_from_slice(&[1, 2, 3, 4]); // sound chunk 0
    f.extend_from_slice(&[5, 0, 0, 0]); // sound chunk 1, padded
    f.extend_from_slice(&le16(0)); // entry 0: starts at sound chunk 0
    f.extend_from_slice(&le16(5)); //          true length 5
    f.extend_from_slice(&le16(2)); // entry 1: the table's delimiter
    f.extend_from_slice(&le16(0));
    f
}

#[test]
fn test_vswap_sound_padding_is_cut() {
    let a = VSWAPArchive::open(&sound_archive()).unwrap();
    assert_eq!(a.wall_chunks.len(), 0);
    assert_eq!(a.sprite_chunks.len(), 0);
    // the padding bytes of chunk 1 never reach the caller
    assert_eq!(a.raw_pcm_chunks, vec![vec![1, 2, 3, 4, 5]]);
}

#[test]
fn test_vswap_partitions_by_pivots() {
    let mut f = Vec::new();
    f.extend_from_slice(&le16(4)); // chunk count
    f.extend_from_slice(&le16(1)); // sprites start at 1
    f.extend_from_slice(&le16(2)); // sounds start at 2
    f.extend_from_slice(&le32(30)); // chunk 0: wall
    f.extend_from_slice(&le32(32)); // chunk 1: sprite
    f.extend_from_slice(&le32(34)); // chunk 2: sound
    f.extend_from_slice(&le32(36)); // chunk 3: descriptor
    f.extend_from_slice(&le16(2));
    f.extend_from_slice(&le16(2));
    f.extend_from_slice(&le16(2));
    f.extend_from_slice(&le16(8));
    assert_eq!(f.len(), 30);
    f.extend_from_slice(&[11, 12]); // wall
    f.extend_from_slice(&[21, 22]); // sprite
    f.extend_from_slice(&[31, 32]); // sound
    f.extend_from_slice(&le16(0));
    f.extend_from_slice(&le16(2));
    f.extend_from_slice(&le16(1));
    f.extend_from_slice(&le16(0));
    let a = VSWAPArchive::open(&f).unwrap();
    assert_eq!(a.wall_chunks, vec![vec![11, 12]]);
    assert_eq!(a.sprite_chunks, vec![vec![21, 22]]);
    assert_eq!(a.raw_pcm_chunks, vec![vec![31, 32]]);
}

#[test]
fn test_vswap_rejects_short_file() {
    assert_eq!(VSWAPArchive::open(&[1, 0, 0]), Err(WolfError::Format));
}

#[test]
fn test_vswap_rejects_empty_table() {
    let mut f = Vec::new();
    f.extend_from_slice(&le16(0));
    f.extend_from_slice(&le16(0));
    f.extend_from_slice(&le16(0));
    assert_eq!(VSWAPArchive::open(&f), Err(WolfError::Format));
}

#[test]
fn test_vswap_rejects_out_of_bounds_chunk() {
    let mut f = Vec::new();
    f.extend_from_slice(&le16(1));
    f.extend_from_slice(&le16(0));
    f.extend_from_slice(&le16(0));
    f.extend_from_slice(&le32(100)); // far past the file
    f.extend_from_slice(&le16(4));
    assert_eq!(VSWAPArchive::open(&f), Err(WolfError::Bounds));
}

#[test]
fn test_vswap_rejects_backwards_descriptor() {
    let mut f = sound_archive();
    // entry 1 now starts before entry 0
    let n = f.len();
    f[n - 8..n - 6].copy_from_slice(&le16(2));
    f[n - 4..n - 2].copy_from_slice(&le16(0));
    assert_eq!(VSWAPArchive::open(&f), Err(WolfError::Bounds));
}

#[test]
fn test_rasterize_wall_transposes_texture() {
    let mut wall = vec![0u8; 4096];
    wall[2 * 64 + 5] = 9; // texel at column 2, row 5
    let a = VSWAPArchive {
        wall_chunks: vec![wall],
        sprite_chunks: Vec::new(),
        raw_pcm_chunks: Vec::new(),
    };
    let mut palette = vec![0u32; 256];
    for i in 0..256 {
        palette[i] = 0xAA00 + i as u32;
    }
    let mut out = vec![1u32; 5000];
    a.rasterize_wall(0, &palette, &mut out);
    // column-major texel (x = 2, y = 5) lands at row-major cell (5, 2)
    assert_eq!(out[5 * 64 + 2], palette[9]);
    assert_eq!(out[2 * 64 + 5], palette[0]);
    assert_eq!(out[0], palette[0]);
    // beyond the 64 by 64 image the buffer is untouched
    assert_eq!(out[4096], 1);
    assert_eq!(out[4999], 1);
}

#[test]
fn test_rasterize_sprite_single_column() {
    // one visible column with one run of two rows
    let mut s = Vec::new();
    s.extend_from_slice(&le16(0)); // left column
    s.extend_from_slice(&le16(0)); // right column
    s.extend_from_slice(&le16(9)); // run list of column 0 at byte 9
    s.extend_from_slice(&[7, 8, 9]); // pixel pool, cursor starts at 6
    s.extend_from_slice(&le16(4)); // ending row, doubled: rows end at 2
    s.extend_from_slice(&le16(0)); // unused word
    s.extend_from_slice(&le16(0)); // starting row, doubled: rows start at 0
    s.extend_from_slice(&le16(0)); // end of the column
    let a = VSWAPArchive {
        wall_chunks: Vec::new(),
        sprite_chunks: vec![s],
        raw_pcm_chunks: Vec::new(),
    };
    let mut palette = vec![0u32; 256];
    for i in 0..256 {
        palette[i] = 0xBB00 + i as u32;
    }
    let mut out = vec![3u32; 4096];
    a.rasterize_sprite(0, &palette, &mut out).unwrap();
    assert_eq!(out[0], palette[7]); // row 0 of column 0
    assert_eq!(out[64], palette[8]); // row 1 of column 0
    assert_eq!(out[128], 3); // the run ended before row 2
    assert_eq!(out[1], 3); // other columns untouched
}

#[test]
fn test_rasterize_sprite_rejects_reversed_columns() {
    let mut s = Vec::new();
    s.extend_from_slice(&le16(5)); // left column
    s.extend_from_slice(&le16(2)); // right column before it
    let a = VSWAPArchive {
        wall_chunks: Vec::new(),
        sprite_chunks: vec![s],
        raw_pcm_chunks: Vec::new(),
    };
    let palette = vec![0u32; 256];
    let mut out = vec![3u32; 4096];
    assert_eq!(a.rasterize_sprite(0, &palette, &mut out), Err(WolfError::Format));
    // nothing was written
    assert!(out.iter().all(|&p| p == 3));
}
