use libwolf::gr::GrArchive;
use libwolf::gr::GrArchiveError;
use libwolf::gr::Pic;
use libwolf::gr::PicSize;

// A synthetic archive over the all-zero dictionary: every node's bit0
// child is the literal byte 0, so each zero input byte decodes to
// eight zero bytes.
//
// Layout of the data file:
//   chunk 0 at 0..70:   picture-size table, prefix 528 then 66 zeros
//   chunk 1 at 70..75:  a general chunk, prefix 8 then one zero
//   chunk 2:            sparse
//   chunk 3 at 75..80:  a picture chunk, prefix 4 then one zero
//   chunks 4..=149 at 80: zero-length
fn synthetic_archive() -> GrArchive {
    let dict = vec![0u8; 1020];
    let mut head = Vec::new();
    let offsets: [u32; 4] = [0, 70, 0xFF_FF_FF, 75];
    for off in offsets {
        head.extend_from_slice(&off.to_le_bytes()[..3]);
    }
    for _ in 4..150 {
        head.extend_from_slice(&80u32.to_le_bytes()[..3]);
    }
    assert_eq!(head.len(), 450);
    let mut graph = Vec::new();
    graph.extend_from_slice(&[0x10, 0x02, 0x00, 0x00]); // 528
    graph.extend_from_slice(&[0u8; 66]);
    graph.extend_from_slice(&[0x08, 0x00, 0x00, 0x00, 0x00]);
    graph.extend_from_slice(&[0x04, 0x00, 0x00, 0x00, 0x00]);
    assert_eq!(graph.len(), 80);
    GrArchive::new(&dict, &head, graph).unwrap()
}

#[test]
fn test_gr_expand_chunk_declared_size() {
    let gr = synthetic_archive();
    let chunk = gr.expand_chunk(1).unwrap();
    // the 32-bit prefix declared 8 bytes, and exactly 8 come out
    assert_eq!(chunk, vec![0u8; 8]);
}

#[test]
fn test_gr_expand_chunk_skips_sparse_neighbour() {
    // chunk 1's length is found by scanning past the sparse chunk 2
    let gr = synthetic_archive();
    assert_eq!(gr.expand_chunk(1).unwrap().len(), 8);
    assert_eq!(gr.expand_chunk(3).unwrap().len(), 4);
}

#[test]
fn test_gr_expand_sparse_chunk_fails() {
    let gr = synthetic_archive();
    assert_eq!(gr.expand_chunk(2), Err(GrArchiveError::SparseChunk));
}

#[test]
fn test_gr_expand_tile_chunk_runs_to_stream_end() {
    // the tile chunk carries no size prefix; its empty stream decodes
    // to nothing, and that is a normal end, not an error
    let gr = synthetic_archive();
    assert_eq!(gr.expand_chunk(135).unwrap(), Vec::<u8>::new());
}

#[test]
fn test_gr_load_pic() {
    let gr = synthetic_archive();
    let pic = gr.load_pic(3).unwrap();
    assert_eq!(pic.data, vec![0u8; 4]);
    assert_eq!(pic.size, PicSize { width: 0, height: 0 });
}

#[test]
fn test_gr_load_pic_rejects_non_picture_index() {
    let gr = synthetic_archive();
    assert_eq!(gr.load_pic(0).err().unwrap(), GrArchiveError::NotAPic);
    assert_eq!(gr.load_pic(140).err().unwrap(), GrArchiveError::NotAPic);
}

#[test]
fn test_gr_new_rejects_short_dictionary() {
    let dict = vec![0u8; 100];
    let head = vec![0u8; 450];
    assert_eq!(GrArchive::new(&dict, &head, Vec::new()).err().unwrap(), GrArchiveError::Format);
}

#[test]
fn test_gr_new_rejects_out_of_bounds_chunk() {
    // chunk 0 claims to end far past the data file
    let dict = vec![0u8; 1020];
    let mut head = Vec::new();
    head.extend_from_slice(&[0, 0, 0]);
    for _ in 1..150 {
        head.extend_from_slice(&100u32.to_le_bytes()[..3]);
    }
    let graph = vec![0u8; 10];
    assert_eq!(GrArchive::new(&dict, &head, graph).err().unwrap(), GrArchiveError::Bounds);
}

#[test]
fn test_pic_draw_deinterleaves_planes() {
    // a four-by-one picture: one pixel per plane
    let pic = Pic { size: PicSize { width: 4, height: 1 }, data: vec![10, 20, 30, 40] };
    let mut palette = vec![0u32; 256];
    for i in 0..256 {
        palette[i] = 0xFF00 + i as u32;
    }
    let mut out = vec![7u32; 320 * 3];
    pic.draw(2, 1, &mut out, &palette);
    // drawn at row 1, four-pixel column unit 2: cells 328..332
    assert_eq!(out[328], palette[10]);
    assert_eq!(out[329], palette[20]);
    assert_eq!(out[330], palette[30]);
    assert_eq!(out[331], palette[40]);
    // neighbours untouched
    assert_eq!(out[327], 7);
    assert_eq!(out[332], 7);
    assert_eq!(out[8], 7);
}
