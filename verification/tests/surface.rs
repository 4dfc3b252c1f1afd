use libwolf::blit::ScratchBuffer;
use libwolf::signon::draw;

#[test]
fn test_signon_draw_copies_image() {
    let mut signon = vec![0u8; 64000];
    for i in 0..64000 {
        signon[i] = (i % 251) as u8;
    }
    let mut out = vec![0xEEu8; 64010];
    draw(&signon, &mut out);
    assert_eq!(out[0], signon[0]);
    assert_eq!(out[12345], signon[12345]);
    assert_eq!(out[63999], signon[63999]);
    // bytes past the image are untouched
    assert_eq!(out[64000], 0xEE);
    assert_eq!(out[64009], 0xEE);
}

#[test]
fn test_scratch_buffer_starts_blank() {
    let palette = vec![0u32; 256];
    let sb = ScratchBuffer::new(&palette);
    assert_eq!(sb.data.len(), 64000);
    assert!(sb.data.iter().all(|&b| b == 0));
}

#[test]
fn test_blit_straight_copy() {
    let mut palette = vec![0u32; 256];
    for i in 0..256 {
        palette[i] = 0xCC00 + i as u32;
    }
    let mut sb = ScratchBuffer::new(&palette);
    sb.data[0] = 1; // pixel (0, 0)
    sb.data[320 + 1] = 2; // pixel (1, 1)
    let mut out = vec![5u32; 320 * 200];
    sb.blit(2, 2, &mut out, 10, 20, false);
    assert_eq!(out[20 * 320 + 10], palette[1]);
    assert_eq!(out[21 * 320 + 11], palette[2]);
    assert_eq!(out[20 * 320 + 11], palette[0]);
    // outside the two-by-two rectangle nothing moved
    assert_eq!(out[20 * 320 + 12], 5);
    assert_eq!(out[0], 5);
}

#[test]
fn test_blit_rotated_copy() {
    let mut palette = vec![0u32; 256];
    for i in 0..256 {
        palette[i] = 0xDD00 + i as u32;
    }
    let mut sb = ScratchBuffer::new(&palette);
    sb.data[2 * 320 + 1] = 3; // scratch pixel at row 2, column 1
    let mut out = vec![5u32; 320 * 200];
    // a three-wide, two-high source, transposed on the way out
    sb.blit(3, 2, &mut out, 0, 0, true);
    // the transposed rectangle is two wide and three high, read
    // row-major from the scratch surface as it stands
    assert_eq!(out[2 * 320 + 1], palette[3]);
    assert_eq!(out[1 * 320 + 2], 5); // outside the transposed rectangle
    assert_eq!(out[0], palette[0]);
    assert_eq!(out[2 * 320 + 2], 5);
}
