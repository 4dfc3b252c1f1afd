use libwolf::carmack::carmack_expand;
use libwolf::rlew::rlew_expand;
use libwolf::WolfError;

#[test]
fn test_decompress_carmack_compression_near_pointers() {
    assert_eq!(
        carmack_expand(&[
            0x10, 0x00, 0xaa, 0xbb, 0xcc, 0xdd, 0xee, 0xff, 0x02, 0xa7, 0x02, 0x01, 0x02, 0x03,
            0x04, 0x05, 0x06,
        ])
        .unwrap(),
        vec![
            0xaa, 0xbb, 0xcc, 0xdd, 0xee, 0xff, 0xcc, 0xdd, 0xee, 0xff, 0x01, 0x02, 0x03, 0x04,
            0x05, 0x06
        ]
    );
}

#[test]
fn test_dcmcnp() {
    assert_eq!(
        carmack_expand(&[
            22, 0x00, 0x00, 0x01, 0x02, 0x03, 0x04, 0x05, 0x06, 0x07, 0x08, 0x09, 0x0A, 0x0B,
            0x04, 0xA7, 0x06, 0x00, 0x01
        ])
        .unwrap(),
        [
            0x00, 0x01, 0x02, 0x03, 0x04, 0x05, 0x06, 0x07, 0x08, 0x09, 0x0A, 0x0B, 0x00, 0x01,
            0x02, 0x03, 0x04, 0x05, 0x06, 0x07, 0x00, 0x01
        ]
    );
}

#[test]
fn test_decompress_carmack_compression_far_pointers() {
    assert_eq!(
        carmack_expand(&[
            0x10, 0x00, 0xaa, 0xbb, 0xcc, 0xdd, 0xee, 0xff, 0x02, 0xa8, 0x01, 0x00, 0x01, 0x02,
            0x03, 0x04, 0x05, 0x06,
        ])
        .unwrap(),
        vec![
            0xaa, 0xbb, 0xcc, 0xdd, 0xee, 0xff, 0xcc, 0xdd, 0xee, 0xff, 0x01, 0x02, 0x03, 0x04,
            0x05, 0x06
        ]
    );
}

#[test]
fn test_decompress_rlew() {
    assert_eq!(
        rlew_expand(&[0x04, 0x00, 0xFE, 0xFE, 0x02, 0x00, 0x03, 0x04], 0xFEFE).unwrap(),
        vec![0x03, 0x04, 0x03, 0x04]
    );
}

#[test]
fn test_decompress_rlew_flag_word() {
    assert_eq!(
        rlew_expand(&[0x02, 0x00, 0xFE, 0xFE, 0x01, 0x00, 0xFE, 0xFE], 0xFEFE).unwrap(),
        vec![0xFE, 0xFE]
    );
}

#[test]
fn test_carmack_round_trip_example() {
    // the reference encoder for marker-free data: the size word, then
    // the data itself
    let data = [0x01u8, 0x02, 0x03, 0x04, 0x00, 0x7F];
    let mut encoded = vec![data.len() as u8, 0x00];
    encoded.extend_from_slice(&data);
    assert_eq!(carmack_expand(&encoded).unwrap(), data.to_vec());
}

#[test]
fn test_rlew_round_trip_example() {
    // a literal word equal to the tag is escaped as a run of one
    let tag: u16 = 0xFEFE;
    let encoded = [
        0x04, 0x00, // decompressed size
        0xFE, 0xFE, 0x01, 0x00, 0xFE, 0xFE, // the tag word itself, as a run of one
        0x12, 0x34, // an ordinary literal word
    ];
    assert_eq!(rlew_expand(&encoded, tag).unwrap(), vec![0xFE, 0xFE, 0x12, 0x34]);
}

#[test]
fn test_carmack_truncated_stream() {
    // the size word promises a word that never comes
    assert_eq!(carmack_expand(&[0x02, 0x00]), Err(WolfError::Format));
}

#[test]
fn test_carmack_empty_input() {
    assert_eq!(carmack_expand(&[]), Err(WolfError::Format));
}

#[test]
fn test_carmack_near_pointer_out_of_range() {
    // a near copy reaching back before the start of the output
    assert_eq!(
        carmack_expand(&[0x04, 0x00, 0x01, 0xA7, 0x05, 0x00, 0x00]),
        Err(WolfError::Bounds)
    );
}

#[test]
fn test_carmack_far_pointer_out_of_range() {
    // a far copy pointing at or past the output cursor
    assert_eq!(
        carmack_expand(&[0x04, 0x00, 0x01, 0x00, 0x01, 0xA8, 0x01, 0x00]),
        Err(WolfError::Bounds)
    );
}

#[test]
fn test_carmack_odd_size_never_matches() {
    // an odd declared size can never be met by whole words
    assert_eq!(carmack_expand(&[0x03, 0x00, 0x01, 0x02]), Err(WolfError::Format));
}

#[test]
fn test_rlew_truncated_run() {
    // the tag announces a run whose count and value are missing
    assert_eq!(rlew_expand(&[0x04, 0x00, 0xFE, 0xFE], 0xFEFE), Err(WolfError::Format));
}

#[test]
fn test_rlew_overshooting_run() {
    // a run that carries the output past the declared size
    assert_eq!(
        rlew_expand(&[0x02, 0x00, 0xFE, 0xFE, 0x02, 0x00, 0x01, 0x02], 0xFEFE),
        Err(WolfError::Format)
    );
}
