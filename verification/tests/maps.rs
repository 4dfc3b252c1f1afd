use libwolf::gamemaps::Gamemaps;
use libwolf::gamemaps::get_plane_data;
use libwolf::WolfError;

// A header with the RLEW tag 0xABCD and a single used slot, and a data
// file holding one one-by-one map whose three planes share the same
// six compressed bytes.
fn one_map_files() -> (Vec<u8>, Vec<u8>) {
    let mut maphead = vec![0xCD, 0xAB];
    maphead.extend_from_slice(&0u32.to_le_bytes()); // slot 0 unused
    maphead.extend_from_slice(&6u32.to_le_bytes()); // slot 1 at offset 6
    for _ in 2..100 {
        maphead.extend_from_slice(&0u32.to_le_bytes());
    }
    assert_eq!(maphead.len(), 402);
    let mut data = Vec::new();
    // Carmack: two literal words; RLEW below it: one literal word
    data.extend_from_slice(&[0x04, 0x00, 0x02, 0x00, 0xAB, 0xCD]);
    // the 38-byte record
    data.extend_from_slice(&0u32.to_le_bytes()); // plane 0 at 0
    data.extend_from_slice(&0u32.to_le_bytes()); // plane 1 at 0
    data.extend_from_slice(&0u32.to_le_bytes()); // plane 2 at 0
    data.extend_from_slice(&6u16.to_le_bytes()); // three lengths
    data.extend_from_slice(&6u16.to_le_bytes());
    data.extend_from_slice(&6u16.to_le_bytes());
    data.extend_from_slice(&1u16.to_le_bytes()); // width
    data.extend_from_slice(&1u16.to_le_bytes()); // height
    data.extend_from_slice(b"TESTMAP\0\0\0\0\0\0\0\0\0"); // 16 name bytes
    assert_eq!(data.len(), 44);
    (maphead, data)
}

#[test]
fn test_gamemaps_decodes_used_slot() {
    let (maphead, data) = one_map_files();
    let maps = Gamemaps::new(&maphead, &data).unwrap();
    assert_eq!(maps.len(), 1);
    assert_eq!(maps[0].plane0, vec![0xAB, 0xCD]);
    assert_eq!(maps[0].plane1, vec![0xAB, 0xCD]);
    assert_eq!(maps[0].plane2, vec![0xAB, 0xCD]);
    assert_eq!(maps[0].width, 1);
    assert_eq!(maps[0].height, 1);
    assert_eq!(maps[0].name.as_bytes(), b"TESTMAP\0\0\0\0\0\0\0\0\0");
    // plane length invariant: width * height * 2
    assert_eq!(maps[0].plane0.len(), 1 * 1 * 2);
}

#[test]
fn test_gamemaps_skips_zero_slots() {
    // all slots zero: no records and no error
    let mut maphead = vec![0xCD, 0xAB];
    maphead.extend_from_slice(&[0u8; 400]);
    let maps = Gamemaps::new(&maphead, &[]).unwrap();
    assert_eq!(maps.len(), 0);
}

#[test]
fn test_gamemaps_rejects_out_of_bounds_record() {
    let mut maphead = vec![0xCD, 0xAB];
    maphead.extend_from_slice(&1000u32.to_le_bytes());
    for _ in 1..100 {
        maphead.extend_from_slice(&0u32.to_le_bytes());
    }
    assert_eq!(Gamemaps::new(&maphead, &[0u8; 16]), Err(WolfError::Bounds));
}

#[test]
fn test_gamemaps_rejects_short_header() {
    assert_eq!(Gamemaps::new(&[0xCD, 0xAB], &[]), Err(WolfError::Format));
}

#[test]
fn test_get_plane_data_slices_expands() {
    let data = [0x04, 0x00, 0x02, 0x00, 0xAB, 0xCD];
    assert_eq!(get_plane_data(&data, 0, 6, 0xABCD).unwrap(), vec![0xAB, 0xCD]);
}

#[test]
fn test_get_plane_data_out_of_bounds() {
    let data = [0x04, 0x00];
    assert_eq!(get_plane_data(&data, 0, 6, 0xABCD), Err(WolfError::Bounds));
}
