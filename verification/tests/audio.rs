use libwolf::audiot::read_audiohed;
use libwolf::audiot::read_audiot_chunk;
use libwolf::imf::ImfCommand;
use libwolf::imf::ImfPlayer;
use libwolf::WolfError;

#[test]
fn test_read_audiohed_whole_words() {
    let header = [1, 0, 0, 0, 5, 0, 0, 0];
    assert_eq!(read_audiohed(&header), vec![1, 5]);
}

#[test]
fn test_read_audiohed_ignores_trailing_bytes() {
    let header = [1, 0, 0, 0, 5, 0, 0, 0, 0xEE];
    assert_eq!(read_audiohed(&header), vec![1, 5]);
}

#[test]
fn test_read_audiohed_empty() {
    assert_eq!(read_audiohed(&[]), Vec::<u32>::new());
}

#[test]
fn test_read_audiot_chunk_slices_between_offsets() {
    let data = [9, 8, 7, 6, 5, 4];
    let offsets = [2u32, 5];
    assert_eq!(read_audiot_chunk(&data, 0, &offsets).unwrap(), vec![7, 6, 5]);
}

#[test]
fn test_read_audiot_chunk_needs_next_offset() {
    let data = [9, 8, 7];
    let offsets = [2u32];
    assert_eq!(read_audiot_chunk(&data, 0, &offsets), Err(WolfError::Format));
}

#[test]
fn test_read_audiot_chunk_rejects_backwards_offsets() {
    let data = [9, 8, 7];
    let offsets = [2u32, 1];
    assert_eq!(read_audiot_chunk(&data, 0, &offsets), Err(WolfError::Format));
}

#[test]
fn test_read_audiot_chunk_out_of_bounds() {
    let data = [9, 8, 7];
    let offsets = [2u32, 9];
    assert_eq!(read_audiot_chunk(&data, 0, &offsets), Err(WolfError::Bounds));
}

#[test]
fn test_imf_player_steps_and_rewinds() {
    // one command: write 0x41 to register 0x20, then wait two ticks
    let chunk = vec![6, 0, 0x20, 0x41, 2, 0];
    let mut p = ImfPlayer::new(chunk).unwrap();
    assert_eq!(p.next_command(), Some(ImfCommand { reg: 0x20, value: 0x41 }));
    // the next command is two ticks away
    assert_eq!(p.next_command(), None);
    p.advance_tick();
    assert_eq!(p.next_command(), None);
    p.advance_tick();
    // due now, but the stream is done: rewind, nothing due this call
    assert_eq!(p.next_command(), None);
    // after the rewind the song repeats from the top
    assert_eq!(p.next_command(), Some(ImfCommand { reg: 0x20, value: 0x41 }));
}

#[test]
fn test_imf_player_rejects_misdeclared_length() {
    assert_eq!(ImfPlayer::new(vec![9, 0, 1, 2, 3, 4]).err().unwrap(), WolfError::Format);
    assert_eq!(ImfPlayer::new(vec![5, 0, 1, 2, 3, 4]).err().unwrap(), WolfError::Format);
    assert_eq!(ImfPlayer::new(vec![1]).err().unwrap(), WolfError::Format);
}

#[test]
fn test_omf_music_data_collects_music_records() {
    let mut s = Vec::new();
    s.extend_from_slice(&[0x10, 2, 0, 0xAA, 0xBB]); // some other record
    s.extend_from_slice(&[0xA0, 6, 0, 1, 2, 3, 0x51, 0x52, 9]); // music
    s.extend_from_slice(&[0xA0, 4, 0, 4, 5, 6, 7]); // music, empty payload
    assert_eq!(libwolf::omf::omf_music_data(&s).unwrap(), vec![0x51, 0x52]);
}

#[test]
fn test_omf_music_data_rejects_truncated_record() {
    let s = [0xA0, 9, 0, 1, 2];
    assert_eq!(libwolf::omf::omf_music_data(&s), Err(WolfError::Format));
}

#[test]
fn test_omf_music_data_empty_stream() {
    assert_eq!(libwolf::omf::omf_music_data(&[]).unwrap(), Vec::<u8>::new());
}
