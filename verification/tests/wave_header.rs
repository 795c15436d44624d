use diysynth::wave::check_pcm_fields;
use diysynth::{MinimalWaveHeader, WaveError};

#[test]
fn header_for_one_16_bit_frame_is_byte_exact() {
    let header = MinimalWaveHeader::new(40, 16, 1, 1, 44100, 88200, 2, 16, 4);
    let mut sink: Vec<u8> = Vec::new();
    header.write_wave_header(&mut sink);
    let expected: Vec<u8> = vec![
        0x52, 0x49, 0x46, 0x46, // "RIFF"
        40, 0, 0, 0, // chunk size
        0x57, 0x41, 0x56, 0x45, // "WAVE"
        0x66, 0x6d, 0x74, 0x20, // "fmt "
        16, 0, 0, 0, // format sub-chunk size
        1, 0, // PCM
        1, 0, // channels
        0x44, 0xac, 0, 0, // 44100
        0x88, 0x58, 0x01, 0, // 88200
        2, 0, // block align
        16, 0, // bits per sample
        0x64, 0x61, 0x74, 0x61, // "data"
        4, 0, 0, 0, // data size
    ];
    assert_eq!(sink, expected);
    assert_eq!(&sink[0..4], b"RIFF");
    assert_eq!(&sink[8..12], b"WAVE");
    assert_eq!(&sink[12..16], b"fmt ");
    assert_eq!(&sink[36..40], b"data");
}

#[test]
fn raw_bytes_follow_a_derived_header() {
    let mut sink: Vec<u8> = Vec::new();
    let data: [u8; 4] = [0x01, 0x80, 0xff, 0x7f];
    assert!(check_pcm_fields(4, 1, 44100, 16));
    let result = MinimalWaveHeader::write_wave_file_u8(&mut sink, &data, 4, 1, 44100, 16);
    assert_eq!(result, Ok(()));
    assert_eq!(sink.len(), 48);
    let header = MinimalWaveHeader::new(40, 16, 1, 1, 44100, 88200, 2, 16, 4);
    let mut expected: Vec<u8> = Vec::new();
    header.write_wave_header(&mut expected);
    expected.extend_from_slice(&data);
    assert_eq!(sink, expected);
}

#[test]
fn raw_bytes_of_the_wrong_length_write_nothing() {
    let mut sink: Vec<u8> = vec![7, 7];
    let data: [u8; 3] = [1, 2, 3];
    let result = MinimalWaveHeader::write_wave_file_u8(&mut sink, &data, 4, 1, 44100, 16);
    assert_eq!(result, Err(WaveError::LengthMismatch));
    assert_eq!(sink, vec![7, 7]);
}
