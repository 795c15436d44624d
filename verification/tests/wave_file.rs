use diysynth::{Binary32, MinimalWaveHeader, WaveComponent, WaveError};

fn samples(values: &[f32]) -> Vec<Binary32> {
    values.iter().map(|v| Binary32::from_bits(v.to_bits())).collect()
}

#[test]
fn sixteen_bit_file_is_header_then_samples_in_order() {
    let data = samples(&[-1.0, 0.0, 1.0, 0.5]);
    let mut sink: Vec<u8> = Vec::new();
    let result = MinimalWaveHeader::write_wave_file::<i16>(&mut sink, &data, 4, 2, 44100);
    assert_eq!(result, Ok(()));

    let mut expected: Vec<u8> = Vec::new();
    // 8 bytes of data; byte rate 44100 * 2 * 16 / 8; block align 4.
    MinimalWaveHeader::new(44, 16, 1, 2, 44100, 176400, 4, 16, 8).write_wave_header(&mut expected);
    expected.extend_from_slice(&[0x00, 0x80, 0x00, 0x00, 0xff, 0x7f, 0x00, 0x40]);
    assert_eq!(sink, expected);
}

#[test]
fn eight_bit_file_is_header_then_samples_in_order() {
    let data = samples(&[-1.0, 0.0, 1.0]);
    let mut sink: Vec<u8> = vec![0xaa];
    let result = MinimalWaveHeader::write_wave_file::<u8>(&mut sink, &data, 3, 1, 8000);
    assert_eq!(result, Ok(()));

    let mut expected: Vec<u8> = vec![0xaa];
    MinimalWaveHeader::new(39, 16, 1, 1, 8000, 8000, 1, 8, 3).write_wave_header(&mut expected);
    expected.extend_from_slice(&[0x00, 0x80, 0xff]);
    assert_eq!(sink, expected);
}

#[test]
fn thirty_two_bit_file_is_header_then_samples_in_order() {
    let data = samples(&[1.0, -1.0]);
    let mut sink: Vec<u8> = Vec::new();
    let result = MinimalWaveHeader::write_wave_file::<i32>(&mut sink, &data, 2, 1, 48000);
    assert_eq!(result, Ok(()));

    let mut expected: Vec<u8> = Vec::new();
    MinimalWaveHeader::new(44, 16, 1, 1, 48000, 192000, 4, 32, 8).write_wave_header(&mut expected);
    expected.extend_from_slice(&[0xff, 0xff, 0xff, 0x7f, 0x00, 0x00, 0x00, 0x80]);
    assert_eq!(sink, expected);
    assert_eq!(sink.len(), 44 + 8);
}

#[test]
fn a_file_of_no_samples_is_a_bare_header() {
    let mut sink: Vec<u8> = Vec::new();
    let result = MinimalWaveHeader::write_wave_file::<i16>(&mut sink, &[], 0, 1, 44100);
    assert_eq!(result, Ok(()));
    assert_eq!(sink.len(), 44);
    assert_eq!(&sink[4..8], &[36, 0, 0, 0]);
    assert_eq!(&sink[40..44], &[0, 0, 0, 0]);
}

#[test]
fn too_few_samples_write_nothing() {
    let data = samples(&[0.0, 0.5]);
    let mut sink: Vec<u8> = Vec::new();
    let result = MinimalWaveHeader::write_wave_file::<i16>(&mut sink, &data, 3, 1, 44100);
    assert_eq!(result, Err(WaveError::LengthMismatch));
    assert!(sink.is_empty());
}

#[test]
fn too_many_samples_write_nothing() {
    let data = samples(&[0.0, 0.5, 0.25]);
    let mut sink: Vec<u8> = vec![1, 2, 3];
    let result = MinimalWaveHeader::write_wave_file::<u8>(&mut sink, &data, 2, 1, 44100);
    assert_eq!(result, Err(WaveError::LengthMismatch));
    assert_eq!(sink, vec![1, 2, 3]);
}

#[test]
fn payload_is_the_concatenation_of_the_encoded_samples() {
    let values = [0.1f32, -0.2, 0.3, -0.4, 0.9, -0.9];
    let data = samples(&values);
    let mut sink: Vec<u8> = Vec::new();
    MinimalWaveHeader::write_wave_file::<i32>(&mut sink, &data, 6, 2, 96000).unwrap();
    let mut payload: Vec<u8> = Vec::new();
    for v in &data {
        payload.extend(<i32 as WaveComponent>::float_to_audio_sample(*v));
    }
    assert_eq!(&sink[44..], &payload[..]);
    assert_eq!(&sink[40..44], &24u32.to_le_bytes());
}
