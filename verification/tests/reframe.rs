use bevy_light_field::reframe::{convert_h264, FramingError};

#[test]
fn reframes_every_length_prefix() {
    let mut data = vec![0, 0, 0, 2, 0xAA, 0xBB, 0, 0, 0, 0, 0, 0, 0, 3, 1, 2, 3];
    assert_eq!(convert_h264(&mut data), Ok(()));
    assert_eq!(data, vec![0, 0, 0, 1, 0xAA, 0xBB, 0, 0, 0, 1, 0, 0, 0, 1, 1, 2, 3]);
}

#[test]
fn reframes_an_empty_buffer() {
    let mut data: Vec<u8> = vec![];
    assert_eq!(convert_h264(&mut data), Ok(()));
    assert!(data.is_empty());
}

#[test]
fn reads_the_length_big_endian() {
    let mut data = vec![0u8; 4 + 0x0102];
    data[2] = 0x01;
    data[3] = 0x02;
    data[4] = 7;
    assert_eq!(convert_h264(&mut data), Ok(()));
    assert_eq!(&data[..5], &[0, 0, 0, 1, 7]);
    assert!(data[5..].iter().all(|b| *b == 0));
}

#[test]
fn rejects_a_partial_body() {
    let mut data = vec![0, 0, 0, 1, 9, 0, 0, 0, 5, 1, 2];
    assert_eq!(convert_h264(&mut data), Err(FramingError::PartialBody));
    // The unit before the cut is reframed, the cut-short unit is untouched.
    assert_eq!(data, vec![0, 0, 0, 1, 9, 0, 0, 0, 5, 1, 2]);
}

#[test]
fn rejects_a_partial_length() {
    let mut data = vec![0, 0, 0, 1, 9, 0, 0, 7];
    assert_eq!(convert_h264(&mut data), Err(FramingError::PartialLength));
    assert_eq!(data, vec![0, 0, 0, 1, 9, 0, 0, 7]);
}

#[test]
fn rejects_a_buffer_shorter_than_a_length() {
    for len in 1..4 {
        let mut data = vec![5u8; len];
        assert_eq!(convert_h264(&mut data), Err(FramingError::PartialLength));
        assert_eq!(data, vec![5u8; len]);
    }
}

#[test]
fn rejects_a_length_beyond_any_buffer() {
    let mut data = vec![0xFF, 0xFF, 0xFF, 0xFF, 1];
    assert_eq!(convert_h264(&mut data), Err(FramingError::PartialBody));
    assert_eq!(data, vec![0xFF, 0xFF, 0xFF, 0xFF, 1]);
}

#[test]
fn cut_short_body_leaves_its_length_as_it_was() {
    let mut data = vec![0, 0, 0, 5, 0xAA];
    assert_eq!(convert_h264(&mut data), Err(FramingError::PartialBody));
    assert_eq!(data, vec![0, 0, 0, 5, 0xAA]);
}
