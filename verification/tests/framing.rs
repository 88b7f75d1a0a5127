use dray::framing::{decode_frame, encode_frame, frame_header, frame_length, FRAME_HEADER_LEN};

#[test]
fn the_header_is_the_length_least_significant_byte_first() {
    assert_eq!(FRAME_HEADER_LEN, 4);
    assert_eq!(frame_header(0), [0, 0, 0, 0]);
    assert_eq!(frame_header(1), [1, 0, 0, 0]);
    assert_eq!(frame_header(0x0102_0304), [4, 3, 2, 1]);
    assert_eq!(frame_header(256), [0, 1, 0, 0]);
    assert_eq!(frame_header(u32::MAX), [255, 255, 255, 255]);
    assert_eq!(frame_header(0x8000_0000), [0, 0, 0, 128]);
    for len in [0u32, 1, 255, 256, 65535, 65536, 16777215, 16777216, 123456789, u32::MAX] {
        assert_eq!(frame_header(len), len.to_le_bytes());
    }
}

#[test]
fn the_length_is_read_back_from_the_header() {
    assert_eq!(frame_length(&[0, 0, 0, 0]), 0);
    assert_eq!(frame_length(&[4, 3, 2, 1]), 0x0102_0304);
    assert_eq!(frame_length(&[255, 255, 255, 255]), u32::MAX);
    for len in [0u32, 1, 255, 256, 65535, 65536, 16777215, 16777216, 123456789, u32::MAX] {
        assert_eq!(frame_length(&frame_header(len)), len);
        assert_eq!(frame_length(&len.to_le_bytes()), len);
    }
}

#[test]
fn a_frame_is_header_then_body() {
    assert_eq!(encode_frame(&vec![1, 2, 3]), Some(vec![3, 0, 0, 0, 1, 2, 3]));
    assert_eq!(encode_frame(&Vec::new()), Some(vec![0, 0, 0, 0]));
    let body = vec![7u8; 300];
    let frame = encode_frame(&body).unwrap();
    assert_eq!(&frame[..4], &[44, 1, 0, 0]);
    assert_eq!(&frame[4..], &body[..]);
}

#[test]
fn an_incomplete_frame_is_not_read() {
    assert_eq!(decode_frame(&Vec::new()), None);
    assert_eq!(decode_frame(&vec![3]), None);
    assert_eq!(decode_frame(&vec![3, 0, 0]), None);
    assert_eq!(decode_frame(&vec![3, 0, 0, 0]), None);
    assert_eq!(decode_frame(&vec![3, 0, 0, 0, 1, 2]), None);
    assert_eq!(decode_frame(&vec![255, 255, 255, 255, 1, 2]), None);
}

#[test]
fn a_frame_is_read_and_what_follows_is_left() {
    assert_eq!(decode_frame(&vec![3, 0, 0, 0, 1, 2, 3]), Some((vec![1, 2, 3], 7)));
    assert_eq!(decode_frame(&vec![0, 0, 0, 0]), Some((Vec::new(), 4)));
    assert_eq!(decode_frame(&vec![0, 0, 0, 0, 9, 9]), Some((Vec::new(), 4)));
    assert_eq!(decode_frame(&vec![2, 0, 0, 0, 5, 6, 1, 0, 0, 0, 7]), Some((vec![5, 6], 6)));
    let stream = vec![2, 0, 0, 0, 5, 6, 1, 0, 0, 0, 7];
    let (first, used) = decode_frame(&stream).unwrap();
    let (second, more) = decode_frame(&stream[used..].to_vec()).unwrap();
    assert_eq!(first, vec![5, 6]);
    assert_eq!(second, vec![7]);
    assert_eq!(used + more, stream.len());
}

#[test]
fn framing_a_thousand_bodies_and_reading_them_back_gives_the_bodies() {
    let mut seed: u64 = 0x2545_f491_4f6c_dd1d;
    for round in 0..1000 {
        seed = seed.wrapping_mul(6364136223846793005).wrapping_add(1442695040888963407);
        let len = ((seed >> 50) as usize) % 700 + if round % 7 == 0 { 0 } else { 1 };
        let mut body = Vec::with_capacity(len);
        for _ in 0..len {
            seed = seed.wrapping_mul(6364136223846793005).wrapping_add(1442695040888963407);
            body.push((seed >> 56) as u8);
        }
        let mut stream = encode_frame(&body).unwrap();
        assert_eq!(stream.len(), body.len() + 4);
        let tail = [(seed >> 8) as u8, (seed >> 16) as u8];
        stream.extend_from_slice(&tail);
        let (read, used) = decode_frame(&stream).unwrap();
        assert_eq!(read, body);
        assert_eq!(used, body.len() + 4);
        assert_eq!(&stream[used..], &tail);
    }
}
