use tbmp::frame::{encode_all, encode_frame, FrameError, FrameReader, HEADER_LEN, MAX_PAYLOAD};

#[test]
fn frame_is_length_then_payload() {
    assert_eq!(encode_frame(&[7, 8, 9]), Ok(vec![0, 0, 0, 3, 7, 8, 9]));
    assert_eq!(encode_frame(&[]), Ok(vec![0, 0, 0, 0]));
}

#[test]
fn header_is_big_endian() {
    let framed = encode_frame(&vec![1u8; 0x0102_03]).unwrap();
    assert_eq!(framed.len(), HEADER_LEN + 0x0102_03);
    assert_eq!(framed[..4], [0, 1, 2, 3]);
    let framed = encode_frame(&vec![1u8; 256]).unwrap();
    assert_eq!(framed[..4], [0, 0, 1, 0]);
}

#[test]
fn longest_payload_is_framed() {
    assert_eq!(MAX_PAYLOAD, 16_777_215);
    let framed = encode_frame(&vec![3u8; MAX_PAYLOAD]).unwrap();
    assert_eq!(framed.len(), 4 + MAX_PAYLOAD);
    assert_eq!(framed[..5], [0, 255, 255, 255, 3]);
    let mut reader = FrameReader::new();
    let got = reader.receive(&framed);
    assert_eq!(got.len(), 1);
    assert_eq!(got[0].len(), MAX_PAYLOAD);
    assert_eq!(reader.check(), Ok(()));
}

#[test]
fn longer_payload_is_refused() {
    let long = vec![0u8; MAX_PAYLOAD + 1];
    assert_eq!(encode_frame(&long), Err(FrameError::TooLong));
    assert_eq!(encode_all(&vec![vec![1], long, vec![2]]), Err(FrameError::TooLong));
}

#[test]
fn header_beyond_the_limit_breaks_the_stream() {
    let mut reader = FrameReader::new();
    assert_eq!(reader.check(), Ok(()));
    let got = reader.receive(&[0, 0, 0, 1, 5, 1, 0, 0, 0, 9, 9]);
    assert_eq!(got, vec![vec![5]]);
    assert_eq!(reader.check(), Err(FrameError::Malformed));
    assert_eq!(reader.pending(), 6);
    assert!(reader.receive(&[0, 0, 0, 1, 7]).is_empty());
    assert_eq!(reader.check(), Err(FrameError::Malformed));
    assert_eq!(reader.pending(), 11);
}

#[test]
fn part_of_a_header_is_no_fault() {
    let mut reader = FrameReader::new();
    assert!(reader.receive(&[255, 255, 255]).is_empty());
    assert_eq!(reader.check(), Ok(()));
    assert!(reader.receive(&[255]).is_empty());
    assert_eq!(reader.check(), Err(FrameError::Malformed));
}

#[test]
fn frames_are_joined_in_order() {
    let stream = encode_all(&vec![vec![1, 2], vec![], vec![3]]);
    assert_eq!(stream, Ok(vec![0, 0, 0, 2, 1, 2, 0, 0, 0, 0, 0, 0, 0, 1, 3]));
    assert_eq!(encode_all(&vec![]), Ok(vec![]));
}

#[test]
fn reader_waits_for_a_whole_header() {
    let mut reader = FrameReader::new();
    assert_eq!(reader.pending(), 0);
    assert!(reader.receive(&[0, 0]).is_empty());
    assert_eq!(reader.pending(), 2);
    assert!(reader.receive(&[0]).is_empty());
    assert_eq!(reader.pending(), 3);
    assert_eq!(reader.receive(&[1, 42]), vec![vec![42]]);
    assert_eq!(reader.pending(), 0);
}

#[test]
fn reader_waits_for_a_whole_payload() {
    let mut reader = FrameReader::new();
    assert!(reader.receive(&[0, 0, 0, 3, 1]).is_empty());
    assert_eq!(reader.pending(), 5);
    assert!(reader.receive(&[2]).is_empty());
    assert_eq!(reader.receive(&[3]), vec![vec![1, 2, 3]]);
    assert_eq!(reader.pending(), 0);
}

#[test]
fn reader_hands_out_every_frame_of_one_read() {
    let mut reader = FrameReader::new();
    let got = reader.receive(&[0, 0, 0, 1, 9, 0, 0, 0, 0, 0, 0, 0, 2, 8, 7, 0, 0]);
    assert_eq!(got, vec![vec![9], vec![], vec![8, 7]]);
    assert_eq!(reader.pending(), 2);
    assert_eq!(reader.receive(&[0, 1, 6]), vec![vec![6]]);
}

#[test]
fn reader_given_nothing_does_nothing() {
    let mut reader = FrameReader::new();
    assert!(reader.receive(&[]).is_empty());
    assert_eq!(reader.pending(), 0);
    assert!(reader.receive(&[0, 0, 0, 2, 5]).is_empty());
    assert!(reader.receive(&[]).is_empty());
    assert!(reader.receive(&[]).is_empty());
    assert_eq!(reader.pending(), 5);
    assert_eq!(reader.receive(&[4]), vec![vec![5, 4]]);
}

#[test]
fn stream_survives_any_cut() {
    let payloads: Vec<Vec<u8>> = vec![vec![1, 2, 3], vec![], vec![0; 300], vec![4]];
    let stream = encode_all(&payloads).unwrap();
    for cut in 0..=stream.len() {
        let mut reader = FrameReader::new();
        let mut got = reader.receive(&stream[..cut]);
        got.extend(reader.receive(&stream[cut..]));
        assert_eq!(got, payloads);
        assert_eq!(reader.pending(), 0);
    }
    let mut reader = FrameReader::new();
    let mut got: Vec<Vec<u8>> = Vec::new();
    for byte in stream.iter() {
        got.extend(reader.receive(&[*byte]));
    }
    assert_eq!(got, payloads);
    assert_eq!(reader.pending(), 0);
}

#[test]
fn serialized_messages_cross_the_stream_unchanged() {
    let messages: Vec<(u8, String, Option<u32>)> = vec![
        (1, String::from("first"), None),
        (2, String::new(), Some(7)),
        (3, String::from("a longer message to split over reads"), Some(u32::MAX)),
    ];
    let payloads: Vec<Vec<u8>> =
        messages.iter().map(|message| bincode::serialize(message).unwrap()).collect();
    let stream = encode_all(&payloads).unwrap();
    let mut reader = FrameReader::new();
    let mut arrived: Vec<(u8, String, Option<u32>)> = Vec::new();
    for chunk in stream.chunks(7) {
        for payload in reader.receive(chunk) {
            arrived.push(bincode::deserialize(&payload).unwrap());
        }
    }
    assert_eq!(arrived, messages);
    assert_eq!(reader.pending(), 0);
}
