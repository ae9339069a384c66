use axsh::hdlc::{decode, encode, frame_fcs, FrameError, FrameReader, ESCAPE, FLAG};

#[test]
fn round_trip_frame() {
    let payload = b"hello, world";
    let frame = encode(payload);
    assert_eq!(decode(&frame).unwrap(), payload);
}

#[test]
fn escape_flag_and_escape_bytes() {
    let payload = [0x7e, 0x7d, 0x00, 0x7e];
    let frame = encode(&payload);
    assert!(frame[1..frame.len() - 1].contains(&ESCAPE));
    assert_eq!(decode(&frame).unwrap(), payload);
}

#[test]
fn reject_bad_fcs() {
    let mut frame = encode(b"payload");
    let idx = frame.len() - 2;
    frame[idx] ^= 0x01;
    let err = decode(&frame).unwrap_err();
    assert!(err.message().contains("FCS mismatch"));
}

#[test]
fn reject_dangling_escape() {
    let err = decode(&[FLAG, 0x00, ESCAPE, FLAG]).unwrap_err();
    assert!(err.message().contains("dangling escape"));
}

#[test]
fn reject_missing_flags() {
    let err = decode(&[1, 2, 3, 4]).unwrap_err();
    assert!(err.message().contains("opening flag"));
}

#[test]
fn frame_of_nothing_holds_its_check_sequence() {
    assert_eq!(encode(b""), vec![0x7e, 0x00, 0x00, 0x7e]);
    assert_eq!(decode(&[0x7e, 0x00, 0x00, 0x7e]), Ok(vec![]));
}

#[test]
fn frame_matches_known_check_sequence() {
    // The X.25 check value of "123456789" is 0x906e.
    let mut expected = vec![FLAG];
    expected.extend(b"123456789");
    expected.extend([0x6e, 0x90, FLAG]);
    assert_eq!(encode(b"123456789"), expected);
}

#[test]
fn stuffed_bytes_are_exact() {
    let frame = encode(&[0x7e, 0x7d]);
    assert_eq!(&frame[..5], &[0x7e, 0x7d, 0x5e, 0x7d, 0x5d]);
}

#[test]
fn each_frame_fault_is_named() {
    assert_eq!(decode(&[FLAG, 0, FLAG]), Err(FrameError::TooShort));
    assert_eq!(decode(&[0, 0, 0, FLAG]), Err(FrameError::MissingOpeningFlag));
    assert_eq!(decode(&[FLAG, 0, 0, 0]), Err(FrameError::MissingClosingFlag));
    assert_eq!(decode(&[FLAG, 0, FLAG, 0, FLAG]), Err(FrameError::UnexpectedFlag));
    assert_eq!(decode(&[FLAG, 0, ESCAPE, FLAG]), Err(FrameError::DanglingEscape));
    assert_eq!(decode(&[FLAG, ESCAPE, 0, FLAG]), Err(FrameError::MissingFcs));
    assert_eq!(decode(&[FLAG, 1, 2, 3, FLAG]), Err(FrameError::FcsMismatch));
    assert_eq!(FrameError::TooShort.message(), "frame too short");
    assert_eq!(FrameError::MissingOpeningFlag.message(), "frame missing opening flag");
    assert_eq!(FrameError::MissingClosingFlag.message(), "frame missing closing flag");
    assert_eq!(FrameError::UnexpectedFlag.message(), "unexpected flag inside frame");
    assert_eq!(FrameError::DanglingEscape.message(), "frame ends with dangling escape");
    assert_eq!(FrameError::MissingFcs.message(), "frame missing FCS");
    assert_eq!(FrameError::FcsMismatch.message(), "frame FCS mismatch");
}

#[test]
fn every_changed_payload_byte_is_refused() {
    let frame = encode(b"payload");
    for i in 1..8 {
        let mut changed = frame.clone();
        changed[i] ^= 0x01;
        assert_eq!(decode(&changed), Err(FrameError::FcsMismatch));
    }
}

#[test]
fn reader_finds_frames_behind_noise() {
    let first = encode(b"one");
    let second = encode(&[0x7e, 0x7d]);
    let mut stream = vec![1, 2, 3];
    stream.extend(&first);
    stream.extend([9, 9]);
    stream.extend(&second);

    let mut reader = FrameReader::new();
    let mut frames = Vec::new();
    for byte in stream {
        if let Some(frame) = reader.push(byte) {
            assert!(!reader.is_in_frame());
            frames.push(frame);
        }
    }
    assert_eq!(frames, vec![first, second]);
}

#[test]
fn reader_knows_whether_it_is_in_a_frame() {
    let mut reader = FrameReader::new();
    assert!(!reader.is_in_frame());
    assert_eq!(reader.push(FLAG), None);
    assert!(reader.is_in_frame());
    assert_eq!(reader.push(7), None);
    assert_eq!(reader.push(FLAG), Some(vec![FLAG, 7, FLAG]));
    assert!(!reader.is_in_frame());
}

#[test]
fn every_change_of_two_adjacent_bytes_is_refused() {
    let frame = encode(b"payload");
    for i in 1..7 {
        for first in 0..=255u8 {
            for second in [0u8, 1, 0x80, 0xff] {
                let mut changed = frame.clone();
                changed[i] = first;
                changed[i + 1] = second;
                let stuffed = |b: u8| b == FLAG || b == ESCAPE;
                if changed == frame || stuffed(first) || stuffed(second) {
                    continue;
                }
                assert_eq!(decode(&changed), Err(FrameError::FcsMismatch));
            }
        }
    }
}

#[test]
fn reader_finds_the_same_frames_in_pieces() {
    let mut stream = encode(b"one");
    stream.extend(encode(b"two"));
    for cut in 0..stream.len() {
        let mut reader = FrameReader::new();
        let mut frames = Vec::new();
        for piece in [&stream[..cut], &stream[cut..]] {
            for byte in piece {
                frames.extend(reader.push(*byte));
            }
        }
        assert_eq!(frames, vec![encode(b"one"), encode(b"two")]);
    }
}

#[test]
fn check_sequence_of_known_values() {
    assert_eq!(frame_fcs(b""), 0);
    assert_eq!(frame_fcs(b"123456789"), 0x906e);
    assert_ne!(frame_fcs(b"123456789"), frame_fcs(b"123465789"));
}
