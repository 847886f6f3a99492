use serial_flasher::codec::{decode, encode, DecodeError};
use serial_flasher::command::{Command, Response};

fn raw_write_page(addr: u64, page: &[u8], crc: u8) -> Vec<u8> {
    let mut raw = vec![2u8];
    raw.extend_from_slice(&addr.to_le_bytes());
    raw.extend_from_slice(page);
    raw.push(crc);
    raw
}

#[test]
fn encode_hello_exact_bytes() {
    let frame = encode(&Command::Hello);
    assert_eq!(frame, vec![1, 1, 0]);
}

#[test]
fn encode_prepare_exact_bytes() {
    let frame = encode(&Command::PrepareForUpdate);
    assert_eq!(frame, vec![2, 1, 0]);
}

#[test]
fn encode_finished_writing_exact_bytes() {
    let frame = encode(&Command::FinishedWriting);
    assert_eq!(frame, vec![2, 3, 0]);
}

#[test]
fn encode_mark_updated_exact_bytes() {
    let frame = encode(&Command::MarkUpdated);
    assert_eq!(frame, vec![2, 5, 0]);
}

#[test]
fn encode_compare_checksum_exact_bytes() {
    let digest: Vec<u8> = (1..=16).collect();
    let frame = encode(&Command::CompareChecksum(0x01020304, digest.clone()));
    // tag, four little-endian length bytes, sixteen digest bytes: all
    // nonzero, so the stuffed form is one group of 21 bytes.
    let mut expected = vec![22u8, 4, 0x04, 0x03, 0x02, 0x01];
    expected.extend_from_slice(&digest);
    expected.push(0);
    assert_eq!(frame, expected);
}

#[test]
fn encode_matches_reference_stuffing_nonzero_page() {
    // a page with no zero byte drives a group past the 254-byte cap
    let page = vec![0x11u8; 256];
    let cmd = Command::WritePage(0x1000, page.clone(), 0xAB);
    let frame = encode(&cmd);
    let mut expected = cobs::encode_vec(&raw_write_page(0x1000, &page, 0xAB));
    expected.push(0);
    assert_eq!(frame, expected);
}

#[test]
fn encode_matches_reference_stuffing_zero_page() {
    let page = vec![0u8; 256];
    let cmd = Command::WritePage(usize::MAX, page.clone(), 0);
    let frame = encode(&cmd);
    let mut expected = cobs::encode_vec(&raw_write_page(u64::MAX, &page, 0));
    expected.push(0);
    assert_eq!(frame, expected);
}

#[test]
fn encode_matches_reference_stuffing_mixed_page() {
    let page: Vec<u8> = (0..256u32).map(|i| (i % 7) as u8).collect();
    let cmd = Command::WritePage(268451840, page.clone(), 0x5C);
    let frame = encode(&cmd);
    let mut expected = cobs::encode_vec(&raw_write_page(268451840, &page, 0x5C));
    expected.push(0);
    assert_eq!(frame, expected);
}

#[test]
fn encoded_frame_has_single_trailing_zero() {
    let page: Vec<u8> = (0..256u32).map(|i| (i % 5) as u8).collect();
    let frame = encode(&Command::WritePage(12345, page, 0x77));
    assert_eq!(*frame.last().unwrap(), 0);
    for &b in &frame[..frame.len() - 1] {
        assert_ne!(b, 0);
    }
}

#[test]
fn decode_ack_frame() {
    assert_eq!(decode(&vec![1, 1, 0]), Ok(Response::Ack));
}

#[test]
fn decode_nack_frame() {
    assert_eq!(decode(&vec![2, 1, 0]), Ok(Response::Nack));
}

#[test]
fn decode_rejects_empty_buffer() {
    assert_eq!(decode(&vec![]), Err(DecodeError));
}

#[test]
fn decode_rejects_truncated_frame() {
    assert_eq!(decode(&vec![1, 1]), Err(DecodeError));
    assert_eq!(decode(&vec![1]), Err(DecodeError));
}

#[test]
fn decode_rejects_trailing_bytes() {
    assert_eq!(decode(&vec![1, 1, 0, 0]), Err(DecodeError));
    assert_eq!(decode(&vec![2, 1, 0, 7]), Err(DecodeError));
}

#[test]
fn decode_rejects_corrupted_bytes() {
    assert_eq!(decode(&vec![3, 1, 0]), Err(DecodeError));
    assert_eq!(decode(&vec![2, 2, 0]), Err(DecodeError));
    assert_eq!(decode(&vec![0, 1, 0]), Err(DecodeError));
    assert_eq!(decode(&vec![255, 255, 255]), Err(DecodeError));
}

#[test]
fn decode_rejects_well_formed_non_reply_frames() {
    // frames that unstuff cleanly but do not carry a single reply tag
    assert_eq!(decode(&vec![3, 1, 2, 0]), Err(DecodeError));
    assert_eq!(decode(&vec![1, 0]), Err(DecodeError));
    assert_eq!(decode(&vec![1, 1, 1, 0]), Err(DecodeError));
}

#[test]
fn decode_inverts_reply_framing() {
    // the device's two possible reply frames, as the reference
    // stuffing produces them
    let mut ack = cobs::encode_vec(&[0u8]);
    ack.push(0);
    let mut nack = cobs::encode_vec(&[1u8]);
    nack.push(0);
    assert_eq!(decode(&ack), Ok(Response::Ack));
    assert_eq!(decode(&nack), Ok(Response::Nack));
}
