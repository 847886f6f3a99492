use serial_flasher::codec::encode;
use serial_flasher::command::{Command, FlasherError, Response};
use serial_flasher::exchange::{chunk_frame, interpret_read, CHUNK_LEN};

#[test]
fn chunks_carry_the_frame_in_order() {
    let frame: Vec<u8> = (0..40u8).collect();
    let chunks = chunk_frame(&frame);
    assert_eq!(chunks.len(), 3);
    assert_eq!(chunks[0].len(), CHUNK_LEN);
    assert_eq!(chunks[1].len(), CHUNK_LEN);
    assert_eq!(chunks[2].len(), 8);
    let rejoined: Vec<u8> = chunks.concat();
    assert_eq!(rejoined, frame);
}

#[test]
fn one_full_chunk_for_a_chunk_sized_frame() {
    let frame: Vec<u8> = (0..16u8).collect();
    let chunks = chunk_frame(&frame);
    assert_eq!(chunks.len(), 1);
    assert_eq!(chunks[0], frame);
}

#[test]
fn no_chunks_for_an_empty_frame() {
    let chunks = chunk_frame(&Vec::new());
    assert!(chunks.is_empty());
}

#[test]
fn page_write_frame_chunks_rejoin() {
    let page: Vec<u8> = (0..256u32).map(|i| (i % 11) as u8).collect();
    let frame = encode(&Command::WritePage(512, page, 0x42));
    let chunks = chunk_frame(&frame);
    for chunk in &chunks[..chunks.len() - 1] {
        assert_eq!(chunk.len(), CHUNK_LEN);
    }
    assert!(!chunks.last().unwrap().is_empty());
    assert!(chunks.last().unwrap().len() <= CHUNK_LEN);
    let rejoined: Vec<u8> = chunks.concat();
    assert_eq!(rejoined, frame);
}

#[test]
fn missing_read_is_no_response() {
    assert_eq!(interpret_read(None), Err(FlasherError::NoResponse));
}

#[test]
fn empty_read_is_no_response() {
    assert_eq!(interpret_read(Some(&Vec::new())), Err(FlasherError::NoResponse));
}

#[test]
fn ack_frame_reads_as_ack() {
    assert_eq!(interpret_read(Some(&vec![1, 1, 0])), Ok(Response::Ack));
}

#[test]
fn nack_frame_reads_as_nack() {
    assert_eq!(interpret_read(Some(&vec![2, 1, 0])), Ok(Response::Nack));
}

#[test]
fn garbage_read_is_a_deserialize_failure() {
    assert_eq!(
        interpret_read(Some(&vec![7, 7, 7])),
        Err(FlasherError::CouldntDeserialize)
    );
    assert_eq!(
        interpret_read(Some(&vec![1, 1, 0, 9])),
        Err(FlasherError::CouldntDeserialize)
    );
}
