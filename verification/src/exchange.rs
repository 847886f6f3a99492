//! The transport exchange's verified half: splitting an encoded frame
//! into the fixed-size chunks that are written to the transport with a
//! short pause between them, and classifying the outcome of the single
//! bounded reply read. The writes, the pause, and the read itself are
//! the surrounding application's work.

use vstd::prelude::*;

use crate::codec::{decode, response_frame};
use crate::command::{FlasherError, Response};

verus! {

/// Size of one transport write: the peer cannot absorb a whole frame as
/// a single burst at the chosen link rate.
pub const CHUNK_LEN: usize = 16;

/// Size of the receive buffer for the single bounded reply read.
pub const READ_BUF_LEN: usize = 32;

/// The transport read timeout, in milliseconds.
pub const READ_TIMEOUT_MS: u64 = 10000;

/// The pacing pause between chunk writes, in milliseconds.
pub const INTER_CHUNK_DELAY_MS: u64 = 1;

/// Splits a frame into the chunks to write: every chunk is full except
/// possibly the last, no chunk is empty, and in order they carry
/// exactly the frame's bytes.
pub fn chunk_frame(frame: &Vec<u8>) -> (chunks: Vec<Vec<u8>>)
    ensures
        chunks@.map_values(|c: Vec<u8>| c@).flatten() == frame@,
        forall|i: int| 0 <= i < chunks@.len() ==> 1 <= (#[trigger] chunks@[i])@.len() <= CHUNK_LEN,
        forall|i: int| 0 <= i < chunks@.len() - 1 ==> (#[trigger] chunks@[i])@.len() == CHUNK_LEN,
{
    let mut chunks: Vec<Vec<u8>> = Vec::new();
    let mut i: usize = 0;
    proof {
        broadcast use Seq::lemma_flatten_push;

        assert(chunks@.map_values(|c: Vec<u8>| c@).flatten() =~= frame@.subrange(0, 0));
    }
    while i < frame.len()
        invariant
            i <= frame@.len(),
            chunks@.map_values(|c: Vec<u8>| c@).flatten() == frame@.subrange(0, i as int),
            forall|j: int|
                0 <= j < chunks@.len() ==> 1 <= (#[trigger] chunks@[j])@.len() <= CHUNK_LEN,
            forall|j: int|
                0 <= j < chunks@.len() - 1 ==> (#[trigger] chunks@[j])@.len() == CHUNK_LEN,
            chunks@.len() >= 1 ==> (chunks@.last()@.len() == CHUNK_LEN || i == frame@.len()),
        decreases frame@.len() - i,
    {
        let end = if frame.len() - i < CHUNK_LEN {
            frame.len()
        } else {
            i + CHUNK_LEN
        };
        let mut chunk: Vec<u8> = Vec::new();
        proof {
            assert(chunk@ =~= frame@.subrange(i as int, i as int));
        }
        let mut l: usize = i;
        while l < end
            invariant
                i <= l <= end <= frame@.len(),
                chunk@ == frame@.subrange(i as int, l as int),
            decreases end - l,
        {
            chunk.push(frame[l]);
            proof {
                assert(chunk@ =~= frame@.subrange(i as int, l + 1));
            }
            l += 1;
        }
        let ghost chunks_before = chunks@;
        let chunk_len = chunk.len();
        chunks.push(chunk);
        proof {
            broadcast use Seq::lemma_flatten_push;

            assert(chunks@.map_values(|c: Vec<u8>| c@) =~= chunks_before.map_values(
                |c: Vec<u8>| c@,
            ).push(frame@.subrange(i as int, end as int)));
            assert(frame@.subrange(0, i as int) + frame@.subrange(i as int, end as int)
                =~= frame@.subrange(0, end as int));
        }
        i = end;
    }
    proof {
        assert(frame@.subrange(0, frame@.len() as int) =~= frame@);
    }
    chunks
}

/// Classifies the single bounded read of the exchange: no data within
/// the timeout (or an empty read) is the no-response failure; received
/// bytes either decode into the device's reply or are the
/// deserialization failure.
pub fn interpret_read(read: Option<&Vec<u8>>) -> (r: Result<Response, FlasherError>)
    ensures
        read is None ==> r == Err::<Response, FlasherError>(FlasherError::NoResponse),
        read matches Some(buf) ==> {
            &&& buf@.len() == 0 ==> r == Err::<Response, FlasherError>(FlasherError::NoResponse)
            &&& buf@.len() > 0 ==> {
                &&& (r == Ok::<Response, FlasherError>(Response::Ack) <==> buf@ == response_frame(
                    Response::Ack,
                ))
                &&& (r == Ok::<Response, FlasherError>(Response::Nack) <==> buf@
                    == response_frame(Response::Nack))
                &&& (r == Err::<Response, FlasherError>(FlasherError::CouldntDeserialize) <==> (
                buf@ != response_frame(Response::Ack) && buf@ != response_frame(Response::Nack)))
            }
        },
{
    match read {
        None => Err(FlasherError::NoResponse),
        Some(buf) => {
            if buf.len() == 0 {
                Err(FlasherError::NoResponse)
            } else {
                match decode(buf) {
                    Ok(resp) => Ok(resp),
                    Err(_) => Err(FlasherError::CouldntDeserialize),
                }
            }
        }
    }
}

} // verus!
