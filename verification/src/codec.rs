//! The frame codec: commands are laid out as a tag byte followed by
//! their payload fields in declared order (fixed-width little-endian
//! integers, the raw page bytes, the raw digest bytes), then
//! byte-stuffed and closed with the zero frame terminator. Replies are
//! a single tag byte under the same framing; anything else is a decode
//! error, never a third reply value.

use vstd::prelude::*;

use crate::cobs::{
    cobs_stuff, cobs_unstuff, first_zero, lemma_stuff_no_zero, lemma_stuff_round_trip,
    lemma_unstuff_singleton, stuff, unstuff,
};
use crate::command::{command_wf, Command, CommandModel, Response};

verus! {

/// Bytes were received that are not a well-formed reply frame: a
/// truncated frame, corrupted bytes, or trailing garbage.
#[derive(Clone, Copy, Debug, PartialEq, Eq, Structural)]
pub struct DecodeError;

/// The eight little-endian bytes of a 64-bit value.
pub open spec fn u64_le_bytes(v: u64) -> Seq<u8> {
    seq![
        v as u8,
        (v >> 8) as u8,
        (v >> 16) as u8,
        (v >> 24) as u8,
        (v >> 32) as u8,
        (v >> 40) as u8,
        (v >> 48) as u8,
        (v >> 56) as u8,
    ]
}

/// The four little-endian bytes of a 32-bit value.
pub open spec fn u32_le_bytes(v: u32) -> Seq<u8> {
    seq![v as u8, (v >> 8) as u8, (v >> 16) as u8, (v >> 24) as u8]
}

/// The unstuffed binary layout of a command: its tag byte, then its
/// payload fields in declared order.
pub open spec fn raw_bytes(c: CommandModel) -> Seq<u8> {
    match c {
        CommandModel::Hello => seq![0u8],
        CommandModel::PrepareForUpdate => seq![1u8],
        CommandModel::WritePage(addr, page, crc) => seq![2u8] + u64_le_bytes(addr as u64)
            + page + seq![crc],
        CommandModel::FinishedWriting => seq![3u8],
        CommandModel::CompareChecksum(len, digest) => seq![4u8] + u32_le_bytes(len) + digest,
        CommandModel::MarkUpdated => seq![5u8],
    }
}

/// The unstuffed binary layout of a reply: a single tag byte.
pub open spec fn response_raw(r: Response) -> Seq<u8> {
    match r {
        Response::Ack => seq![0u8],
        Response::Nack => seq![1u8],
    }
}

/// The complete frame that carries a reply: its layout, stuffed, plus
/// the frame terminator.
pub open spec fn response_frame(r: Response) -> Seq<u8> {
    stuff(response_raw(r)) + seq![0u8]
}

/// Serializes a command into its unstuffed binary layout.
fn encode_raw(c: &Command) -> (out: Vec<u8>)
    ensures
        out@ == raw_bytes(c@),
{
    let mut out: Vec<u8> = Vec::new();
    match c {
        Command::Hello => {
            out.push(0);
            proof {
                assert(out@ =~= raw_bytes(c@));
            }
        }
        Command::PrepareForUpdate => {
            out.push(1);
            proof {
                assert(out@ =~= raw_bytes(c@));
            }
        }
        Command::WritePage(addr, page, crc) => {
            out.push(2);
            let a = *addr as u64;
            out.push(#[verifier::truncate] (a as u8));
            out.push(#[verifier::truncate] ((a >> 8) as u8));
            out.push(#[verifier::truncate] ((a >> 16) as u8));
            out.push(#[verifier::truncate] ((a >> 24) as u8));
            out.push(#[verifier::truncate] ((a >> 32) as u8));
            out.push(#[verifier::truncate] ((a >> 40) as u8));
            out.push(#[verifier::truncate] ((a >> 48) as u8));
            out.push(#[verifier::truncate] ((a >> 56) as u8));
            proof {
                assert(out@ =~= seq![2u8] + u64_le_bytes(a)
                    + page@.subrange(0, 0));
            }
            let mut l: usize = 0;
            while l < page.len()
                invariant
                    l <= page@.len(),
                    out@ == seq![2u8] + u64_le_bytes(a) + page@.subrange(0, l as int),
                decreases page@.len() - l,
            {
                out.push(page[l]);
                proof {
                    assert(out@ =~= seq![2u8] + u64_le_bytes(a)
                        + page@.subrange(0, l + 1));
                }
                l += 1;
            }
            out.push(*crc);
            proof {
                assert(page@.subrange(0, page@.len() as int) =~= page@);
                assert(out@ =~= raw_bytes(c@));
            }
        }
        Command::FinishedWriting => {
            out.push(3);
            proof {
                assert(out@ =~= raw_bytes(c@));
            }
        }
        Command::CompareChecksum(len, digest) => {
            out.push(4);
            let v = *len;
            out.push(#[verifier::truncate] (v as u8));
            out.push(#[verifier::truncate] ((v >> 8) as u8));
            out.push(#[verifier::truncate] ((v >> 16) as u8));
            out.push(#[verifier::truncate] ((v >> 24) as u8));
            proof {
                assert(out@ =~= seq![4u8] + u32_le_bytes(v)
                    + digest@.subrange(0, 0));
            }
            let mut l: usize = 0;
            while l < digest.len()
                invariant
                    l <= digest@.len(),
                    out@ == seq![4u8] + u32_le_bytes(v) + digest@.subrange(0, l as int),
                decreases digest@.len() - l,
            {
                out.push(digest[l]);
                proof {
                    assert(out@ =~= seq![4u8] + u32_le_bytes(v)
                        + digest@.subrange(0, l + 1));
                }
                l += 1;
            }
            proof {
                assert(digest@.subrange(0, digest@.len() as int) =~= digest@);
                assert(out@ =~= raw_bytes(c@));
            }
        }
        Command::MarkUpdated => {
            out.push(5);
            proof {
                assert(out@ =~= raw_bytes(c@));
            }
        }
    }
    out
}

/// Encodes a command into a complete frame: its binary layout, stuffed,
/// plus the frame terminator. The terminator is the only zero byte of
/// the frame, so a stream receiver can find the frame's end.
pub fn encode(c: &Command) -> (frame: Vec<u8>)
    requires
        command_wf(c@),
    ensures
        frame@ == stuff(raw_bytes(c@)) + seq![0u8],
        frame@.len() >= 2,
        frame@[frame@.len() - 1] == 0,
        forall|i: int| 0 <= i < frame@.len() - 1 ==> frame@[i] != 0,
{
    let raw = encode_raw(c);
    let mut frame = cobs_stuff(&raw);
    proof {
        lemma_stuff_no_zero(raw@);
    }
    frame.push(0);
    proof {
        assert(frame@ =~= stuff(raw_bytes(c@)) + seq![0u8]);
    }
    frame
}

/// The two reply framings written out: the stuffed form of a single
/// tag byte, closed by the terminator.
pub proof fn lemma_response_frames()
    ensures
        response_frame(Response::Ack) =~= seq![1u8, 1u8, 0u8],
        response_frame(Response::Nack) =~= seq![2u8, 1u8, 0u8],
{
    reveal_with_fuel(stuff, 3);
    reveal_with_fuel(first_zero, 3);
    let a = response_raw(Response::Ack);
    assert(first_zero(a) == 0);
    assert(a.skip(1) =~= Seq::<u8>::empty());
    assert(stuff(a.skip(1)) =~= seq![1u8]);
    assert(stuff(a) =~= seq![1u8, 1u8]);
    let n = response_raw(Response::Nack);
    assert(n.drop_first() =~= Seq::<u8>::empty());
    assert(first_zero(n) == 1);
    assert(stuff(n) =~= seq![2u8, 1u8]);
}

/// Decodes a received buffer into a reply: the inverse stuffing
/// transform, then the reply's single tag byte. Any other buffer —
/// truncated, corrupted, or carrying trailing bytes — is a decode
/// error, so a malformed frame can never pass as a valid reply.
pub fn decode(buf: &Vec<u8>) -> (r: Result<Response, DecodeError>)
    ensures
        r == Ok::<Response, DecodeError>(Response::Ack) <==> buf@ == response_frame(
            Response::Ack,
        ),
        r == Ok::<Response, DecodeError>(Response::Nack) <==> buf@ == response_frame(
            Response::Nack,
        ),
        r is Err <==> (buf@ != response_frame(Response::Ack) && buf@ != response_frame(
            Response::Nack,
        )),
{
    proof {
        lemma_response_frames();
        lemma_stuff_round_trip(response_raw(Response::Ack));
        lemma_stuff_round_trip(response_raw(Response::Nack));
    }
    match cobs_unstuff(buf) {
        Some(data) => {
            if data.len() == 1 && data[0] == 0 {
                proof {
                    assert(data@ =~= seq![0u8]);
                    lemma_unstuff_singleton(buf@, 0);
                }
                Ok(Response::Ack)
            } else if data.len() == 1 && data[0] == 1 {
                proof {
                    assert(data@ =~= seq![1u8]);
                    lemma_unstuff_singleton(buf@, 1);
                }
                Ok(Response::Nack)
            } else {
                proof {
                    if buf@ == response_frame(Response::Ack) {
                        assert(unstuff(buf@) == Some(response_raw(Response::Ack)));
                        assert(data@ =~= seq![0u8]);
                        assert(false);
                    }
                    if buf@ == response_frame(Response::Nack) {
                        assert(unstuff(buf@) == Some(response_raw(Response::Nack)));
                        assert(data@ =~= seq![1u8]);
                        assert(false);
                    }
                }
                Err(DecodeError)
            }
        }
        None => {
            proof {
                if buf@ == response_frame(Response::Ack) {
                    assert(false);
                }
                if buf@ == response_frame(Response::Nack) {
                    assert(false);
                }
            }
            Err(DecodeError)
        }
    }
}

} // verus!
