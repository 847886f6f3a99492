//! The protocol's message model: the closed set of commands a host can
//! send, the two replies a device can give, and the transport-level
//! error taxonomy.

use vstd::prelude::*;

verus! {

/// Number of payload bytes in one flash page.
pub const PAGE_LEN: usize = 256;

/// Number of bytes in the whole-image digest carried by `CompareChecksum`.
pub const DIGEST_LEN: usize = 16;

/// A command sent from the host to the device. Exactly one command is in
/// flight at a time; a command is never retried.
#[derive(Debug)]
pub enum Command {
    /// Initial greeting of the handshake.
    Hello,
    /// Asks the device to enter update mode; the device may decline.
    PrepareForUpdate,
    /// Writes one 256-byte page at an address relative to the flash base,
    /// guarded by a CRC-8 checksum of the page.
    WritePage(usize, Vec<u8>, u8),
    /// Announces that all pages have been sent.
    FinishedWriting,
    /// Asks the device to compare the image against a 16-byte digest of
    /// the given total length.
    CompareChecksum(u32, Vec<u8>),
    /// Asks the device to mark the new image as the active one.
    MarkUpdated,
}

/// The mathematical model of a command: payloads as sequences.
pub enum CommandModel {
    Hello,
    PrepareForUpdate,
    WritePage(usize, Seq<u8>, u8),
    FinishedWriting,
    CompareChecksum(u32, Seq<u8>),
    MarkUpdated,
}

impl View for Command {
    type V = CommandModel;

    open spec fn view(&self) -> CommandModel {
        match self {
            Command::Hello => CommandModel::Hello,
            Command::PrepareForUpdate => CommandModel::PrepareForUpdate,
            Command::WritePage(addr, page, crc) => CommandModel::WritePage(*addr, page@, *crc),
            Command::FinishedWriting => CommandModel::FinishedWriting,
            Command::CompareChecksum(len, digest) => CommandModel::CompareChecksum(*len, digest@),
            Command::MarkUpdated => CommandModel::MarkUpdated,
        }
    }
}

/// A command is well formed when its variable-size payloads have exactly
/// the sizes the wire format assigns them: a full page and a full digest.
pub open spec fn command_wf(c: CommandModel) -> bool {
    match c {
        CommandModel::WritePage(_, page, _) => page.len() == PAGE_LEN,
        CommandModel::CompareChecksum(_, digest) => digest.len() == DIGEST_LEN,
        _ => true,
    }
}

/// Runtime check that a command is well formed, for callers outside the
/// verified world that must establish `command_wf` before encoding.
pub fn command_is_wf(c: &Command) -> (r: bool)
    ensures
        r == command_wf(c@),
{
    match c {
        Command::WritePage(_, page, _) => page.len() == PAGE_LEN,
        Command::CompareChecksum(_, digest) => digest.len() == DIGEST_LEN,
        _ => true,
    }
}

/// Copies a byte vector, so a page can be handed on by value while its
/// source stays intact.
pub fn copy_bytes(src: &Vec<u8>) -> (out: Vec<u8>)
    ensures
        out@ == src@,
{
    let mut out: Vec<u8> = Vec::new();
    proof {
        assert(out@ =~= src@.subrange(0, 0));
    }
    let mut i: usize = 0;
    while i < src.len()
        invariant
            i <= src@.len(),
            out@ == src@.subrange(0, i as int),
        decreases src@.len() - i,
    {
        out.push(src[i]);
        proof {
            assert(out@ =~= src@.subrange(0, i + 1));
        }
        i += 1;
    }
    proof {
        assert(src@.subrange(0, src@.len() as int) =~= src@);
    }
    out
}

/// A reply from the device. Anything that does not decode to one of these
/// two values is a decode failure, never a third reply.
#[derive(Clone, Copy, Debug, PartialEq, Eq, Structural)]
pub enum Response {
    Ack,
    Nack,
}

/// A failed exchange: either no bytes arrived within the read timeout, or
/// bytes arrived that do not decode into a `Response`.
#[derive(Clone, Copy, Debug, PartialEq, Eq, Structural)]
pub enum FlasherError {
    NoResponse,
    CouldntDeserialize,
}

} // verus!
