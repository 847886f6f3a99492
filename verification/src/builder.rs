//! The page builder: turns raw (address, payload) blocks of the
//! firmware image into checksummed page-write commands relative to the
//! flash-offset base. A block whose address lies below the base is
//! silently dropped — a deliberate policy, not an error — while a kept
//! block whose payload is not exactly one page long is a fatal
//! input-format violation.

use vstd::prelude::*;

use crate::command::{command_wf, copy_bytes, Command, CommandModel, PAGE_LEN};
use crate::crc8::{crc8_of, page_checksum};

verus! {

/// One raw block of the firmware image, as the external image reader
/// hands it over: an absolute target address and the page payload.
pub struct Block {
    pub target_addr: u32,
    pub payload: Vec<u8>,
}

/// The mathematical model of a block.
pub struct BlockModel {
    pub target_addr: u32,
    pub payload: Seq<u8>,
}

impl View for Block {
    type V = BlockModel;

    open spec fn view(&self) -> BlockModel {
        BlockModel { target_addr: self.target_addr, payload: self.payload@ }
    }
}

/// A kept block's payload was not exactly one page long: the external
/// image reader violated its contract, and the run aborts before any
/// transport activity.
#[derive(Clone, Copy, Debug, PartialEq, Eq, Structural)]
pub enum BuildError {
    InvalidBlockLength,
}

/// A block is kept when its address does not underflow the flash base.
pub open spec fn kept(b: BlockModel, offset: u32) -> bool {
    b.target_addr >= offset
}

/// The page-write command a kept block becomes: its address relative to
/// the base, its payload, and the payload's checksum.
pub open spec fn write_command(b: BlockModel, offset: u32) -> CommandModel {
    CommandModel::WritePage((b.target_addr - offset) as usize, b.payload, crc8_of(b.payload))
}

/// Every kept block carries exactly one page of payload.
pub open spec fn blocks_ok(blocks: Seq<BlockModel>, offset: u32) -> bool {
    forall|i: int|
        0 <= i < blocks.len() && kept(#[trigger] blocks[i], offset) ==> blocks[i].payload.len()
            == PAGE_LEN
}

/// The command sequence built from a block sequence: kept blocks become
/// page writes in input order, dropped blocks contribute nothing.
pub open spec fn built(blocks: Seq<BlockModel>, offset: u32) -> Seq<CommandModel>
    decreases blocks.len(),
{
    if blocks.len() == 0 {
        Seq::empty()
    } else {
        let rest = built(blocks.drop_last(), offset);
        if kept(blocks.last(), offset) {
            rest.push(write_command(blocks.last(), offset))
        } else {
            rest
        }
    }
}

/// Builds the page-write command for one block: nothing when the block
/// lies below the base, the checksummed page write when it is kept, and
/// the fatal length error when a kept block is not exactly one page.
/// The address check comes first, so a short block below the base is
/// still dropped silently.
pub fn build_write_command(target_addr: u32, payload: Vec<u8>, offset: u32) -> (r: Result<
    Option<Command>,
    BuildError,
>)
    ensures
        target_addr < offset ==> r == Ok::<Option<Command>, BuildError>(None),
        target_addr >= offset && payload@.len() == PAGE_LEN ==> (r matches Ok(c) && c matches Some(
            cmd,
        ) && cmd@ == write_command(BlockModel { target_addr, payload: payload@ }, offset)
            && command_wf(cmd@)),
        target_addr >= offset && payload@.len() != PAGE_LEN ==> r == Err::<
            Option<Command>,
            BuildError,
        >(BuildError::InvalidBlockLength),
{
    if target_addr < offset {
        return Ok(None);
    }
    if payload.len() != PAGE_LEN {
        return Err(BuildError::InvalidBlockLength);
    }
    let relative_address = (target_addr - offset) as usize;
    let checksum = page_checksum(&payload);
    Ok(Some(Command::WritePage(relative_address, payload, checksum)))
}

/// Builds the whole command sequence for an image: one checksummed page
/// write per kept block, in input order. Fails with the length error
/// exactly when some kept block is not one page long.
pub fn build_write_commands(blocks: &Vec<Block>, offset: u32) -> (r: Result<
    Vec<Command>,
    BuildError,
>)
    ensures
        r matches Ok(cmds) ==> {
            &&& blocks_ok(blocks@.map_values(|b: Block| b@), offset)
            &&& cmds@.map_values(|c: Command| c@) == built(
                blocks@.map_values(|b: Block| b@),
                offset,
            )
            &&& forall|i: int| 0 <= i < cmds@.len() ==> command_wf(#[trigger] cmds@[i]@)
        },
        r is Err <==> !blocks_ok(blocks@.map_values(|b: Block| b@), offset),
{
    let ghost models = blocks@.map_values(|b: Block| b@);
    let mut cmds: Vec<Command> = Vec::new();
    proof {
        assert(models.subrange(0, 0) =~= Seq::<BlockModel>::empty());
    }
    let num_blocks = blocks.len();
    for idx in 0..num_blocks
        invariant
            num_blocks == blocks@.len(),
            models == blocks@.map_values(|b: Block| b@),
            cmds@.map_values(|c: Command| c@) == built(models.subrange(0, idx as int), offset),
            forall|i: int| 0 <= i < cmds@.len() ==> command_wf(#[trigger] cmds@[i]@),
            forall|i: int|
                0 <= i < idx && kept(#[trigger] models[i], offset) ==> models[i].payload.len()
                    == PAGE_LEN,
    {
        let block = &blocks[idx];
        let payload = copy_bytes(&block.payload);
        let r = build_write_command(block.target_addr, payload, offset);
        proof {
            assert(models[idx as int] == block@);
            assert(models.subrange(0, idx + 1).drop_last() =~= models.subrange(0, idx as int));
            assert(models.subrange(0, idx + 1).last() == models[idx as int]);
        }
        match r {
            Ok(Some(cmd)) => {
                let ghost cmds_before = cmds@;
                cmds.push(cmd);
                proof {
                    assert(cmds@.map_values(|c: Command| c@) =~= cmds_before.map_values(
                        |c: Command| c@,
                    ).push(cmd@));
                }
            }
            Ok(None) => {
            }
            Err(e) => {
                proof {
                    assert(kept(models[idx as int], offset));
                    assert(models[idx as int].payload.len() != PAGE_LEN);
                    assert(!blocks_ok(models, offset));
                }
                return Err(e);
            }
        }
    }
    proof {
        assert(models.subrange(0, num_blocks as int) =~= models);
    }
    Ok(cmds)
}

/// Blocks below the base offset yield no command; every other block
/// yields exactly one page write, in input order, whose relative
/// address is its target address minus the offset.
pub proof fn lemma_offset_filtering(blocks: Seq<BlockModel>, offset: u32)
    ensures
        built(blocks, offset) == blocks.filter(|b: BlockModel| kept(b, offset)).map_values(
            |b: BlockModel| write_command(b, offset),
        ),
    decreases blocks.len(),
{
    reveal(Seq::filter);
    let pred = |b: BlockModel| kept(b, offset);
    let f = |b: BlockModel| write_command(b, offset);
    if blocks.len() == 0 {
        assert(blocks.filter(pred).map_values(f) =~= Seq::<CommandModel>::empty());
    } else {
        lemma_offset_filtering(blocks.drop_last(), offset);
        if pred(blocks.last()) {
            assert(blocks.filter(pred).map_values(f) =~= blocks.drop_last().filter(
                pred,
            ).map_values(f).push(f(blocks.last())));
        } else {
            assert(blocks.filter(pred) == blocks.drop_last().filter(pred));
        }
    }
}

} // verus!
