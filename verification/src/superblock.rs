//! The superblock: how the disk is laid out, and how block 0 is read and
//! written.
//!
//! Block 0 holds the superblock. The data bitmap follows with one bit for
//! each block of the disk, then the inode bitmap with one bit for each inode,
//! then the inode table, and the rest of the disk is the data region.

use vstd::prelude::*;
use crate::block_dev::BlockDevice;
use crate::config::{BITS_PER_BLOCK, BLOCK_SIZE, INODES_PER_BLOCK, MAGIC, ROOT_INODE_ID, SUPERBLOCK_ID};
use crate::error::FsError;
use crate::layout::{sb_from_block, sb_to_block};
use crate::structs::SuperBlock;

verus! {

/// A disk after one step of the file system: what the step gave, the blocks
/// of the device and the superblock in memory.
pub struct Step<T> {
    pub res: Result<T, FsError>,
    pub disk: Seq<Seq<u8>>,
    pub sb: SuperBlock,
}

/// The result of a call that returns nothing but success or an error.
pub open spec fn done(r: Result<(), FsError>) -> Result<(), FsError> {
    match r {
        Ok(_) => Ok(()),
        Err(e) => Err(e),
    }
}

/// The least number of chunks of `b` items that hold `a` items.
pub open spec fn ceil_div(a: int, b: int) -> int {
    (a + b - 1) / b
}

impl SuperBlock {
    /// The first block of the data region of a disk with `num_blocks` blocks
    /// and `num_inodes` inodes.
    pub open spec fn data_start_of(num_blocks: u32, num_inodes: u32) -> int {
        1 + ceil_div(num_blocks as int, BITS_PER_BLOCK as int) + ceil_div(
            num_inodes as int,
            BITS_PER_BLOCK as int,
        ) + ceil_div(num_inodes as int, INODES_PER_BLOCK as int)
    }

    /// The superblock of a disk with `num_blocks` blocks and `num_inodes`
    /// inodes on which nothing is allocated.
    pub open spec fn layout(num_blocks: u32, num_inodes: u32) -> SuperBlock {
        let db = ceil_div(num_blocks as int, BITS_PER_BLOCK as int);
        let ib = ceil_div(num_inodes as int, BITS_PER_BLOCK as int);
        let it = ceil_div(num_inodes as int, INODES_PER_BLOCK as int);
        SuperBlock {
            magic: MAGIC,
            num_blocks,
            block_size: BLOCK_SIZE as u32,
            free_blocks: (num_blocks - (1 + db + ib + it)) as u32,
            num_inodes,
            free_inodes: num_inodes,
            root_inode: ROOT_INODE_ID,
            data_bitmap_start: 1,
            data_bitmap_blocks: db as u32,
            inode_bitmap_start: (1 + db) as u32,
            inode_bitmap_blocks: ib as u32,
            inode_table_start: (1 + db + ib) as u32,
            inode_table_blocks: it as u32,
            data_start: (1 + db + ib + it) as u32,
        }
    }

    /// What `new` returns: the layout, unless the disk has no block, no
    /// inode, or no room for a data region.
    pub open spec fn spec_new(num_blocks: u32, num_inodes: u32) -> Result<SuperBlock, FsError> {
        if num_blocks == 0 || num_inodes == 0 || num_blocks <= SuperBlock::data_start_of(
            num_blocks,
            num_inodes,
        ) {
            Err(FsError::InvalidSuperBlock)
        } else {
            Ok(SuperBlock::layout(num_blocks, num_inodes))
        }
    }

    /// Whether the superblock describes a disk: the magic number and the
    /// block size are right, the regions lie as `layout` packs them, the data
    /// region is not empty and the free counts do not exceed the totals.
    pub open spec fn wf(self) -> bool {
        &&& self.num_blocks > 0
        &&& self.num_inodes > 0
        &&& SuperBlock::data_start_of(self.num_blocks, self.num_inodes) < self.num_blocks
        &&& self == (SuperBlock {
            free_blocks: self.free_blocks,
            free_inodes: self.free_inodes,
            ..SuperBlock::layout(self.num_blocks, self.num_inodes)
        })
        &&& self.free_blocks <= self.num_blocks - self.data_start
        &&& self.free_inodes <= self.num_inodes
    }

    /// The number of blocks in the data region.
    pub open spec fn data_blocks(self) -> int {
        self.num_blocks - self.data_start
    }

    /// Whether `block_id` lies in the data region.
    pub open spec fn is_data_block(self, block_id: u32) -> bool {
        self.data_start <= block_id < self.num_blocks
    }

    /// Calculates the layout of the filesystem and initializes the superblock.
    pub fn new(num_blocks: u32, num_inodes: u32) -> (r: Result<SuperBlock, FsError>)
        ensures
            r == SuperBlock::spec_new(num_blocks, num_inodes),
            r matches Ok(sb) ==> sb.wf(),
    {
        if num_blocks == 0 || num_inodes == 0 {
            return Err(FsError::InvalidSuperBlock);
        }
        let data_bitmap_start: u32 = SUPERBLOCK_ID + 1;
        let data_bitmap_blocks: u32 = (num_blocks - 1) / BITS_PER_BLOCK + 1;
        let inode_bitmap_start: u32 = data_bitmap_start + data_bitmap_blocks;
        let inode_bitmap_blocks: u32 = (num_inodes - 1) / BITS_PER_BLOCK + 1;
        let inode_table_start: u32 = inode_bitmap_start + inode_bitmap_blocks;
        let inode_table_blocks: u32 = (num_inodes - 1) / INODES_PER_BLOCK + 1;
        let data_start: u32 = inode_table_start + inode_table_blocks;
        if num_blocks <= data_start {
            return Err(FsError::InvalidSuperBlock);
        }
        let free_blocks: u32 = num_blocks - data_start;
        Ok(
            SuperBlock {
                magic: MAGIC,
                num_blocks,
                block_size: BLOCK_SIZE as u32,
                free_blocks,
                num_inodes,
                free_inodes: num_inodes,
                root_inode: ROOT_INODE_ID,
                data_bitmap_start,
                data_bitmap_blocks,
                inode_bitmap_start,
                inode_bitmap_blocks,
                inode_table_start,
                inode_table_blocks,
                data_start,
            },
        )
    }

    /// Whether `block_id` lies in the data region.
    pub fn holds_data_block(&self, block_id: u32) -> (b: bool)
        ensures
            b == self.is_data_block(block_id),
    {
        self.data_start <= block_id && block_id < self.num_blocks
    }

    /// Whether the superblock describes a disk.
    pub fn is_valid(&self) -> (b: bool)
        ensures
            b == self.wf(),
    {
        match SuperBlock::new(self.num_blocks, self.num_inodes) {
            Err(_) => false,
            Ok(l) => self.magic == l.magic && self.block_size == l.block_size && self.root_inode
                == l.root_inode && self.data_bitmap_start == l.data_bitmap_start
                && self.data_bitmap_blocks == l.data_bitmap_blocks && self.inode_bitmap_start
                == l.inode_bitmap_start && self.inode_bitmap_blocks == l.inode_bitmap_blocks
                && self.inode_table_start == l.inode_table_start && self.inode_table_blocks
                == l.inode_table_blocks && self.data_start == l.data_start && self.free_blocks
                <= l.free_blocks && self.free_inodes <= self.num_inodes,
        }
    }
}

/// Whether two superblocks describe the same layout: they differ in their
/// free counts at most.
pub open spec fn same_geometry(a: SuperBlock, b: SuperBlock) -> bool {
    a == (SuperBlock { free_blocks: a.free_blocks, free_inodes: a.free_inodes, ..b })
}

/// Whether `disk` can hold the file system that `sb` describes.
pub open spec fn mounted(disk: Seq<Seq<u8>>, sb: SuperBlock) -> bool {
    &&& sb.wf()
    &&& sb.num_blocks <= disk.len()
    &&& crate::block_dev::blocks_sized(disk)
}

/// What `read_superblock` returns on `disk`: the superblock that block 0
/// holds, if it describes a file system that fits on the disk.
pub open spec fn spec_read_superblock(disk: Seq<Seq<u8>>) -> Result<SuperBlock, FsError> {
    if disk.len() == 0 {
        Err(FsError::InvalidBlockId)
    } else {
        let sb = crate::layout::decode_sb(disk[0]);
        if sb.wf() && sb.num_blocks <= disk.len() {
            Ok(sb)
        } else {
            Err(FsError::InvalidSuperBlock)
        }
    }
}

/// What `write_superblock` does to `disk`: block 0 becomes the encoding of
/// `sb`.
pub open spec fn spec_write_superblock(disk: Seq<Seq<u8>>, sb: SuperBlock) -> Step<()> {
    if disk.len() == 0 {
        Step { res: Err(FsError::InvalidBlockId), disk, sb }
    } else {
        Step { res: Ok(()), disk: disk.update(0, crate::layout::encode_sb(sb)), sb }
    }
}

/// Reads the superblock from block 0 and validates it: the magic number, the
/// block size, the layout, and that the device has the blocks it speaks of.
pub fn read_superblock<D: BlockDevice>(device: &mut D) -> (r: Result<SuperBlock, FsError>)
    ensures
        final(device)@ == old(device)@,
        final(device).reliable() == old(device).reliable(),
        old(device).reliable() || r is Ok ==> r == spec_read_superblock(old(device)@),
        r matches Ok(sb) ==> mounted(old(device)@, sb),
{
    let mut buf = [0u8;BLOCK_SIZE];
    device.read_block(SUPERBLOCK_ID, &mut buf)?;
    let superblock = sb_from_block(&buf);
    if !superblock.is_valid() {
        return Err(FsError::InvalidSuperBlock);
    }
    if superblock.num_blocks as usize > device.num_blocks() {
        return Err(FsError::InvalidSuperBlock);
    }
    proof {
        device.lemma_blocks_sized();
    }
    Ok(superblock)
}

/// Updates the superblock on the device.
pub fn write_superblock<D: BlockDevice>(device: &mut D, superblock: &SuperBlock) -> (r: Result<
    (),
    FsError,
>)
    ensures
        final(device).reliable() == old(device).reliable(),
        final(device)@.len() == old(device)@.len(),
        forall|b: int| 1 <= b < old(device)@.len() ==> final(device)@[b] == old(device)@[b],
        r is Err ==> final(device)@ == old(device)@,
        old(device).reliable() || r is Ok ==> (Step {
            res: done(r),
            disk: final(device)@,
            sb: *superblock,
        }) == spec_write_superblock(old(device)@, *superblock),
{
    let buf = sb_to_block(superblock);
    device.write_block(SUPERBLOCK_ID, &buf)?;
    Ok(())
}

} // verus!
