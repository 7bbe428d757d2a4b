//! The storage that the file system runs on: an array of fixed-size blocks.

use vstd::prelude::*;
use crate::config::BLOCK_SIZE;
use crate::error::FsError;

verus! {

/// Whether every block of `disk` has `BLOCK_SIZE` bytes.
pub open spec fn blocks_sized(disk: Seq<Seq<u8>>) -> bool {
    forall|i: int| 0 <= i < disk.len() ==> (#[trigger] disk[i]).len() == BLOCK_SIZE
}

/// A device that reads and writes whole blocks.
///
/// The view of a device is the content of its blocks as a reader sees it. A
/// request may fail at any time, unless the device calls itself reliable: then
/// it fails on a block id out of range and on nothing else.
pub trait BlockDevice {
    /// The content of the blocks.
    spec fn view(&self) -> Seq<Seq<u8>>;

    /// Whether a request on a block that the device has always succeeds.
    spec fn reliable(&self) -> bool;

    /// Whether the device holds nothing that is still to be written: every
    /// block that a reader sees is where a `flush` puts it.
    spec fn flushed(&self) -> bool;

    /// Every block has `BLOCK_SIZE` bytes.
    proof fn lemma_blocks_sized(&self)
        ensures
            blocks_sized(self@),
    ;

    /// Returns the number of blocks in the block device.
    fn num_blocks(&self) -> (n: usize)
        ensures
            n == self@.len(),
    ;

    /// Reads one block into `buf`. The content of the device stays as it is.
    fn read_block(&mut self, block_id: u32, buf: &mut [u8; BLOCK_SIZE]) -> (r: Result<
        (),
        FsError,
    >)
        ensures
            final(self)@ == old(self)@,
            final(self).reliable() == old(self).reliable(),
            r is Ok ==> block_id < old(self)@.len() && final(buf)@ == old(self)@[block_id as int],
            block_id >= old(self)@.len() ==> r == Err::<(), FsError>(FsError::InvalidBlockId),
            old(self).reliable() && block_id < old(self)@.len() ==> r is Ok,
    ;

    /// Writes one block from `buf`. A write that fails leaves the content of
    /// the device as it was.
    fn write_block(&mut self, block_id: u32, buf: &[u8; BLOCK_SIZE]) -> (r: Result<(), FsError>)
        ensures
            final(self).reliable() == old(self).reliable(),
            r is Ok ==> block_id < old(self)@.len() && final(self)@ == old(self)@.update(
                block_id as int,
                buf@,
            ),
            r is Err ==> final(self)@ == old(self)@,
            block_id >= old(self)@.len() ==> r == Err::<(), FsError>(FsError::InvalidBlockId),
            old(self).reliable() && block_id < old(self)@.len() ==> r is Ok,
    ;

    /// Makes every earlier write durable: after a flush that succeeded the
    /// device holds nothing that is still to be written. What a reader sees
    /// stays as it is.
    fn flush(&mut self) -> (r: Result<(), FsError>)
        ensures
            final(self)@ == old(self)@,
            final(self).reliable() == old(self).reliable(),
            old(self).reliable() ==> r is Ok,
            r is Ok ==> final(self).flushed(),
    ;

    /// Returns the size of each block in bytes.
    fn block_size(&self) -> (n: usize)
        ensures
            n == BLOCK_SIZE,
    ;
}

/// A block device in memory. It is reliable.
pub struct RamDisk {
    blocks: Vec<[u8; BLOCK_SIZE]>,
}

impl RamDisk {
    /// Creates a disk of `num_blocks` zeroed blocks.
    pub fn new(num_blocks: usize) -> (disk: RamDisk)
        ensures
            disk@.len() == num_blocks,
            forall|i: int|
                0 <= i < num_blocks ==> #[trigger] disk@[i] == crate::codec::zeros(
                    BLOCK_SIZE as nat,
                ),
            disk.reliable(),
    {
        let mut blocks: Vec<[u8; BLOCK_SIZE]> = Vec::new();
        let mut i: usize = 0;
        while i < num_blocks
            invariant
                i <= num_blocks,
                blocks@.len() == i,
                forall|j: int| 0 <= j < i ==> (#[trigger] blocks@[j])@ == crate::codec::zeros(BLOCK_SIZE as nat),
            decreases num_blocks - i,
        {
            let block = [0u8; BLOCK_SIZE];
            assert(block@ =~= crate::codec::zeros(BLOCK_SIZE as nat));
            blocks.push(block);
            i += 1;
        }
        RamDisk { blocks }
    }
}

impl BlockDevice for RamDisk {
    closed spec fn view(&self) -> Seq<Seq<u8>> {
        Seq::new(self.blocks@.len(), |i: int| self.blocks@[i]@)
    }

    open spec fn reliable(&self) -> bool {
        true
    }

    /// A write to memory is done when it returns.
    open spec fn flushed(&self) -> bool {
        true
    }

    proof fn lemma_blocks_sized(&self) {
    }

    fn num_blocks(&self) -> (n: usize) {
        self.blocks.len()
    }

    fn read_block(&mut self, block_id: u32, buf: &mut [u8; BLOCK_SIZE]) -> (r: Result<
        (),
        FsError,
    >) {
        if block_id as usize >= self.blocks.len() {
            return Err(FsError::InvalidBlockId);
        }
        *buf = self.blocks[block_id as usize];
        Ok(())
    }

    fn write_block(&mut self, block_id: u32, buf: &[u8; BLOCK_SIZE]) -> (r: Result<(), FsError>) {
        if block_id as usize >= self.blocks.len() {
            return Err(FsError::InvalidBlockId);
        }
        self.blocks[block_id as usize] = *buf;
        assert(self@ =~= old(self)@.update(block_id as int, buf@));
        Ok(())
    }

    fn flush(&mut self) -> (r: Result<(), FsError>) {
        Ok(())
    }

    fn block_size(&self) -> (n: usize) {
        BLOCK_SIZE
    }
}

} // verus!
