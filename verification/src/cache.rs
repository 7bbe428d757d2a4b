//! In Muon, cache layer is actually implemented as a block device that wraps 'real' block devices.
//! This design efficiently decouples the cache logic from the underlying block device,
//! allowing for flexible caching strategies.

use vstd::prelude::*;
use crate::block_dev::BlockDevice;
use crate::config::BLOCK_SIZE;
use crate::error::FsError;

verus! {

/// What a reader sees of a device behind a cache: the block in the cache
/// where the cache holds one, the block of the device where it holds none.
pub open spec fn overlay(disk: Seq<Seq<u8>>, entries: Map<int, Seq<u8>>) -> Seq<Seq<u8>> {
    Seq::new(
        disk.len(),
        |i: int|
            if entries.contains_key(i) {
                entries[i]
            } else {
                disk[i]
            },
    )
}

/// Whether every block that a cache holds has `BLOCK_SIZE` bytes.
pub open spec fn entries_sized(entries: Map<int, Seq<u8>>) -> bool {
    forall|i: int| entries.contains_key(i) ==> (#[trigger] entries[i]).len() == BLOCK_SIZE
}

/// A cache of blocks. Which blocks it keeps is its own policy.
///
/// A cache that is full does not drop a block by itself: it refuses the
/// write with `CacheEvict` and names a block, which the caller then has
/// evicted. Evicting and flushing write blocks back to the device, so that
/// a reader of the device behind the cache sees the same blocks before and
/// after.
pub trait Cache {
    /// The blocks that the cache holds, by block id.
    spec fn entries(&self) -> Map<int, Seq<u8>>;

    /// Every block in the cache has `BLOCK_SIZE` bytes.
    proof fn lemma_entries_sized(&self)
        ensures
            entries_sized(self.entries()),
    ;

    /// Puts a block into the cache. A write that fails leaves the cache as
    /// it was.
    fn write_cache(&mut self, block_id: u32, buf: &[u8; BLOCK_SIZE]) -> (r: Result<(), FsError>)
        ensures
            r is Ok ==> final(self).entries() == old(self).entries().insert(block_id as int, buf@),
            r is Err ==> final(self).entries() == old(self).entries(),
    ;

    /// Reads a block from the cache. `CacheMiss` says that the cache does
    /// not hold the block.
    fn read_cache(&mut self, block_id: u32, buf: &mut [u8; BLOCK_SIZE]) -> (r: Result<
        (),
        FsError,
    >)
        ensures
            final(self).entries() == old(self).entries(),
            r is Ok ==> old(self).entries().contains_key(block_id as int) && final(buf)@ == old(
                self,
            ).entries()[block_id as int],
            r == Err::<(), FsError>(FsError::CacheMiss) ==> !old(self).entries().contains_key(
                block_id as int,
            ),
    ;

    /// Writes every block that the device lacks back to it.
    fn flush<D: BlockDevice>(&mut self, device: &mut D) -> (r: Result<(), FsError>)
        ensures
            final(device).reliable() == old(device).reliable(),
            final(device)@.len() == old(device)@.len(),
            overlay(final(device)@, final(self).entries()) == overlay(
                old(device)@,
                old(self).entries(),
            ),
            r is Ok ==> final(device)@ == overlay(old(device)@, old(self).entries()),
    ;

    /// Takes a block out of the cache and writes it back to the device if
    /// the device lacks it.
    fn evict<D: BlockDevice>(&mut self, device: &mut D, block_id: u32) -> (r: Result<(), FsError>)
        ensures
            final(device).reliable() == old(device).reliable(),
            final(device)@.len() == old(device)@.len(),
            overlay(final(device)@, final(self).entries()) == overlay(
                old(device)@,
                old(self).entries(),
            ),
    ;
}

/// The block that a cache wants evicted before it takes a write: the block
/// that its answer `CacheEvict` names, and none for any other answer.
pub open spec fn spec_victim(answer: Result<(), FsError>) -> Option<u32> {
    match answer {
        Err(FsError::CacheEvict(block_id)) => Some(block_id),
        _ => None,
    }
}

/// Reads the answer of a cache to a write: gives the block that the cache
/// wants evicted first, if it asks for that.
pub fn victim(answer: &Result<(), FsError>) -> (v: Option<u32>)
    ensures
        v == spec_victim(*answer),
{
    match answer {
        Err(FsError::CacheEvict(block_id)) => Some(*block_id),
        _ => None,
    }
}

/// A block device behind a cache.
pub struct Cached<D: BlockDevice, C: Cache> {
    device: D,
    cache: C,
}

impl<D: BlockDevice, C: Cache> Cached<D, C> {
    /// What the device behind the cache holds.
    pub closed spec fn backing(&self) -> Seq<Seq<u8>> {
        self.device@
    }

    /// Puts a cache in front of a device.
    pub fn new(device: D, cache: C) -> (cached: Self)
        ensures
            cached@ == overlay(device@, cache.entries()),
            cached.backing() == device@,
    {
        Cached { device, cache }
    }

    /// Puts a block into the cache, after evicting the block that a full
    /// cache names.
    fn insert(&mut self, block_id: u32, buf: &[u8; BLOCK_SIZE]) -> (r: Result<(), FsError>)
        requires
            block_id < old(self).device@.len(),
        ensures
            final(self).device@.len() == old(self).device@.len(),
            final(self).device.reliable() == old(self).device.reliable(),
            r is Ok ==> final(self)@ == old(self)@.update(block_id as int, buf@),
            r is Err ==> final(self)@ == old(self)@,
    {
        let first = self.cache.write_cache(block_id, buf);
        let last = match victim(&first) {
            Some(evicted_block_id) => {
                // Cache full, need to flush the evicted block first.
                match self.cache.evict(&mut self.device, evicted_block_id) {
                    Ok(()) => {},
                    Err(e) => {
                        return Err(e);
                    },
                }
                // Then write to the cache
                self.cache.write_cache(block_id, buf)
            },
            None => first,
        };
        match last {
            Ok(()) => {},
            Err(e) => {
                return Err(e);
            },
        }
        assert(self@ =~= old(self)@.update(block_id as int, buf@));
        Ok(())
    }
}

impl<D: BlockDevice, C: Cache> BlockDevice for Cached<D, C> {
    closed spec fn view(&self) -> Seq<Seq<u8>> {
        overlay(self.device@, self.cache.entries())
    }

    /// A cache may refuse a request at any time.
    open spec fn reliable(&self) -> bool {
        false
    }

    /// Nothing is still to be written where the device behind the cache
    /// holds every block as a reader sees it.
    open spec fn flushed(&self) -> bool {
        self.backing() == self@
    }

    proof fn lemma_blocks_sized(&self) {
        self.device.lemma_blocks_sized();
        self.cache.lemma_entries_sized();
    }

    fn num_blocks(&self) -> (n: usize) {
        self.device.num_blocks()
    }

    fn read_block(&mut self, block_id: u32, buf: &mut [u8; BLOCK_SIZE]) -> (r: Result<
        (),
        FsError,
    >) {
        if block_id as usize >= self.device.num_blocks() {
            return Err(FsError::InvalidBlockId);
        }
        match self.cache.read_cache(block_id, buf) {
            Ok(()) => Ok(()),
            Err(FsError::CacheMiss) => {
                match self.device.read_block(block_id, buf) {
                    Ok(()) => {},
                    Err(e) => {
                        return Err(e);
                    },
                }
                assert(self@[block_id as int] == buf@);
                assert(self@ =~= self@.update(block_id as int, buf@));
                match self.insert(block_id, buf) {
                    Ok(()) => Ok(()),
                    Err(e) => Err(e),
                }
            },
            Err(e) => Err(e),
        }
    }

    fn write_block(&mut self, block_id: u32, buf: &[u8; BLOCK_SIZE]) -> (r: Result<(), FsError>) {
        if block_id as usize >= self.device.num_blocks() {
            return Err(FsError::InvalidBlockId);
        }
        self.insert(block_id, buf)
    }

    /// Has the cache write back every block that the device behind it
    /// lacks: after a flush that succeeded that device holds every block as
    /// a reader sees it.
    fn flush(&mut self) -> (r: Result<(), FsError>) {
        self.cache.flush(&mut self.device)
    }

    fn block_size(&self) -> (n: usize) {
        self.device.block_size()
    }
}

} // verus!
