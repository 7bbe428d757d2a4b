use std::cell::{Cell, RefCell};
use std::rc::Rc;

use muon::BlockDevice;
use muon::Cache;
use muon::Cached;
use muon::FileSystem;
use muon::FileType;
use muon::FsError;
use muon::Mode;
use muon::BLOCK_SIZE;

/// A disk in memory that the test can look at from outside, and that counts
/// the flushes it gets.
struct SharedDisk {
    blocks: Rc<RefCell<Vec<[u8; BLOCK_SIZE]>>>,
    flushes: Rc<Cell<u32>>,
}

impl BlockDevice for SharedDisk {
    fn num_blocks(&self) -> usize {
        self.blocks.borrow().len()
    }

    fn read_block(&mut self, block_id: u32, buf: &mut [u8; BLOCK_SIZE]) -> Result<(), FsError> {
        match self.blocks.borrow().get(block_id as usize) {
            Some(block) => {
                *buf = *block;
                Ok(())
            }
            None => Err(FsError::InvalidBlockId),
        }
    }

    fn write_block(&mut self, block_id: u32, buf: &[u8; BLOCK_SIZE]) -> Result<(), FsError> {
        match self.blocks.borrow_mut().get_mut(block_id as usize) {
            Some(block) => {
                *block = *buf;
                Ok(())
            }
            None => Err(FsError::InvalidBlockId),
        }
    }

    fn flush(&mut self) -> Result<(), FsError> {
        self.flushes.set(self.flushes.get() + 1);
        Ok(())
    }

    fn block_size(&self) -> usize {
        BLOCK_SIZE
    }

    // The members below are used in proofs only and never run.
    fn view(&self) -> vstd::seq::Seq<vstd::seq::Seq<u8>> {
        unreachable!()
    }

    fn reliable(&self) -> bool {
        unreachable!()
    }

    fn flushed(&self) -> bool {
        unreachable!()
    }

    fn lemma_blocks_sized(&self) {
    }
}

/// A cache that keeps every block until it is flushed or evicted.
struct KeepAll {
    held: Vec<(u32, [u8; BLOCK_SIZE], bool)>,
}

impl Cache for KeepAll {
    fn write_cache(&mut self, block_id: u32, buf: &[u8; BLOCK_SIZE]) -> Result<(), FsError> {
        self.held.retain(|h| h.0 != block_id);
        self.held.push((block_id, *buf, true));
        Ok(())
    }

    fn read_cache(&mut self, block_id: u32, buf: &mut [u8; BLOCK_SIZE]) -> Result<(), FsError> {
        match self.held.iter().find(|h| h.0 == block_id) {
            Some(h) => {
                *buf = h.1;
                Ok(())
            }
            None => Err(FsError::CacheMiss),
        }
    }

    fn flush<D: BlockDevice>(&mut self, device: &mut D) -> Result<(), FsError> {
        for h in self.held.iter_mut() {
            if h.2 {
                device.write_block(h.0, &h.1)?;
                h.2 = false;
            }
        }
        Ok(())
    }

    fn evict<D: BlockDevice>(&mut self, device: &mut D, block_id: u32) -> Result<(), FsError> {
        for h in self.held.iter() {
            if h.0 == block_id && h.2 {
                device.write_block(h.0, &h.1)?;
            }
        }
        self.held.retain(|h| h.0 != block_id);
        Ok(())
    }

    // The members below are used in proofs only and never run.
    fn entries(&self) -> vstd::map::Map<vstd::prelude::int, vstd::seq::Seq<u8>> {
        unreachable!()
    }

    fn lemma_entries_sized(&self) {
    }
}

fn shared(num_blocks: usize) -> (SharedDisk, Rc<RefCell<Vec<[u8; BLOCK_SIZE]>>>, Rc<Cell<u32>>) {
    let blocks = Rc::new(RefCell::new(vec![[0u8; BLOCK_SIZE]; num_blocks]));
    let flushes = Rc::new(Cell::new(0));
    (SharedDisk { blocks: blocks.clone(), flushes: flushes.clone() }, blocks, flushes)
}

#[test]
fn a_flush_of_the_cache_writes_back_what_the_device_lacks() {
    let (disk, blocks, _) = shared(8);
    let mut cached = Cached::new(disk, KeepAll { held: Vec::new() });
    let data = [7u8; BLOCK_SIZE];
    assert_eq!(cached.write_block(3, &data), Ok(()));
    // A write goes to the cache and not to the device behind it.
    assert_eq!(blocks.borrow()[3], [0u8; BLOCK_SIZE]);
    let mut buf = [0u8; BLOCK_SIZE];
    assert_eq!(cached.read_block(3, &mut buf), Ok(()));
    assert_eq!(buf, data);
    assert_eq!(cached.flush(), Ok(()));
    assert_eq!(blocks.borrow()[3], data);
    // What a reader sees is as it was.
    let mut buf = [0u8; BLOCK_SIZE];
    assert_eq!(cached.read_block(3, &mut buf), Ok(()));
    assert_eq!(buf, data);
    assert_eq!(cached.write_block(8, &data), Err(FsError::InvalidBlockId));
}

#[test]
fn a_flush_of_the_file_system_flushes_its_device() {
    let (disk, _, flushes) = shared(64);
    let mut fs = FileSystem::format(disk, 64, 80).unwrap();
    fs.creat("/f", FileType::Regular, Mode::RW).unwrap();
    let before = flushes.get();
    assert_eq!(fs.flush(), Ok(()));
    assert_eq!(flushes.get(), before + 1);
    assert_eq!(fs.unmount(), Ok(()));
    assert_eq!(flushes.get(), before + 2);
}

#[test]
fn a_file_system_behind_a_cache_reaches_the_device_with_a_flush() {
    let (disk, blocks, _) = shared(64);
    let cached = Cached::new(disk, KeepAll { held: Vec::new() });
    let mut fs = FileSystem::format(cached, 64, 80).unwrap();
    fs.creat("/f", FileType::Regular, Mode::RW).unwrap();
    assert_eq!(fs.fwrite("/f", 0, b"kept in the cache"), Ok(17));
    assert_eq!(fs.unmount(), Ok(()));
    // The device behind the cache holds a file system that can be mounted
    // without the cache.
    let copy = SharedDisk { blocks: blocks.clone(), flushes: Rc::new(Cell::new(0)) };
    let mut again = FileSystem::mount(copy).unwrap();
    let mut buf = [0u8; 17];
    assert_eq!(again.fread("/f", 0, &mut buf), Ok(17));
    assert_eq!(&buf, b"kept in the cache");
    assert_eq!(again.root_inode_id(), 1);
}

#[test]
fn the_answer_of_a_cache_names_the_block_to_evict() {
    assert_eq!(muon::cache::victim(&Err(FsError::CacheEvict(5))), Some(5));
    assert_eq!(muon::cache::victim(&Err(FsError::CacheEvict(0))), Some(0));
    assert_eq!(muon::cache::victim(&Ok(())), None);
    assert_eq!(muon::cache::victim(&Err(FsError::CacheMiss)), None);
    assert_eq!(muon::cache::victim(&Err(FsError::WriteError)), None);
}

/// A cache with room for one block, which wants the block it holds evicted
/// before it takes another.
struct OneBlock {
    held: Option<(u32, [u8; BLOCK_SIZE])>,
}

impl Cache for OneBlock {
    fn write_cache(&mut self, block_id: u32, buf: &[u8; BLOCK_SIZE]) -> Result<(), FsError> {
        match self.held {
            Some((id, _)) if id != block_id => Err(FsError::CacheEvict(id)),
            _ => {
                self.held = Some((block_id, *buf));
                Ok(())
            }
        }
    }

    fn read_cache(&mut self, block_id: u32, buf: &mut [u8; BLOCK_SIZE]) -> Result<(), FsError> {
        match self.held {
            Some((id, block)) if id == block_id => {
                *buf = block;
                Ok(())
            }
            _ => Err(FsError::CacheMiss),
        }
    }

    fn flush<D: BlockDevice>(&mut self, device: &mut D) -> Result<(), FsError> {
        match self.held {
            Some((id, block)) => device.write_block(id, &block),
            None => Ok(()),
        }
    }

    fn evict<D: BlockDevice>(&mut self, device: &mut D, block_id: u32) -> Result<(), FsError> {
        match self.held {
            Some((id, block)) if id == block_id => {
                device.write_block(id, &block)?;
                self.held = None;
                Ok(())
            }
            _ => Ok(()),
        }
    }

    // The members below are used in proofs only and never run.
    fn entries(&self) -> vstd::map::Map<vstd::prelude::int, vstd::seq::Seq<u8>> {
        unreachable!()
    }

    fn lemma_entries_sized(&self) {
    }
}

#[test]
fn a_full_cache_has_its_block_evicted_before_the_next_write() {
    let (disk, blocks, _) = shared(8);
    let mut cached = Cached::new(disk, OneBlock { held: None });
    let one = [1u8; BLOCK_SIZE];
    let two = [2u8; BLOCK_SIZE];
    assert_eq!(cached.write_block(1, &one), Ok(()));
    assert_eq!(blocks.borrow()[1], [0u8; BLOCK_SIZE]);
    // The second write has the first block written back, and stays in the
    // cache itself.
    assert_eq!(cached.write_block(2, &two), Ok(()));
    assert_eq!(blocks.borrow()[1], one);
    assert_eq!(blocks.borrow()[2], [0u8; BLOCK_SIZE]);
    // A reader sees both.
    let mut buf = [0u8; BLOCK_SIZE];
    assert_eq!(cached.read_block(1, &mut buf), Ok(()));
    assert_eq!(buf, one);
    assert_eq!(cached.read_block(2, &mut buf), Ok(()));
    assert_eq!(buf, two);
    assert_eq!(cached.flush(), Ok(()));
    assert_eq!(blocks.borrow()[2], two);
}
