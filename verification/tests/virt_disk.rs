#![allow(unused)]

use std::collections::VecDeque;

use muon::BlockDevice;
use muon::Cache;
use muon::Cached;
use muon::FileSystem;
use muon::FileType;
use muon::FsError;
use muon::Mode;
use muon::BLOCK_SIZE;

const DISK_BLOCKS: usize = 80;

#[derive(Debug)]
pub struct VirtDisk {
    inner: Vec<u8>,
    num_blocks: usize,
}

impl VirtDisk {
    /// Creates a disk image in memory with the specified number of blocks.
    /// Each block is BLOCK_SIZE bytes.
    pub fn new(num_blocks: usize) -> Self {
        let size = num_blocks * BLOCK_SIZE;
        VirtDisk { inner: vec![0u8; size], num_blocks }
    }
}

impl BlockDevice for VirtDisk {
    fn num_blocks(&self) -> usize {
        self.num_blocks
    }

    fn read_block(&mut self, block_id: u32, buf: &mut [u8; BLOCK_SIZE]) -> Result<(), FsError> {
        if block_id >= self.num_blocks as u32 {
            return Err(FsError::InvalidBlockId);
        }
        let start = block_id as usize * BLOCK_SIZE;
        let end = start as usize + BLOCK_SIZE;
        buf.copy_from_slice(&self.inner[start..end]);
        Ok(())
    }

    fn write_block(&mut self, block_id: u32, buf: &[u8; BLOCK_SIZE]) -> Result<(), FsError> {
        if block_id >= self.num_blocks as u32 {
            return Err(FsError::InvalidBlockId);
        }
        let start = block_id as usize * BLOCK_SIZE;
        let end = start as usize + BLOCK_SIZE;
        self.inner[start..end].copy_from_slice(buf);
        Ok(())
    }

    fn flush(&mut self) -> Result<(), FsError> {
        // The image is in memory: nothing to flush.
        Ok(())
    }

    fn block_size(&self) -> usize {
        BLOCK_SIZE
    }

    // The members below are used in proofs only and never run.
    fn view(&self) -> vstd::seq::Seq<vstd::seq::Seq<u8>> {
        unreachable!()
    }

    fn reliable(&self) -> bool {
        unreachable!()
    }

    fn flushed(&self) -> bool {
        unreachable!()
    }

    fn lemma_blocks_sized(&self) {
    }
}


#[derive(Debug)]
pub struct CacheBuffer {
    buf: [u8; BLOCK_SIZE],
    block_id: u32,
    dirty: bool,
}

pub struct LruCache {
    cache: VecDeque<CacheBuffer>,
    capacity: usize,
}

impl LruCache {
    pub fn new(capacity: usize) -> Self {
        LruCache { cache: VecDeque::with_capacity(capacity), capacity }
    }
}

impl Cache for LruCache {
    fn write_cache(&mut self, block_id: u32, buf: &[u8; BLOCK_SIZE]) -> Result<(), FsError> {
        if let Some(idx) = self.cache.iter().position(|b| b.block_id == block_id) {
            let buffer = &mut self.cache[idx];
            buffer.buf.copy_from_slice(buf);
            buffer.dirty = true;
            // Move the accessed buffer to the front (most recently used)
            let buffer = self.cache.remove(idx).unwrap();
            self.cache.push_front(buffer);
        } else {
            if self.cache.len() >= self.capacity {
                // Evict and flush immediately, for simplicity
                let evicted_buffer = self.cache.iter().last().unwrap();
                return Err(FsError::CacheEvict(evicted_buffer.block_id));
                // Cache evicted.
            }
            // Add new buffer
            let new_buffer = CacheBuffer {
                buf: *buf,
                block_id,
                dirty: true, // Dirty since the block is being written to cache
            };
            self.cache.push_front(new_buffer);
        }
        Ok(())
    }

    fn read_cache(&mut self, block_id: u32, buf: &mut [u8; BLOCK_SIZE]) -> Result<(), FsError> {
        if let Some(idx) = self.cache.iter().position(|b| b.block_id == block_id) {
            let buffer = &self.cache[idx];
            buf.copy_from_slice(&buffer.buf);
            // Move the accessed buffer to the front (most recently used)
            let buffer = self.cache.remove(idx).unwrap();
            self.cache.push_front(buffer);
        } else {
            return Err(FsError::CacheMiss);
        }

        Ok(())
    }

    fn flush<D: BlockDevice>(&mut self, device: &mut D) -> Result<(), FsError> {
        for buffer in self.cache.iter_mut() {
            if buffer.dirty {
                device.write_block(buffer.block_id, &buffer.buf)?;
                buffer.dirty = false;
            }
        }
        Ok(())
    }

    fn evict<D: BlockDevice>(&mut self, device: &mut D, block_id: u32) -> Result<(), FsError> {
        if let Some(idx) = self.cache.iter().position(|b| b.block_id == block_id) {
            if self.cache[idx].dirty {
                device.write_block(block_id, &self.cache[idx].buf)?;
            }
            self.cache.remove(idx);
        } else {
            return Err(FsError::CacheMiss);
        }
        Ok(())
    }

    // The members below are used in proofs only and never run.
    fn entries(&self) -> vstd::map::Map<vstd::prelude::int, vstd::seq::Seq<u8>> {
        unreachable!()
    }

    fn lemma_entries_sized(&self) {
    }
}

#[test]
fn disk_format() {
    let disk = VirtDisk::new(DISK_BLOCKS);
    let cache = LruCache::new(4);
    let cached = Cached::new(disk, cache);
    let mut fs = FileSystem::format(cached, DISK_BLOCKS as u32, 80).unwrap();
    println!("File System initialized: {}", fs.dump());
    fs.flush().unwrap();
}

// Following methods assume the file system is already formatted and ready to use.
fn formatted_disk() -> VirtDisk {
    let disk = VirtDisk::new(DISK_BLOCKS);
    let fs = FileSystem::format(disk, DISK_BLOCKS as u32, 80).unwrap();
    fs.into_device()
}

fn formatted_disk_with_dir() -> VirtDisk {
    let disk = VirtDisk::new(DISK_BLOCKS);
    let mut fs = FileSystem::format(disk, DISK_BLOCKS as u32, 80).unwrap();
    fs.creat("/dir", FileType::Directory, Mode::RW).unwrap();
    fs.into_device()
}

#[test]
fn disk_mount() {
    let disk = formatted_disk();
    let mut fs = FileSystem::mount(disk).unwrap();

    println!("File System mounted: {}", fs.dump());
}

#[test]
fn test_repeated_create() {
    let disk = formatted_disk();
    let mut fs = FileSystem::mount(disk).unwrap();
    println!("File System mounted: {}", fs.dump());
    fs.creat("/dir", FileType::Directory, Mode::RW).unwrap();
    println!("Directory created: /dir",);
    let res = fs.creat("/dir", FileType::Directory, Mode::RW);
    assert!(res.is_err(), "Creating a directory that already exists should fail");
    println!("Attempted to create existing directory: {:?}", res.unwrap_err());
    fs.flush().unwrap();
    println!("File System after repeated create: {}", fs.dump());
}

#[test]
fn virt_disk_test_hard_link() {
    let disk = formatted_disk_with_dir();
    let mut fs = FileSystem::mount(disk).unwrap();
    println!("File System mounted: {}", fs.dump());

    // Create a file and write some data to it.
    let inode_id = fs.creat("/test_file.txt", FileType::Regular, Mode::RW).unwrap();
    let mut inode = fs.get_inode(inode_id).unwrap();
    let data = b"Hello, World!";
    fs.fwrite("/test_file.txt", 0, data).unwrap();
    println!("Data written to /test_file.txt",);

    // Create a hard link to the file.
    let link_inode_id = fs.link("/test_file.txt", "/dir/test_link.txt").unwrap();
    println!("Hard link created: /test_link.txt -> /dir/test_file.txt",);

    // Read the data from the hard link.
    let mut buf = vec![0u8; data.len()];
    fs.fread("/dir/test_link.txt", 0, &mut buf).unwrap();
    println!("Data read from hard link: {:?}", String::from_utf8_lossy(&buf));

    // Now remove the original file.
    fs.remove("/test_file.txt", FileType::Regular).unwrap();
    println!("File System after removing hard link: {}", fs.dump());

    // Remove the hard link.
    fs.remove("/dir/test_link.txt", FileType::Regular).unwrap();
    println!("File System after removing hard link: {}", fs.dump());
    fs.flush().unwrap();
}

#[test]
fn test_multiple_hard_links() {
    let disk = formatted_disk_with_dir();
    let mut fs = FileSystem::mount(disk).unwrap();
    println!("File System mounted: {}", fs.dump());

    // Create a file and write some data to it.
    let inode_id = fs.creat("/test_file.txt", FileType::Regular, Mode::RW).unwrap();
    let mut inode = fs.get_inode(inode_id).unwrap();
    let data = b"Hello, World!";
    fs.fwrite("/test_file.txt", 0, data).unwrap();
    println!("Data written to /test_file.txt",);

    // Create multiple hard links to the file.
    let link1_inode_id = fs.link("/test_file.txt", "/dir/test_link1.txt").unwrap();
    let link2_inode_id = fs.link("/test_file.txt", "/dir/test_link2.txt").unwrap();
    println!("Hard links created: /dir/test_link1.txt and /dir/test_link2.txt",);

    // Read the data from the first hard link.
    let mut buf1 = vec![0u8; data.len()];
    fs.fread("/dir/test_link1.txt", 0, &mut buf1).unwrap();
    println!("Data read from first hard link: {:?}", String::from_utf8_lossy(&buf1));

    // Write data to the first hard link.
    let new_data = b"Hello, Hard Links!";
    fs.fwrite("/dir/test_link1.txt", BLOCK_SIZE * 3, new_data).unwrap();
    println!("Data written to first hard link: {:?}", String::from_utf8_lossy(new_data));
    
    // Read the data from the second hard link.
    let mut buf2 = vec![0u8; new_data.len()];
    fs.fread("/dir/test_link2.txt", 0, &mut buf2).unwrap();
    println!("Data read from second hard link: {:?}", String::from_utf8_lossy(&buf2));

    // Now remove the original file.
    fs.remove("/test_file.txt", FileType::Regular).unwrap();
    println!("File System after removing original file: {}", fs.dump());

    // Remove the hard links.
    fs.remove("/dir/test_link1.txt", FileType::Regular).unwrap();
    fs.remove("/dir/test_link2.txt", FileType::Regular).unwrap();
    println!("File System after removing hard links: {}", fs.dump());
    
    fs.flush().unwrap();
}
