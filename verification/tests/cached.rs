#![allow(unused)]

use std::collections::VecDeque;

use muon::BlockDevice;
use muon::Cache;
use muon::Cached;
use muon::FileSystem;
use muon::FileType;
use muon::FsError;
use muon::Mode;
use muon::BLOCK_SIZE;

#[derive(Debug)]
pub struct RamDisk {
    inner: Vec<u8>,
    num_blocks: usize,
}

impl RamDisk {
    /// Creates a new RamDisk with the specified number of blocks.
    /// Each block is BLOCK_SIZE bytes.
    pub fn new(num_blocks: usize) -> Self {
        let size = num_blocks * BLOCK_SIZE;
        RamDisk { inner: vec![0u8; size], num_blocks }
    }
}

impl BlockDevice for RamDisk {
    fn num_blocks(&self) -> usize {
        self.num_blocks
    }

    fn read_block(&mut self, block_id: u32, buf: &mut [u8; BLOCK_SIZE]) -> Result<(), FsError> {
        if block_id >= self.num_blocks as u32 {
            return Err(FsError::InvalidBlockId);
        }
        let start = block_id as usize * BLOCK_SIZE;
        let end = start as usize + BLOCK_SIZE;
        buf.copy_from_slice(&self.inner[start..end]);
        Ok(())
    }

    fn write_block(&mut self, block_id: u32, buf: &[u8; BLOCK_SIZE]) -> Result<(), FsError> {
        if block_id >= self.num_blocks as u32 {
            return Err(FsError::InvalidBlockId);
        }
        let start = block_id as usize * BLOCK_SIZE;
        let end = start as usize + BLOCK_SIZE;
        self.inner[start..end].copy_from_slice(buf);
        Ok(())
    }

    fn flush(&mut self) -> Result<(), FsError> {
        // In a RAM disk, flushing is a no-op since data is already in memory.
        Ok(())
    }

    fn block_size(&self) -> usize {
        BLOCK_SIZE
    }

    // The members below are used in proofs only and never run.
    fn view(&self) -> vstd::seq::Seq<vstd::seq::Seq<u8>> {
        unreachable!()
    }

    fn reliable(&self) -> bool {
        unreachable!()
    }

    fn flushed(&self) -> bool {
        unreachable!()
    }

    fn lemma_blocks_sized(&self) {
    }
}


#[derive(Debug)]
pub struct CacheBuffer {
    buf: [u8; BLOCK_SIZE],
    block_id: u32,
    dirty: bool,
}

pub struct LruCache {
    cache: VecDeque<CacheBuffer>,
    capacity: usize,
}

impl LruCache {
    pub fn new(capacity: usize) -> Self {
        LruCache { cache: VecDeque::with_capacity(capacity), capacity }
    }
}

impl Cache for LruCache {
    fn write_cache(&mut self, block_id: u32, buf: &[u8; BLOCK_SIZE]) -> Result<(), FsError> {
        if let Some(idx) = self.cache.iter().position(|b| b.block_id == block_id) {
            let buffer = &mut self.cache[idx];
            buffer.buf.copy_from_slice(buf);
            buffer.dirty = true;
            // Move the accessed buffer to the front (most recently used)
            let buffer = self.cache.remove(idx).unwrap();
            self.cache.push_front(buffer);
        } else {
            if self.cache.len() >= self.capacity {
                // Evict and flush immediately, for simplicity
                let evicted_buffer = self.cache.iter().last().unwrap();
                return Err(FsError::CacheEvict(evicted_buffer.block_id));
                // Cache evicted.
            }
            // Add new buffer
            let new_buffer = CacheBuffer {
                buf: *buf,
                block_id,
                dirty: true, // Dirty since the block is being written to cache
            };
            self.cache.push_front(new_buffer);
        }
        Ok(())
    }

    fn read_cache(&mut self, block_id: u32, buf: &mut [u8; BLOCK_SIZE]) -> Result<(), FsError> {
        if let Some(idx) = self.cache.iter().position(|b| b.block_id == block_id) {
            let buffer = &self.cache[idx];
            buf.copy_from_slice(&buffer.buf);
            // Move the accessed buffer to the front (most recently used)
            let buffer = self.cache.remove(idx).unwrap();
            self.cache.push_front(buffer);
        } else {
            return Err(FsError::CacheMiss);
        }

        Ok(())
    }

    fn flush<D: BlockDevice>(&mut self, device: &mut D) -> Result<(), FsError> {
        for buffer in self.cache.iter_mut() {
            if buffer.dirty {
                device.write_block(buffer.block_id, &buffer.buf)?;
                buffer.dirty = false;
            }
        }
        Ok(())
    }

    fn evict<D: BlockDevice>(&mut self, device: &mut D, block_id: u32) -> Result<(), FsError> {
        if let Some(idx) = self.cache.iter().position(|b| b.block_id == block_id) {
            if self.cache[idx].dirty {
                device.write_block(block_id, &self.cache[idx].buf)?;
            }
            self.cache.remove(idx);
        } else {
            return Err(FsError::CacheMiss);
        }
        Ok(())
    }

    // The members below are used in proofs only and never run.
    fn entries(&self) -> vstd::map::Map<vstd::prelude::int, vstd::seq::Seq<u8>> {
        unreachable!()
    }

    fn lemma_entries_sized(&self) {
    }
}

#[test]
fn test_cached() {
    let rd = RamDisk::new(64);
    let cache = LruCache::new(4);
    let cached = Cached::new(rd, cache);
    let mut fs = FileSystem::format(cached, 64, 80).unwrap();

    println!("fs initialized {}", fs.dump());
    fs.flush().unwrap();
    println!("fs flushed {}", fs.dump());
}

#[test]
fn cached_test_hard_link() {
    let rd = RamDisk::new(64);
    let cache = LruCache::new(4);
    let cached = Cached::new(rd, cache);
    let mut fs = FileSystem::format(cached, 64, 80).unwrap();

    println!("File System initialized: {}", fs.dump());

    // Create a file.
    let file_inode_id = fs.creat("/test.txt", FileType::Regular, Mode::RW).unwrap();
    let file_inode = fs.get_inode(file_inode_id).unwrap();
    println!("File inode created: {:?}", file_inode);
    
    let dir_inode_id = fs.creat("/test_dir", FileType::Directory, Mode::RW).unwrap();
    let dir_inode = fs.get_inode(dir_inode_id).unwrap();
    println!("Directory inode created: {:?}", dir_inode);
    println!("File System after creating file and directory: {}", fs.dump());

    // Create a hard link to the file.
    let link_inode_id = fs.link("/test.txt", "/test_dir/test_link.txt").unwrap();
    let link_inode = fs.get_inode(link_inode_id).unwrap();
    println!("Hard link inode created: {:?}", link_inode);
    
    println!("File System after creating hard link: {}", fs.dump());

    // Check if both inodes point to the same data.
    assert_eq!(file_inode_id, link_inode_id, "Hard link should have the same inode ID as the original file");
    
    // Check directory entries.
    let entries = fs.read_dir("/").unwrap();
    for entry in entries {
        println!("Inode {} Name {}", entry.inode_id, String::from_utf8_lossy(&entry.name));
    }

    // Write some data to the original file.
    let data = b"Hello, hard link!";
    let bytes_written = fs.fwrite("/test.txt", 0, data).unwrap();
    println!("Bytes written to original file: {}", bytes_written);

    // Remove the original file.
    fs.remove("/test.txt", FileType::Regular).unwrap();
    println!("File System after removing original file: {}", fs.dump());
    // Check if the hard link still exists.
    let (link_inode_id, ftype) = fs.lookup("/test_dir/test_link.txt").unwrap();
    assert_eq!(ftype, FileType::Regular, "Hard link should still exist as a regular file");
    let link_inode = fs.get_inode(link_inode_id).unwrap();
    println!("Hard link inode after removing original file: {:?}", link_inode);
    // Check if the link count is correct.
    assert_eq!(link_inode.links_cnt, 1, "Hard link should have a link count of 1 after removing the original file");

    // Read the data from the hard link.
    let mut buf = vec![0u8; data.len()];
    let bytes_read = fs.fread("/test_dir/test_link.txt", 0, &mut buf).unwrap();
    println!("Data read from hard link: {:?}", String::from_utf8_lossy(&buf));

    // Now remove the hard link.
    fs.remove("/test_dir/test_link.txt", FileType::Regular).unwrap();
    println!("File System after removing hard link: {}", fs.dump());
    fs.flush().unwrap();
}

#[test]
fn test_mkdir_3() {
    let rd = RamDisk::new(64);
    let cache = LruCache::new(4);
    let cached = Cached::new(rd, cache);
    let mut fs = FileSystem::format(cached, 64, 80).unwrap();

    println!("File System initialized: {}", fs.dump());

    // Create:
    // /a
    // /a/b
    // /a/b/c
    // /x
    // /x/y
    fs.creat("/a", FileType::Directory, Mode::RW).unwrap();
    fs.creat("/a/b", FileType::Directory, Mode::RW).unwrap();
    fs.creat("/a/b/c", FileType::Directory, Mode::RW).unwrap();
    fs.creat("/x", FileType::Directory, Mode::RW).unwrap();
    fs.creat("/x/y", FileType::Directory, Mode::RW).unwrap();
    println!("File System after creating directories: {}", fs.dump());
    read_dir_recursive(&mut fs, "/", 3);

    // Remove
    fs.remove("/x/y", FileType::Directory).unwrap();
    fs.remove("/a/b/c", FileType::Directory).unwrap();
    fs.remove("/a/b", FileType::Directory).unwrap();
    fs.remove("/a", FileType::Directory).unwrap();
    fs.remove("/x", FileType::Directory).unwrap();
    println!("File System after removing directories: {}", fs.dump());
    read_dir_recursive(&mut fs, "/", 3);

    // allocated a new inode
    let new_inode_id = fs.creat("/x/file", FileType::Regular, Mode::RW);
    // this should fail
    assert!(new_inode_id.is_err(), "Creating a file in a removed directory should fail");
    println!("{:?}", new_inode_id.unwrap_err());

    let new_inode_id = fs.creat("/file", FileType::Regular, Mode::RW).unwrap();
    let inode = fs.get_inode(new_inode_id).unwrap();
    println!("New file inode created: {:?}", inode);
    println!("File System after creating a new file: {}", fs.dump());
}

fn read_dir_recursive(fs: &mut FileSystem<impl BlockDevice>, path: &str, depth: usize) {
    if depth == 0 {
        return;
    }

    let entries = fs.read_dir(path).unwrap();
    println!("Directory entries in '{}':", path);
    let mut next_level_entries = vec![];
    for entry in entries {
        let name = String::from_utf8_lossy(&entry.name);
        println!("  Inode ID: {}, Name: {}", entry.inode_id, name);
        
        // If the entry is a directory, read its contents recursively.
        if entry.inode_id != 0 && fs.get_inode(entry.inode_id).unwrap().ftype == FileType::Directory {
            if entry.name_eq(".".as_bytes()) || entry.name_eq("..".as_bytes()) {
                continue; // Skip current and parent directory entries.
            }
            let next_path = if path == "/" {
                format!("/{}", name)
            } else {
                format!("{}/{}", path, name)
            };
            next_level_entries.push(next_path);   
        }
    }
    println!("End of directory entries in '{}'", path);
    for next_path in next_level_entries {
        read_dir_recursive(fs, &next_path, depth - 1);
    }
}