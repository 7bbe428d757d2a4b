//! Sizes and limits of the on-disk format.

use vstd::prelude::*;

verus! {

/// Magic number of a superblock: "MUON" in ASCII.
pub const MAGIC: u32 = 0x4D554F4E;

/// Size of a block in bytes.
pub const BLOCK_SIZE: usize = 512;

/// Number of items that one bitmap block tracks.
pub const BITS_PER_BLOCK: u32 = 4096;

/// Block that holds the superblock.
pub const SUPERBLOCK_ID: u32 = 0;

/// Inode of the root directory. Inode 0 is a sentinel that is never used,
/// so that a directory entry with inode id 0 is an empty slot.
pub const ROOT_INODE_ID: u32 = 1;

/// Size of an inode record in bytes.
pub const INODE_SIZE: usize = 128;

/// Number of inode records in one block of the inode table.
pub const INODES_PER_BLOCK: u32 = 4;

/// Longest file name in bytes.
pub const MAX_FILE_NAME_LEN: usize = 60;

/// Size of a directory entry in bytes: an inode id and a name.
pub const DIR_ENTRY_SIZE: usize = 64;

/// Number of directory entries in one block.
pub const NUM_ENTRY_PER_BLOCK: usize = 8;

/// Number of direct block pointers in an inode.
pub const NUM_DIRECT_PTRS: usize = 12;

/// Number of indirect block pointers in an inode.
pub const NUM_INDIRECT_PTRS: usize = 1;

/// Number of block pointers that an indirect block holds.
pub const PTRS_PER_BLOCK: usize = 128;

/// Number of blocks that one file can map.
pub const MAX_FILE_BLOCKS: u64 = 140;

/// Largest size of a file in bytes.
pub const MAX_FSIZE: usize = 71680;

/// Length of the path buffer of a symbolic link.
pub const MAX_PATH_LEN: usize = 104;

/// Largest number of symbolic links followed while one path is resolved.
pub const SYMLOOP_MAX: usize = 40;

} // verus!
