//! Muon is a tiny file system for small kernels: a superblock, two allocation
//! bitmaps, an inode table and a data region on a block device.
//!
//! Layers, from bottom to top: block device, cache, inode, directory, path,
//! file, and the file system that composes them. The modules whose names end
//! in `_laws` state and prove what holds of these layers together.

pub mod config;
pub mod error;
pub mod codec;
pub mod block_dev;
pub mod cache;
pub mod structs;
pub mod layout;
pub mod superblock;
pub mod bitmap;
pub mod inode;
pub mod directory;
pub mod path;
pub mod file;
pub mod fs;

pub mod frame;
pub mod path_laws;
pub mod inode_laws;
pub mod dir_laws;
pub mod tree_laws;
pub mod file_laws;
pub mod alloc_laws;
pub mod account_laws;
pub mod dirs_laws;
pub mod fs_laws;

pub use config::{
    BITS_PER_BLOCK, BLOCK_SIZE, DIR_ENTRY_SIZE, INODES_PER_BLOCK, INODE_SIZE, MAGIC,
    MAX_FILE_BLOCKS, MAX_FILE_NAME_LEN, MAX_FSIZE, MAX_PATH_LEN, NUM_DIRECT_PTRS,
    NUM_ENTRY_PER_BLOCK, NUM_INDIRECT_PTRS, PTRS_PER_BLOCK, ROOT_INODE_ID, SUPERBLOCK_ID,
    SYMLOOP_MAX,
};
pub use error::FsError;
pub use file::{fread, fwrite, ftruncate};
pub use fs::FileSystem;
pub use path::{canonicalize, canonicalize_bytes, resolve, resolve_bytes, resolve_without_last, split, split_bytes};
pub use block_dev::{BlockDevice, RamDisk};
pub use cache::{Cache, Cached};
pub use superblock::{read_superblock, write_superblock};
pub use bitmap::{alloc_data_block, alloc_inode_id, free_data_block, free_inode_id};
pub use directory::{
    dir_add_entry, dir_is_empty, dir_lookup, dir_rm_entry, dir_scan, is_dot_or_dotdot, mkdir,
    name_cmp, name_is_empty, read_dir, trim_zero,
};
pub use inode::{alloc_inode, bmap, bmap_lookup, free_inode, get_inode, release_blocks, write_inode};
pub use structs::{BlockPtr, DirEntry, FileType, Inode, InodePtr, Mode, SuperBlock};
