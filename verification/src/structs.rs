//! The records of the file system, their mathematical models and their
//! byte layouts.

use vstd::prelude::*;
use crate::codec::copy_into;
use crate::config::{BLOCK_SIZE, MAX_FILE_NAME_LEN, MAX_PATH_LEN, NUM_DIRECT_PTRS};
use crate::error::FsError;

verus! {

/// The in-memory copy of block 0: the layout of the disk and its free counts.
#[derive(Debug, Clone, Copy, PartialEq, Eq, Structural)]
pub struct SuperBlock {
    /// Magic number to identify the filesystem
    pub magic: u32,
    /// Total number of blocks in the filesystem
    pub num_blocks: u32,
    /// Fixed to BLOCK_SIZE
    pub block_size: u32,
    /// Number of free data blocks
    pub free_blocks: u32,
    /// Total number of inodes in the filesystem
    pub num_inodes: u32,
    /// Number of free inodes
    pub free_inodes: u32,
    /// Inode number of the root directory
    pub root_inode: u32,
    /// Block number where the data bitmap starts
    pub data_bitmap_start: u32,
    /// Size of the data bitmap in blocks
    pub data_bitmap_blocks: u32,
    /// Block number where the inode bitmap starts
    pub inode_bitmap_start: u32,
    /// Size of the inode bitmap in blocks
    pub inode_bitmap_blocks: u32,
    /// Block number where the inode table starts
    pub inode_table_start: u32,
    /// Size of the inode table in blocks
    pub inode_table_blocks: u32,
    /// Block number where data blocks start
    pub data_start: u32,
}

/// The type of a file.
#[derive(Debug, Clone, Copy, PartialEq, Eq, Structural)]
pub enum FileType {
    Regular,
    Directory,
    Symlink,
    /// For devices or other special files
    Special,
}

/// What may be done with a file.
#[derive(Debug, Clone, Copy, PartialEq, Eq, Structural)]
pub enum Mode {
    Read,
    Write,
    Execute,
    RW,
    RE,
    RWE,
    /// No permissions
    NoAccess,
}

/// The block pointers of a regular file or a directory. An absent pointer is
/// a hole; block 0 holds the superblock and is never pointed to.
#[derive(Debug, Clone, Copy)]
pub struct BlockPtr {
    pub indirect: Option<u32>,
    pub direct: [Option<u32>; NUM_DIRECT_PTRS],
}

/// The payload of an inode: block pointers, or the target of a symbolic link.
/// On disk the two share the same bytes of the record.
#[derive(Debug, Clone, Copy)]
pub enum InodePtr {
    /// Normal inode with direct and indirect pointers
    Blocks(BlockPtr),
    /// Symlink inode with a path, padded with zeros
    Path([u8; MAX_PATH_LEN]),
}

/// The record of a file in the inode table.
#[derive(Debug, Clone, Copy)]
pub struct Inode {
    pub ftype: FileType,
    pub mode: Mode,
    pub id: u32,
    /// Number of blocks that the size of the file spans, holes included; the
    /// block of indirect pointers is not counted.
    pub blocks: u32,
    /// When links_cnt decreases to 0 the inode can be freed.
    pub links_cnt: u32,
    pub inode_ptr: InodePtr,
    pub size: u64,
}

/// An entry of a directory: a name for an inode.
#[derive(Debug, Clone, Copy)]
pub struct DirEntry {
    pub inode_id: u32,
    /// Name of the file or directory, padded with zero to fit
    /// MAX_FILE_NAME_LEN, if the name is shorter.
    pub name: [u8; MAX_FILE_NAME_LEN],
}

/// What a `BlockPtr` holds.
pub struct BlockPtrModel {
    pub indirect: Option<u32>,
    pub direct: Seq<Option<u32>>,
}

/// What an `InodePtr` holds.
pub enum PayloadModel {
    Blocks(BlockPtrModel),
    Path(Seq<u8>),
}

/// What an `Inode` holds.
pub struct InodeModel {
    pub ftype: FileType,
    pub mode: Mode,
    pub id: u32,
    pub blocks: u32,
    pub links_cnt: u32,
    pub payload: PayloadModel,
    pub size: u64,
}

/// What a `DirEntry` holds.
pub struct EntryModel {
    pub inode_id: u32,
    pub name: Seq<u8>,
}

impl View for BlockPtr {
    type V = BlockPtrModel;

    open spec fn view(&self) -> BlockPtrModel {
        BlockPtrModel { indirect: self.indirect, direct: self.direct@ }
    }
}

impl View for InodePtr {
    type V = PayloadModel;

    open spec fn view(&self) -> PayloadModel {
        match *self {
            InodePtr::Blocks(bp) => PayloadModel::Blocks(bp@),
            InodePtr::Path(p) => PayloadModel::Path(p@),
        }
    }
}

impl View for Inode {
    type V = InodeModel;

    open spec fn view(&self) -> InodeModel {
        InodeModel {
            ftype: self.ftype,
            mode: self.mode,
            id: self.id,
            blocks: self.blocks,
            links_cnt: self.links_cnt,
            payload: self.inode_ptr@,
            size: self.size,
        }
    }
}

impl View for DirEntry {
    type V = EntryModel;

    open spec fn view(&self) -> EntryModel {
        EntryModel { inode_id: self.inode_id, name: self.name@ }
    }
}

impl BlockPtrModel {
    /// No block at all.
    pub open spec fn empty() -> BlockPtrModel {
        BlockPtrModel {
            indirect: None,
            direct: Seq::new(NUM_DIRECT_PTRS as nat, |i: int| None::<u32>),
        }
    }

    /// Twelve direct pointers, and no pointer to block 0.
    pub open spec fn wf(self) -> bool {
        &&& self.direct.len() == NUM_DIRECT_PTRS
        &&& self.indirect != Some(0u32)
        &&& forall|i: int| 0 <= i < NUM_DIRECT_PTRS ==> #[trigger] self.direct[i] != Some(0u32)
    }
}

impl InodeModel {
    /// A symbolic link holds a path of `MAX_PATH_LEN` bytes, every other
    /// inode holds well-formed block pointers.
    pub open spec fn wf(self) -> bool {
        match self.payload {
            PayloadModel::Blocks(bp) => self.ftype != FileType::Symlink && bp.wf(),
            PayloadModel::Path(p) => self.ftype == FileType::Symlink && p.len() == MAX_PATH_LEN,
        }
    }

    /// The record of an inode that was just allocated.
    pub open spec fn fresh(ftype: FileType, mode: Mode, id: u32) -> InodeModel {
        InodeModel {
            ftype,
            mode,
            id,
            blocks: 0,
            links_cnt: 0,
            payload: if ftype == FileType::Symlink {
                PayloadModel::Path(crate::codec::zeros(MAX_PATH_LEN as nat))
            } else {
                PayloadModel::Blocks(BlockPtrModel::empty())
            },
            size: 0,
        }
    }

    /// The record left in the slot of an inode that was freed.
    pub open spec fn cleared(id: u32) -> InodeModel {
        InodeModel::fresh(FileType::Regular, Mode::NoAccess, id)
    }

    /// The block pointers, where the inode has any.
    pub open spec fn block_ptrs(self) -> Option<BlockPtrModel> {
        match self.payload {
            PayloadModel::Blocks(bp) => if self.ftype == FileType::Regular || self.ftype
                == FileType::Directory {
                Some(bp)
            } else {
                None
            },
            PayloadModel::Path(_) => None,
        }
    }

    /// The path buffer, where the inode is a symbolic link.
    pub open spec fn path(self) -> Option<Seq<u8>> {
        match self.payload {
            PayloadModel::Blocks(_) => None,
            PayloadModel::Path(p) => if self.ftype == FileType::Symlink {
                Some(p)
            } else {
                None
            },
        }
    }
}

impl FileType {
    /// The byte that stands for the type on disk.
    pub open spec fn code(self) -> u8 {
        match self {
            FileType::Regular => 1,
            FileType::Directory => 2,
            FileType::Symlink => 3,
            FileType::Special => 4,
        }
    }

    /// The type that a byte on disk stands for.
    pub open spec fn of_code(b: u8) -> Option<FileType> {
        if b == 1 {
            Some(FileType::Regular)
        } else if b == 2 {
            Some(FileType::Directory)
        } else if b == 3 {
            Some(FileType::Symlink)
        } else if b == 4 {
            Some(FileType::Special)
        } else {
            None
        }
    }

    /// The byte that stands for the type on disk.
    pub fn to_byte(self) -> (b: u8)
        ensures
            b == self.code(),
    {
        match self {
            FileType::Regular => 1,
            FileType::Directory => 2,
            FileType::Symlink => 3,
            FileType::Special => 4,
        }
    }

    /// The type that a byte on disk stands for, if any.
    pub fn from_byte(b: u8) -> (t: Option<FileType>)
        ensures
            t == FileType::of_code(b),
    {
        if b == 1 {
            Some(FileType::Regular)
        } else if b == 2 {
            Some(FileType::Directory)
        } else if b == 3 {
            Some(FileType::Symlink)
        } else if b == 4 {
            Some(FileType::Special)
        } else {
            None
        }
    }
}

impl Mode {
    /// The permission bits: read is 1, write is 2, execute is 4.
    pub open spec fn code(self) -> u8 {
        match self {
            Mode::NoAccess => 0,
            Mode::Read => 1,
            Mode::Write => 2,
            Mode::RW => 3,
            Mode::Execute => 4,
            Mode::RE => 5,
            Mode::RWE => 7,
        }
    }

    /// The mode that a byte on disk stands for.
    pub open spec fn of_code(b: u8) -> Option<Mode> {
        if b == 0 {
            Some(Mode::NoAccess)
        } else if b == 1 {
            Some(Mode::Read)
        } else if b == 2 {
            Some(Mode::Write)
        } else if b == 3 {
            Some(Mode::RW)
        } else if b == 4 {
            Some(Mode::Execute)
        } else if b == 5 {
            Some(Mode::RE)
        } else if b == 7 {
            Some(Mode::RWE)
        } else {
            None
        }
    }

    /// Whether the mode allows reading.
    pub open spec fn readable(self) -> bool {
        self == Mode::Read || self == Mode::RW || self == Mode::RE || self == Mode::RWE
    }

    /// Whether the mode allows writing.
    pub open spec fn writable(self) -> bool {
        self == Mode::Write || self == Mode::RW || self == Mode::RWE
    }

    /// The byte that stands for the mode on disk.
    pub fn to_byte(self) -> (b: u8)
        ensures
            b == self.code(),
    {
        match self {
            Mode::NoAccess => 0,
            Mode::Read => 1,
            Mode::Write => 2,
            Mode::RW => 3,
            Mode::Execute => 4,
            Mode::RE => 5,
            Mode::RWE => 7,
        }
    }

    /// The mode that a byte on disk stands for, if any.
    pub fn from_byte(b: u8) -> (m: Option<Mode>)
        ensures
            m == Mode::of_code(b),
    {
        if b == 0 {
            Some(Mode::NoAccess)
        } else if b == 1 {
            Some(Mode::Read)
        } else if b == 2 {
            Some(Mode::Write)
        } else if b == 3 {
            Some(Mode::RW)
        } else if b == 4 {
            Some(Mode::Execute)
        } else if b == 5 {
            Some(Mode::RE)
        } else if b == 7 {
            Some(Mode::RWE)
        } else {
            None
        }
    }

    /// Whether the mode allows reading.
    pub fn can_read(self) -> (b: bool)
        ensures
            b == self.readable(),
    {
        match self {
            Mode::Read | Mode::RW | Mode::RE | Mode::RWE => true,
            _ => false,
        }
    }

    /// Whether the mode allows writing.
    pub fn can_write(self) -> (b: bool)
        ensures
            b == self.writable(),
    {
        match self {
            Mode::Write | Mode::RW | Mode::RWE => true,
            _ => false,
        }
    }
}

impl InodePtr {
    /// Block pointers that point to nothing.
    pub fn new() -> (p: InodePtr)
        ensures
            p@ == PayloadModel::Blocks(BlockPtrModel::empty()),
    {
        let bp = BlockPtr { indirect: None, direct: [None;NUM_DIRECT_PTRS] };
        assert(bp@.direct =~= BlockPtrModel::empty().direct);
        InodePtr::Blocks(bp)
    }
}

impl Inode {
    /// The record of a new inode: no block, no link, no byte. A symbolic
    /// link gets an empty path, every other type gets empty block pointers.
    pub fn new(ftype: FileType, mode: Mode, id: u32) -> (inode: Inode)
        ensures
            inode@ == InodeModel::fresh(ftype, mode, id),
            inode@.wf(),
    {
        let inode_ptr = match ftype {
            FileType::Symlink => {
                let p = [0u8;MAX_PATH_LEN];
                assert(p@ =~= crate::codec::zeros(MAX_PATH_LEN as nat));
                InodePtr::Path(p)
            },
            _ => InodePtr::new(),
        };
        Inode { ftype, mode, id, blocks: 0, links_cnt: 0, inode_ptr, size: 0 }
    }

    /// Whether the inode is a directory.
    pub fn is_directory(&self) -> (b: bool)
        ensures
            b == (self.ftype == FileType::Directory),
    {
        self.ftype == FileType::Directory
    }

    /// Whether the inode is a regular file.
    pub fn is_regular_file(&self) -> (b: bool)
        ensures
            b == (self.ftype == FileType::Regular),
    {
        self.ftype == FileType::Regular
    }

    /// Whether the inode is a symbolic link.
    pub fn is_symlink(&self) -> (b: bool)
        ensures
            b == (self.ftype == FileType::Symlink),
    {
        self.ftype == FileType::Symlink
    }

    /// Whether the inode is a special file.
    pub fn is_special(&self) -> (b: bool)
        ensures
            b == (self.ftype == FileType::Special),
    {
        self.ftype == FileType::Special
    }

    /// The block pointers of a regular file or a directory; any other inode
    /// has none.
    pub fn get_block_ptrs(&self) -> (r: Result<&BlockPtr, FsError>)
        ensures
            match r {
                Ok(bp) => self@.block_ptrs() == Some(bp@),
                Err(e) => self@.block_ptrs() is None && e == FsError::InvalidFileType,
            },
    {
        if self.ftype != FileType::Regular && self.ftype != FileType::Directory {
            return Err(FsError::InvalidFileType);
        }
        match &self.inode_ptr {
            InodePtr::Blocks(bp) => Ok(bp),
            InodePtr::Path(_) => Err(FsError::InvalidFileType),
        }
    }

    /// The block pointers of a regular file or a directory, to change them.
    pub fn get_block_ptrs_mut(&mut self) -> (r: Result<&mut BlockPtr, FsError>)
        ensures
            match r {
                Ok(bp) => old(self)@.block_ptrs() == Some(bp@) && *final(self) == (Inode {
                    inode_ptr: InodePtr::Blocks(*final(bp)),
                    ..*old(self)
                }),
                Err(e) => old(self)@.block_ptrs() is None && e == FsError::InvalidFileType
                    && *final(self) == *old(self),
            },
    {
        if self.ftype != FileType::Regular && self.ftype != FileType::Directory {
            return Err(FsError::InvalidFileType);
        }
        match &mut self.inode_ptr {
            InodePtr::Blocks(bp) => Ok(bp),
            InodePtr::Path(_) => Err(FsError::InvalidFileType),
        }
    }

    /// The path buffer of a symbolic link; any other inode has none.
    pub fn get_path(&self) -> (r: Result<&[u8; MAX_PATH_LEN], FsError>)
        ensures
            match r {
                Ok(p) => self@.path() == Some(p@),
                Err(e) => self@.path() is None && e == FsError::NotSymlink,
            },
    {
        if self.ftype != FileType::Symlink {
            return Err(FsError::NotSymlink);
        }
        match &self.inode_ptr {
            InodePtr::Path(p) => Ok(p),
            InodePtr::Blocks(_) => Err(FsError::NotSymlink),
        }
    }

    /// The path buffer of a symbolic link, to change it.
    pub fn get_path_mut(&mut self) -> (r: Result<&mut [u8; MAX_PATH_LEN], FsError>)
        ensures
            match r {
                Ok(p) => old(self)@.path() == Some(p@) && *final(self) == (Inode {
                    inode_ptr: InodePtr::Path(*final(p)),
                    ..*old(self)
                }),
                Err(e) => old(self)@.path() is None && e == FsError::NotSymlink && *final(self)
                    == *old(self),
            },
    {
        if self.ftype != FileType::Symlink {
            return Err(FsError::NotSymlink);
        }
        match &mut self.inode_ptr {
            InodePtr::Path(p) => Ok(p),
            InodePtr::Blocks(_) => Err(FsError::NotSymlink),
        }
    }
}

impl EntryModel {
    /// The entry of an empty slot.
    pub open spec fn null() -> EntryModel {
        EntryModel { inode_id: 0, name: crate::codec::zeros(MAX_FILE_NAME_LEN as nat) }
    }

    /// The entry that gives `name` to inode `inode_id`: the name, padded
    /// with zeros.
    pub open spec fn named(inode_id: u32, name: Seq<u8>) -> EntryModel {
        EntryModel {
            inode_id,
            name: Seq::new(
                MAX_FILE_NAME_LEN as nat,
                |i: int| if i < name.len() { name[i] } else { 0u8 },
            ),
        }
    }
}

impl DirEntry {
    /// The entry that gives `name` to inode `inode_id`. A name must have
    /// between 1 and `MAX_FILE_NAME_LEN` bytes.
    pub fn new(inode_id: u32, name: &[u8]) -> (r: Result<DirEntry, FsError>)
        ensures
            match r {
                Ok(e) => 1 <= name@.len() <= MAX_FILE_NAME_LEN && e@ == EntryModel::named(
                    inode_id,
                    name@,
                ),
                Err(e) => e == FsError::InvalidFileName && (name@.len() == 0 || name@.len()
                    > MAX_FILE_NAME_LEN),
            },
    {
        if name.len() == 0 || name.len() > MAX_FILE_NAME_LEN {
            return Err(FsError::InvalidFileName);
        }
        let mut arr = [0u8;MAX_FILE_NAME_LEN];
        copy_into(&mut arr, 0, name);
        assert(arr@ =~= EntryModel::named(inode_id, name@).name);
        Ok(DirEntry { inode_id, name: arr })
    }

    /// The entry of an empty slot.
    pub fn null() -> (e: DirEntry)
        ensures
            e@ == EntryModel::null(),
    {
        let name = [0u8;MAX_FILE_NAME_LEN];
        assert(name@ =~= crate::codec::zeros(MAX_FILE_NAME_LEN as nat));
        DirEntry { inode_id: 0, name }
    }
}

} // verus!
