//! The file system: one block device and the superblock of the file system
//! on it, with the operations on paths.

use vstd::prelude::*;
use crate::bitmap::{check_counts, formatted};
use crate::block_dev::BlockDevice;
use crate::codec::copy_into;
use crate::config::{BLOCK_SIZE, MAX_FILE_NAME_LEN, MAX_PATH_LEN, ROOT_INODE_ID};
use crate::directory::{dir_add_entry, dir_is_empty, dir_rm_entry, dir_scan, mkdir, read_dir};
use crate::error::FsError;
use crate::file::{fread, fwrite};
use crate::inode::{alloc_inode, free_inode, get_inode, write_inode, InodeStep};
use crate::path::{resolve_bytes, split_bytes};
use crate::structs::{DirEntry, EntryModel, FileType, Inode, InodeModel, InodePtr, Mode, SuperBlock};
use crate::superblock::{read_superblock, write_superblock, Step};

verus! {

/// A file system on a block device, with its superblock in memory.
pub struct FileSystem<D: BlockDevice> {
    device: D,
    /// In-memory copy of the superblock.
    superblock: SuperBlock,
}

/// `disk` with the blocks from 1 up to `end` zeroed.
pub open spec fn zeroed_upto(disk: Seq<Seq<u8>>, end: int) -> Seq<Seq<u8>> {
    Seq::new(
        disk.len(),
        |b: int|
            if 1 <= b < end {
                crate::codec::zeros(BLOCK_SIZE as nat)
            } else {
                disk[b]
            },
    )
}

/// `disk` with the two bitmaps and the inode table of `sb` zeroed.
pub open spec fn zeroed(disk: Seq<Seq<u8>>, sb: SuperBlock) -> Seq<Seq<u8>> {
    zeroed_upto(disk, sb.data_start as int)
}

/// What `format` makes of a disk: the layout is computed, the bitmaps and
/// the inode table are zeroed, inode 0 is taken as a sentinel, the root
/// directory is created with its entries `.` and `..` and two links, and the
/// superblock is written.
#[verifier::opaque]
pub open spec fn spec_format(disk: Seq<Seq<u8>>, num_blocks: u32, num_inodes: u32) -> Result<
    (Seq<Seq<u8>>, SuperBlock),
    FsError,
> {
    match SuperBlock::spec_new(num_blocks, num_inodes) {
        Err(e) => Err(e),
        Ok(sb0) => if num_blocks > disk.len() {
            Err(FsError::InvalidBlockId)
        } else {
            let a0 = crate::inode::spec_alloc_inode(
                zeroed(disk, sb0),
                sb0,
                FileType::Special,
                Mode::NoAccess,
            );
            match a0.res {
                Err(e) => Err(e),
                Ok(_) => {
                    let a1 = crate::inode::spec_alloc_inode(
                        a0.disk,
                        a0.sb,
                        FileType::Directory,
                        Mode::RW,
                    );
                    match a1.res {
                        Err(e) => Err(e),
                        Ok(root) => spec_format_root(a1.disk, a1.sb, root),
                    }
                },
            }
        },
    }
}

/// The part of `format` that follows the allocation of the root inode.
pub open spec fn spec_format_root(disk: Seq<Seq<u8>>, sb: SuperBlock, root: InodeModel) -> Result<
    (Seq<Seq<u8>>, SuperBlock),
    FsError,
> {
    let s1 = crate::directory::spec_dir_add_entry(
        disk,
        sb,
        root,
        EntryModel::named(ROOT_INODE_ID, crate::directory::dot()),
    );
    match s1.res {
        Err(e) => Err(e),
        Ok(_) => {
            let s2 = crate::directory::spec_dir_add_entry(
                s1.disk,
                s1.sb,
                s1.inode,
                EntryModel::named(ROOT_INODE_ID, crate::directory::dotdot()),
            );
            match s2.res {
                Err(e) => Err(e),
                Ok(_) => {
                    let w = crate::inode::spec_write_inode(
                        s2.disk,
                        s2.sb,
                        InodeModel { links_cnt: 2, ..s2.inode },
                    );
                    match w.res {
                        Err(e) => Err(e),
                        Ok(_) => {
                            let ws = crate::superblock::spec_write_superblock(w.disk, w.sb);
                            match ws.res {
                                Err(e) => Err(e),
                                Ok(_) => Ok((ws.disk, ws.sb)),
                            }
                        },
                    }
                },
            }
        },
    }
}

/// What `mount` finds on a disk: the superblock of block 0, if it describes
/// a file system that fits on the disk and its free counts agree with the
/// bitmaps.
pub open spec fn spec_mount(disk: Seq<Seq<u8>>) -> Result<SuperBlock, FsError> {
    match crate::superblock::spec_read_superblock(disk) {
        Err(e) => Err(e),
        Ok(sb) => if crate::bitmap::counts_ok(disk, sb) {
            Ok(sb)
        } else {
            Err(FsError::InvalidSuperBlock)
        },
    }
}

/// What `lookup` returns: the inode that the path names, and its type.
pub open spec fn spec_lookup(disk: Seq<Seq<u8>>, sb: SuperBlock, path: Seq<u8>) -> Result<
    (u32, FileType),
    FsError,
> {
    match crate::path::spec_resolve(disk, sb, path, false) {
        Err(e) => Err(e),
        Ok((_, id)) => match crate::inode::spec_get_inode(disk, sb, id) {
            Err(e) => Err(e),
            Ok(m) => Ok((id, m.ftype)),
        },
    }
}

/// The directory that will hold the last component of `path`, and that
/// component: the path is split, its directory part resolved, and the inode
/// found there must be a directory.
pub open spec fn spec_parent(disk: Seq<Seq<u8>>, sb: SuperBlock, path: Seq<u8>) -> Result<
    (InodeModel, Seq<u8>),
    FsError,
> {
    match crate::path::spec_split(path) {
        Err(e) => Err(e),
        Ok((dir, name)) => match crate::path::spec_resolve(disk, sb, dir, false) {
            Err(e) => Err(e),
            Ok((_, id)) => match crate::inode::spec_get_inode(disk, sb, id) {
                Err(e) => Err(e),
                Ok(p) => if p.ftype != FileType::Directory {
                    Err(FsError::NotDirectory)
                } else {
                    Ok((p, name))
                },
            },
        },
    }
}

/// A step on a directory as a step of the file system.
pub open spec fn as_step<T>(s: InodeStep<T>) -> Step<T> {
    Step { res: s.res, disk: s.disk, sb: s.sb }
}

/// What `creat` does for a regular file in directory `p`: the name must be
/// valid and new; an inode is allocated, entered in the directory, and
/// written with one link.
pub open spec fn spec_creat_regular(
    disk: Seq<Seq<u8>>,
    sb: SuperBlock,
    p: InodeModel,
    name: Seq<u8>,
    mode: Mode,
) -> Step<u32> {
    if name.len() == 0 || name.len() > MAX_FILE_NAME_LEN {
        Step { res: Err(FsError::InvalidFileName), disk, sb }
    } else {
        match crate::directory::spec_dir_scan(disk, sb, p, name, false, 0) {
            Err(e) => Step { res: Err(e), disk, sb },
            Ok(Some(_)) => Step { res: Err(FsError::AlreadyExists), disk, sb },
            Ok(None) => {
                let a = crate::inode::spec_alloc_inode(disk, sb, FileType::Regular, mode);
                match a.res {
                    Err(e) => Step { res: Err(e), disk: a.disk, sb: a.sb },
                    Ok(n0) => {
                        let s1 = crate::directory::spec_dir_add_entry(
                            a.disk,
                            a.sb,
                            p,
                            EntryModel::named(n0.id, name),
                        );
                        match s1.res {
                            Err(e) => Step { res: Err(e), disk: s1.disk, sb: s1.sb },
                            Ok(_) => {
                                let w1 = crate::inode::spec_write_inode(s1.disk, s1.sb, s1.inode);
                                match w1.res {
                                    Err(e) => Step { res: Err(e), disk: w1.disk, sb: w1.sb },
                                    Ok(_) => {
                                        let w2 = crate::inode::spec_write_inode(
                                            w1.disk,
                                            w1.sb,
                                            InodeModel { links_cnt: 1, ..n0 },
                                        );
                                        Step {
                                            res: match w2.res {
                                                Ok(_) => Ok(n0.id),
                                                Err(e) => Err(e),
                                            },
                                            disk: w2.disk,
                                            sb: w2.sb,
                                        }
                                    },
                                }
                            },
                        }
                    },
                }
            },
        }
    }
}

/// What `creat` does: a regular file or a directory is created under the
/// last component of the path in the directory that the rest of the path
/// names. No other type can be created.
#[verifier::opaque]
pub open spec fn spec_creat(
    disk: Seq<Seq<u8>>,
    sb: SuperBlock,
    path: Seq<u8>,
    file_type: FileType,
    mode: Mode,
) -> Step<u32> {
    match spec_parent(disk, sb, path) {
        Err(e) => Step { res: Err(e), disk, sb },
        Ok((p, name)) => match file_type {
            FileType::Regular => spec_creat_regular(disk, sb, p, name, mode),
            FileType::Directory => as_step(crate::directory::spec_mkdir(disk, sb, p, name)),
            _ => Step { res: Err(FsError::InvalidArgument), disk, sb },
        },
    }
}

/// The number of links that a removal takes from the inode removed: the
/// entry in the parent, and for a directory its own entry `.`.
pub open spec fn links_taken(file_type: FileType) -> int {
    if file_type == FileType::Directory {
        2
    } else {
        1
    }
}

/// What `remove` does once the parent `p`, the name and the inode `f` are
/// known: the entry leaves the parent, the link counts go down, and the
/// inode is freed when no link is left.
pub open spec fn spec_unlink(
    disk: Seq<Seq<u8>>,
    sb: SuperBlock,
    p: InodeModel,
    name: Seq<u8>,
    f: InodeModel,
    file_type: FileType,
) -> Step<()> {
    if file_type == FileType::Special || f.ftype != file_type {
        Step { res: Err(FsError::InvalidArgument), disk, sb }
    } else if file_type == FileType::Directory && f.size / 64 < 2 {
        Step { res: Err(FsError::InvalidArgument), disk, sb }
    } else if file_type == FileType::Directory && f.size / 64 != 2 {
        Step { res: Err(FsError::DirNotEmpty), disk, sb }
    } else if f.links_cnt < links_taken(file_type) || (file_type == FileType::Directory
        && p.links_cnt < 1) {
        Step { res: Err(FsError::InvalidArgument), disk, sb }
    } else {
        let s = crate::directory::spec_dir_rm_entry(disk, sb, p, name);
        match s.res {
            Err(e) => Step { res: Err(e), disk: s.disk, sb: s.sb },
            Ok(_) => {
                let f1 = InodeModel {
                    links_cnt: (f.links_cnt - links_taken(file_type)) as u32,
                    ..f
                };
                let w = if file_type == FileType::Directory {
                    crate::inode::spec_write_inode(
                        s.disk,
                        s.sb,
                        InodeModel { links_cnt: (s.inode.links_cnt - 1) as u32, ..s.inode },
                    )
                } else {
                    Step { res: Ok(()), disk: s.disk, sb: s.sb }
                };
                match w.res {
                    Err(e) => Step { res: Err(e), disk: w.disk, sb: w.sb },
                    Ok(_) => if f1.links_cnt == 0 {
                        let fr = crate::inode::spec_free_inode(w.disk, w.sb, f1.id);
                        Step {
                            res: match fr.res {
                                Ok(_) => Ok(()),
                                Err(e) => Err(e),
                            },
                            disk: fr.disk,
                            sb: fr.sb,
                        }
                    } else {
                        crate::inode::spec_write_inode(w.disk, w.sb, f1)
                    },
                }
            },
        }
    }
}

/// What `remove` does: the path must name an inode of the given type, a
/// directory must be empty. A symbolic link is removed itself, not what it
/// points to.
#[verifier::opaque]
pub open spec fn spec_remove(disk: Seq<Seq<u8>>, sb: SuperBlock, path: Seq<u8>, file_type: FileType)
    -> Step<()> {
    match spec_parent(disk, sb, path) {
        Err(e) => Step { res: Err(e), disk, sb },
        Ok((p, name)) => match crate::path::spec_resolve(
            disk,
            sb,
            path,
            file_type == FileType::Symlink,
        ) {
            Err(e) => Step { res: Err(e), disk, sb },
            Ok((_, id)) => match crate::inode::spec_get_inode(disk, sb, id) {
                Err(e) => Step { res: Err(e), disk, sb },
                Ok(f) => spec_unlink(disk, sb, p, name, f, file_type),
            },
        },
    }
}

/// The inode that a path names, with its record.
pub open spec fn spec_find(disk: Seq<Seq<u8>>, sb: SuperBlock, path: Seq<u8>, keep_last: bool)
    -> Result<(u32, InodeModel), FsError> {
    match crate::path::spec_resolve(disk, sb, path, keep_last) {
        Err(e) => Err(e),
        Ok((_, id)) => match crate::inode::spec_get_inode(disk, sb, id) {
            Err(e) => Err(e),
            Ok(m) => Ok((id, m)),
        },
    }
}

/// What the `read_dir` of the file system returns: the entries of the
/// directory that the path names.
#[verifier::opaque]
pub open spec fn spec_fs_read_dir(disk: Seq<Seq<u8>>, sb: SuperBlock, path: Seq<u8>) -> Result<
    Seq<EntryModel>,
    FsError,
> {
    match spec_find(disk, sb, path, false) {
        Err(e) => Err(e),
        Ok((_, m)) => crate::directory::spec_read_dir(disk, sb, m),
    }
}

/// What the `fread` of the file system reads: bytes of the file that the
/// path names, if its mode allows reading. What `fread` refuses is refused.
#[verifier::opaque]
pub open spec fn spec_fs_fread(
    disk: Seq<Seq<u8>>,
    sb: SuperBlock,
    path: Seq<u8>,
    offset: int,
    len: int,
) -> Result<Seq<u8>, FsError> {
    match spec_find(disk, sb, path, false) {
        Err(e) => Err(e),
        Ok((_, m)) => if !m.mode.readable() {
            Err(FsError::PermissionDenied)
        } else {
            crate::file::spec_fread(disk, sb, m, offset, len)
        },
    }
}

/// What the `fwrite` of the file system does: it writes to the file that
/// the path names, if its mode allows writing. What `fwrite` refuses is
/// refused.
#[verifier::opaque]
pub open spec fn spec_fs_fwrite(
    disk: Seq<Seq<u8>>,
    sb: SuperBlock,
    path: Seq<u8>,
    offset: int,
    data: Seq<u8>,
) -> Step<usize> {
    match spec_find(disk, sb, path, false) {
        Err(e) => Step { res: Err(e), disk, sb },
        Ok((_, m)) => if !m.mode.writable() {
            Step { res: Err(FsError::PermissionDenied), disk, sb }
        } else {
            as_step(crate::file::spec_fwrite(disk, sb, m, offset, data))
        },
    }
}

/// What `link` does: the regular file that `target` names gets one more
/// entry, under the last component of `link_path`, and one more link.
#[verifier::opaque]
pub open spec fn spec_link(disk: Seq<Seq<u8>>, sb: SuperBlock, target: Seq<u8>, link_path: Seq<u8>)
    -> Step<u32> {
    match spec_parent(disk, sb, link_path) {
        Err(e) => Step { res: Err(e), disk, sb },
        Ok((p, name)) => match spec_find(disk, sb, target, false) {
            Err(e) => Step { res: Err(e), disk, sb },
            Ok((id, t)) => if t.ftype != FileType::Regular {
                Step { res: Err(FsError::NotRegular), disk, sb }
            } else if t.links_cnt == u32::MAX {
                Step { res: Err(FsError::OutOfBounds), disk, sb }
            } else if name.len() == 0 || name.len() > MAX_FILE_NAME_LEN {
                Step { res: Err(FsError::InvalidFileName), disk, sb }
            } else {
                let s = crate::directory::spec_dir_add_entry(
                    disk,
                    sb,
                    p,
                    EntryModel::named(id, name),
                );
                match s.res {
                    Err(e) => Step { res: Err(e), disk: s.disk, sb: s.sb },
                    Ok(_) => {
                        let w = crate::inode::spec_write_inode(
                            s.disk,
                            s.sb,
                            InodeModel { links_cnt: (t.links_cnt + 1) as u32, ..t },
                        );
                        Step {
                            res: match w.res {
                                Ok(_) => Ok(id),
                                Err(e) => Err(e),
                            },
                            disk: w.disk,
                            sb: w.sb,
                        }
                    },
                }
            },
        },
    }
}

/// A target path in the buffer of a symbolic link: the bytes, then zeros.
pub open spec fn padded(target: Seq<u8>) -> Seq<u8> {
    Seq::new(MAX_PATH_LEN as nat, |i: int| if i < target.len() { target[i] } else { 0u8 })
}

/// What `symlink` does: an inode of a symbolic link is allocated with the
/// target in its path buffer, entered under the last component of
/// `link_path`, and written with one link.
#[verifier::opaque]
pub open spec fn spec_symlink(
    disk: Seq<Seq<u8>>,
    sb: SuperBlock,
    target: Seq<u8>,
    link_path: Seq<u8>,
) -> Step<u32> {
    if target.len() > MAX_PATH_LEN {
        Step { res: Err(FsError::PathTooLong), disk, sb }
    } else {
        match spec_parent(disk, sb, link_path) {
            Err(e) => Step { res: Err(e), disk, sb },
            Ok((p, name)) => if name.len() == 0 || name.len() > MAX_FILE_NAME_LEN {
                Step { res: Err(FsError::InvalidFileName), disk, sb }
            } else {
                match crate::directory::spec_dir_scan(disk, sb, p, name, false, 0) {
                    Err(e) => Step { res: Err(e), disk, sb },
                    Ok(Some(_)) => Step { res: Err(FsError::AlreadyExists), disk, sb },
                    Ok(None) => {
                        let a = crate::inode::spec_alloc_inode(
                            disk,
                            sb,
                            FileType::Symlink,
                            Mode::Read,
                        );
                        match a.res {
                            Err(e) => Step { res: Err(e), disk: a.disk, sb: a.sb },
                            Ok(n0) => {
                                let s = crate::directory::spec_dir_add_entry(
                                    a.disk,
                                    a.sb,
                                    p,
                                    EntryModel::named(n0.id, name),
                                );
                                match s.res {
                                    Err(e) => Step { res: Err(e), disk: s.disk, sb: s.sb },
                                    Ok(_) => {
                                        let w = crate::inode::spec_write_inode(
                                            s.disk,
                                            s.sb,
                                            InodeModel {
                                                links_cnt: 1,
                                                payload: crate::structs::PayloadModel::Path(
                                                    padded(target),
                                                ),
                                                ..n0
                                            },
                                        );
                                        Step {
                                            res: match w.res {
                                                Ok(_) => Ok(n0.id),
                                                Err(e) => Err(e),
                                            },
                                            disk: w.disk,
                                            sb: w.sb,
                                        }
                                    },
                                }
                            },
                        }
                    },
                }
            },
        }
    }
}

/// What `read_link` reads: the path buffer of the symbolic link that the
/// path names; the link itself, not what it points to.
#[verifier::opaque]
pub open spec fn spec_read_link(disk: Seq<Seq<u8>>, sb: SuperBlock, path: Seq<u8>) -> Result<
    Seq<u8>,
    FsError,
> {
    match spec_find(disk, sb, path, true) {
        Err(e) => Err(e),
        Ok((_, m)) => match m.path() {
            None => Err(FsError::NotSymlink),
            Some(p) => Ok(p),
        },
    }
}

/// Zeroes the blocks from 1 up to `end`.
fn zero_blocks<D: BlockDevice>(device: &mut D, end: u32) -> (r: Result<(), FsError>)
    requires
        1 <= end <= old(device)@.len(),
    ensures
        final(device).reliable() == old(device).reliable(),
        final(device)@.len() == old(device)@.len(),
        old(device).reliable() ==> r is Ok,
        r is Ok ==> final(device)@ == zeroed_upto(old(device)@, end as int),
{
    let zero_block = [0u8;BLOCK_SIZE];
    assert(zero_block@ =~= crate::codec::zeros(BLOCK_SIZE as nat));
    let mut i: u32 = 1;
    assert(device@ =~= zeroed_upto(old(device)@, 1));
    while i < end
        invariant
            1 <= i <= end <= device@.len(),
            zero_block@ == crate::codec::zeros(BLOCK_SIZE as nat),
            device.reliable() == old(device).reliable(),
            device@.len() == old(device)@.len(),
            device@ == zeroed_upto(old(device)@, i as int),
        decreases end - i,
    {
        match device.write_block(i, &zero_block) {
            Ok(()) => {},
            Err(e) => {
                return Err(e);
            },
        }
        i += 1;
        assert(device@ =~= zeroed_upto(old(device)@, i as int));
    }
    Ok(())
}

/// A disk whose bitmaps are zeroed is formatted for the superblock of its
/// layout.
pub proof fn lemma_zeroed_formatted(disk: Seq<Seq<u8>>, sb: SuperBlock)
    requires
        sb.wf(),
        sb == SuperBlock::layout(sb.num_blocks, sb.num_inodes),
        sb.num_blocks <= disk.len(),
        crate::block_dev::blocks_sized(disk),
    ensures
        formatted(zeroed(disk, sb), sb),
{
    reveal(crate::bitmap::counts_ok);
    crate::bitmap::lemma_layout(sb);
    let d = zeroed(disk, sb);
    crate::bitmap::lemma_count_zero(d, sb.inode_bitmap_start as int, sb.num_inodes as nat);
    crate::bitmap::lemma_count_zero(d, sb.data_bitmap_start as int, sb.data_blocks() as nat);
}

/// Finds the directory that will hold the last component of `path`, and
/// that component.
fn locate_parent<D: BlockDevice>(device: &mut D, superblock: &SuperBlock, path: &[u8]) -> (r: Result<
    (Inode, Vec<u8>),
    FsError,
>)
    requires
        crate::superblock::mounted(old(device)@, *superblock),
    ensures
        final(device)@ == old(device)@,
        final(device).reliable() == old(device).reliable(),
        old(device).reliable() || r is Ok ==> (match r {
            Ok((p, name)) => spec_parent(old(device)@, *superblock, path@) == Ok::<
                (InodeModel, Seq<u8>),
                FsError,
            >((p@, name@)),
            Err(e) => spec_parent(old(device)@, *superblock, path@) == Err::<
                (InodeModel, Seq<u8>),
                FsError,
            >(e),
        }),
        r matches Ok((p, name)) ==> p@.wf() && p.ftype == FileType::Directory,
{
    let (parent_path, file_name) = match split_bytes(path) {
        Ok(parts) => parts,
        Err(e) => {
            return Err(e);
        },
    };
    let (_, parent_inode_id) = match resolve_bytes(
        device,
        superblock,
        parent_path.as_slice(),
        false,
    ) {
        Ok(ids) => ids,
        Err(e) => {
            return Err(e);
        },
    };
    let parent_inode = match get_inode(device, superblock, parent_inode_id) {
        Ok(inode) => inode,
        Err(e) => {
            return Err(e);
        },
    };
    if parent_inode.ftype != FileType::Directory {
        return Err(FsError::NotDirectory);
    }
    Ok((parent_inode, file_name))
}

/// Finds the inode that a path names and reads its record.
fn find<D: BlockDevice>(device: &mut D, superblock: &SuperBlock, path: &[u8], keep_last: bool) -> (r:
    Result<(u32, Inode), FsError>)
    requires
        crate::superblock::mounted(old(device)@, *superblock),
    ensures
        final(device)@ == old(device)@,
        final(device).reliable() == old(device).reliable(),
        old(device).reliable() || r is Ok ==> (match r {
            Ok((id, m)) => spec_find(old(device)@, *superblock, path@, keep_last) == Ok::<
                (u32, InodeModel),
                FsError,
            >((id, m@)),
            Err(e) => spec_find(old(device)@, *superblock, path@, keep_last) == Err::<
                (u32, InodeModel),
                FsError,
            >(e),
        }),
        r matches Ok((id, m)) ==> m@.wf(),
{
    let (_, inode_id) = match resolve_bytes(device, superblock, path, keep_last) {
        Ok(ids) => ids,
        Err(e) => {
            return Err(e);
        },
    };
    match get_inode(device, superblock, inode_id) {
        Ok(inode) => Ok((inode_id, inode)),
        Err(e) => Err(e),
    }
}

/// Creates a regular file named `file_name` in the directory `parent_inode`.
fn creat_regular<D: BlockDevice>(
    device: &mut D,
    superblock: &mut SuperBlock,
    parent_inode: &mut Inode,
    file_name: &[u8],
    mode: Mode,
) -> (r: Result<u32, FsError>)
    requires
        formatted(old(device)@, *old(superblock)),
    ensures
        final(device).reliable() == old(device).reliable(),
        final(device)@.len() == old(device)@.len(),
        formatted(final(device)@, *final(superblock)),
        crate::superblock::same_geometry(*final(superblock), *old(superblock)),
        old(device).reliable() || r is Ok ==> (Step {
            res: r,
            disk: final(device)@,
            sb: *final(superblock),
        }) == spec_creat_regular(
            old(device)@,
            *old(superblock),
            old(parent_inode)@,
            file_name@,
            mode,
        ),
{
    if file_name.len() == 0 || file_name.len() > MAX_FILE_NAME_LEN {
        return Err(FsError::InvalidFileName);
    }
    let mut buf = [0u8;BLOCK_SIZE];
    match dir_scan(device, superblock, parent_inode, file_name, false, &mut buf) {
        Ok(Some(_)) => {
            return Err(FsError::AlreadyExists);
        },
        Ok(None) => {},
        Err(e) => {
            return Err(e);
        },
    }
    let mut new_inode = match alloc_inode(device, superblock, FileType::Regular, mode) {
        Ok(inode) => inode,
        Err(e) => {
            return Err(e);
        },
    };
    let entry = match DirEntry::new(new_inode.id, file_name) {
        Ok(e) => e,
        Err(e) => {
            return Err(e);
        },
    };
    match dir_add_entry(device, superblock, parent_inode, &entry) {
        Ok(()) => {},
        Err(e) => {
            return Err(e);
        },
    }
    new_inode.links_cnt = 1;
    match write_inode(device, superblock, parent_inode) {
        Ok(()) => {},
        Err(e) => {
            return Err(e);
        },
    }
    match write_inode(device, superblock, &new_inode) {
        Ok(()) => Ok(new_inode.id),
        Err(e) => Err(e),
    }
}

/// Takes the entry `file_name` of the inode `file_inode` from the directory
/// `parent_inode`, and frees the inode when no link is left.
fn unlink<D: BlockDevice>(
    device: &mut D,
    superblock: &mut SuperBlock,
    parent_inode: &mut Inode,
    file_name: &[u8],
    file_inode: Inode,
    ftype: FileType,
) -> (r: Result<(), FsError>)
    requires
        formatted(old(device)@, *old(superblock)),
    ensures
        final(device).reliable() == old(device).reliable(),
        final(device)@.len() == old(device)@.len(),
        formatted(final(device)@, *final(superblock)),
        crate::superblock::same_geometry(*final(superblock), *old(superblock)),
        old(device).reliable() || r is Ok ==> (Step {
            res: crate::superblock::done(r),
            disk: final(device)@,
            sb: *final(superblock),
        }) == spec_unlink(
            old(device)@,
            *old(superblock),
            old(parent_inode)@,
            file_name@,
            file_inode@,
            ftype,
        ),
{
    let mut file_inode = file_inode;
    let is_dir = match ftype {
        FileType::Directory => true,
        _ => false,
    };
    match ftype {
        FileType::Special => {
            return Err(FsError::InvalidArgument);
        },
        _ => {},
    }
    if file_inode.ftype != ftype {
        return Err(FsError::InvalidArgument);
    }
    if is_dir {
        if file_inode.size / 64 < 2 {
            return Err(FsError::InvalidArgument);
        }
        match dir_is_empty(device, superblock, &file_inode) {
            Ok(true) => {},
            Ok(false) => {
                return Err(FsError::DirNotEmpty);
            },
            Err(e) => {
                return Err(e);
            },
        }
    }
    let taken: u32 = if is_dir {
        2
    } else {
        1
    };
    if file_inode.links_cnt < taken || (is_dir && parent_inode.links_cnt < 1) {
        return Err(FsError::InvalidArgument);
    }
    let ghost links = parent_inode.links_cnt;
    match dir_rm_entry(device, superblock, parent_inode, file_name) {
        Ok(_) => {},
        Err(e) => {
            return Err(e);
        },
    }
    // Free the inode if hard links count reaches 0.
    file_inode.links_cnt -= taken;
    if is_dir {
        // ..
        parent_inode.links_cnt -= 1;
        match write_inode(device, superblock, parent_inode) {
            Ok(()) => {},
            Err(e) => {
                return Err(e);
            },
        }
    }
    if file_inode.links_cnt == 0 {
        match free_inode(device, superblock, file_inode.id) {
            Ok(_) => Ok(()),
            Err(e) => Err(e),
        }
    } else {
        write_inode(device, superblock, &file_inode)
    }
}

impl<D: BlockDevice> FileSystem<D> {
    /// The blocks of the device.
    pub closed spec fn disk(&self) -> Seq<Seq<u8>> {
        self.device@
    }

    /// The superblock in memory.
    pub closed spec fn sb(&self) -> SuperBlock {
        self.superblock
    }

    /// Whether the device is reliable.
    pub closed spec fn reliable(&self) -> bool {
        self.device.reliable()
    }

    /// Whether the device holds nothing that is still to be written.
    pub closed spec fn flushed(&self) -> bool {
        self.device.flushed()
    }

    /// The invariant of a file system: the device holds what the superblock
    /// describes, and the free counts of the superblock are the numbers of
    /// cleared bits in the two bitmaps.
    pub open spec fn inv(&self) -> bool {
        formatted(self.disk(), self.sb())
    }

    /// Whether the file system is sound: every block that an inode in use
    /// points to is marked as used, and every block marked as used is
    /// pointed to once; the inode table is tidy; and every directory in use
    /// has a size that counts its entries, no two entries of one name, `.`
    /// for itself and `..`.
    pub open spec fn sound(&self) -> bool {
        crate::fs_laws::sound(self.disk(), self.sb())
    }

    /// Whether `next` is the same file system as `self` after a step: on
    /// the same kind of device, with the same layout.
    pub open spec fn follows(&self, next: &Self) -> bool {
        &&& next.reliable() == self.reliable()
        &&& next.disk().len() == self.disk().len()
        &&& crate::superblock::same_geometry(next.sb(), self.sb())
        &&& next.inv()
    }

    /// Formats the filesystem on the given block device.
    /// Initializes the superblock and zeroes out the metadata blocks.
    /// Returns a new `FileSystem` instance.
    pub fn format(device: D, num_blocks: u32, num_inodes: u32) -> (r: Result<Self, FsError>)
        ensures
            device.reliable() || r is Ok ==> (match r {
                Ok(fs) => spec_format(device@, num_blocks, num_inodes) == Ok::<
                    (Seq<Seq<u8>>, SuperBlock),
                    FsError,
                >((fs.disk(), fs.sb())),
                Err(e) => spec_format(device@, num_blocks, num_inodes) == Err::<
                    (Seq<Seq<u8>>, SuperBlock),
                    FsError,
                >(e),
            }),
            r matches Ok(fs) ==> fs.inv() && fs.sound() && fs.reliable() == device.reliable()
                && fs.disk().len() == device@.len() && fs.sb().num_blocks == num_blocks
                && fs.sb().num_inodes == num_inodes,
    {
        proof {
            reveal(spec_format);
            device.lemma_blocks_sized();
        }
        let ghost disk0 = device@;
        let mut device = device;
        let mut superblock = match SuperBlock::new(num_blocks, num_inodes) {
            Ok(sb) => sb,
            Err(e) => {
                return Err(e);
            },
        };
        if num_blocks as usize > device.num_blocks() {
            return Err(FsError::InvalidBlockId);
        }
        proof {
            device.lemma_blocks_sized();
            crate::bitmap::lemma_layout(superblock);
        }
        // Zero out metadata blocks
        // No need to zero out data blocks, as they will be zeroed on allcations.
        match zero_blocks(&mut device, superblock.data_start) {
            Ok(()) => {},
            Err(e) => {
                return Err(e);
            },
        }
        proof {
            lemma_zeroed_formatted(disk0, superblock);
        }
        // Inode 0 is never used
        match alloc_inode(&mut device, &mut superblock, FileType::Special, Mode::NoAccess) {
            Ok(_) => {},
            Err(e) => {
                return Err(e);
            },
        }
        // Initialize root inode
        let mut root_inode = match alloc_inode(
            &mut device,
            &mut superblock,
            FileType::Directory,
            Mode::RW,
        ) {
            Ok(inode) => inode,
            Err(e) => {
                return Err(e);
            },
        };
        // On formating, root inode has no parent (or itself), so we have to set '.' and '..' entries manually.
        let d1 = [46u8];
        let d2 = [46u8, 46u8];
        assert(d1@ =~= crate::directory::dot());
        assert(d2@ =~= crate::directory::dotdot());
        let dot_entry = match DirEntry::new(ROOT_INODE_ID, &d1) {
            Ok(e) => e,
            Err(e) => {
                return Err(e);
            },
        };
        let dotdot_entry = match DirEntry::new(ROOT_INODE_ID, &d2) {
            Ok(e) => e,
            Err(e) => {
                return Err(e);
            },
        };
        match dir_add_entry(&mut device, &mut superblock, &mut root_inode, &dot_entry) {
            Ok(()) => {},
            Err(e) => {
                return Err(e);
            },
        }
        match dir_add_entry(&mut device, &mut superblock, &mut root_inode, &dotdot_entry) {
            Ok(()) => {},
            Err(e) => {
                return Err(e);
            },
        }
        // '.' and '..' entries
        root_inode.links_cnt = 2;
        // Write root inode to inode table
        match write_inode(&mut device, &superblock, &root_inode) {
            Ok(()) => {},
            Err(e) => {
                return Err(e);
            },
        }
        let ghost d3 = device@;
        match write_superblock(&mut device, &superblock) {
            Ok(()) => {},
            Err(e) => {
                return Err(e);
            },
        }
        proof {
            device.lemma_blocks_sized();
            crate::bitmap::lemma_formatted_counts(d3, device@, superblock);
            crate::fs_laws::lemma_format_sound(disk0, num_blocks, num_inodes);
        }
        Ok(FileSystem { device, superblock })
    }

    /// Mounts the filesystem from the given block device.
    /// Reads the superblock, validates it and initializes the filesystem instance.
    pub fn mount(device: D) -> (r: Result<Self, FsError>)
        ensures
            device.reliable() || r is Ok ==> (match r {
                Ok(fs) => spec_mount(device@) == Ok::<SuperBlock, FsError>(fs.sb()),
                Err(e) => spec_mount(device@) == Err::<SuperBlock, FsError>(e),
            }),
            r matches Ok(fs) ==> fs.inv() && fs.disk() == device@ && fs.reliable()
                == device.reliable(),
    {
        let mut device = device;
        let superblock = match read_superblock(&mut device) {
            Ok(sb) => sb,
            Err(e) => {
                return Err(e);
            },
        };
        match check_counts(&mut device, &superblock) {
            Ok(true) => Ok(FileSystem { device, superblock }),
            Ok(false) => Err(FsError::InvalidSuperBlock),
            Err(e) => Err(e),
        }
    }

    /// Gives the device back and ends the file system.
    pub fn into_device(self) -> (device: D)
        ensures
            device@ == self.disk(),
            device.reliable() == self.reliable(),
            device.flushed() == self.flushed(),
    {
        self.device
    }

    /// Flushes the device: after a flush that succeeded the device holds
    /// nothing that is still to be written. What the file system holds
    /// stays as it is.
    pub fn flush(&mut self) -> (r: Result<(), FsError>)
        requires
            old(self).inv(),
        ensures
            old(self).follows(final(self)),
            final(self).disk() == old(self).disk(),
            final(self).sb() == old(self).sb(),
            old(self).reliable() ==> r is Ok,
            r is Ok ==> final(self).flushed(),
    {
        self.device.flush()
    }

    /// Reads the record of an inode from the inode table.
    pub fn get_inode(&mut self, inode_id: u32) -> (r: Result<Inode, FsError>)
        requires
            old(self).inv(),
        ensures
            old(self).follows(final(self)),
            final(self).disk() == old(self).disk(),
            final(self).sb() == old(self).sb(),
            old(self).reliable() || r is Ok ==> crate::inode::inode_view(r)
                == crate::inode::spec_get_inode(old(self).disk(), old(self).sb(), inode_id),
    {
        get_inode(&mut self.device, &self.superblock, inode_id)
    }

    /// Unmounts the filesystem, writing the superblock back to the device.
    /// This should be called before the device is closed to ensure all metadata is saved.
    pub fn unmount(&mut self) -> (r: Result<(), FsError>)
        requires
            old(self).inv(),
        ensures
            old(self).follows(final(self)),
            final(self).sb() == old(self).sb(),
            old(self).reliable() ==> r is Ok,
            r is Ok ==> final(self).disk() == old(self).disk().update(
                0,
                crate::layout::encode_sb(old(self).sb()),
            ),
            r is Ok ==> final(self).flushed(),
            r is Ok && old(self).sound() ==> final(self).sound(),
    {
        let ghost d0 = self.device@;
        proof {
            if old(self).sound() {
                crate::fs_laws::lemma_unmount_sound(old(self).disk(), old(self).sb());
            }
        }
        match write_superblock(&mut self.device, &self.superblock) {
            Ok(()) => {},
            Err(e) => {
                return Err(e);
            },
        }
        proof {
            self.device.lemma_blocks_sized();
            crate::bitmap::lemma_formatted_counts(d0, self.device@, self.superblock);
        }
        self.device.flush()
    }

    /// Query the inode ID for the given path.
    /// Returns the inode ID and its file type.
    pub fn lookup(&mut self, path: &str) -> (r: Result<(u32, FileType), FsError>)
        requires
            old(self).inv(),
        ensures
            old(self).follows(final(self)),
            final(self).disk() == old(self).disk(),
            final(self).sb() == old(self).sb(),
            old(self).reliable() || r is Ok ==> r == spec_lookup(
                old(self).disk(),
                old(self).sb(),
                vstd::utf8::encode_utf8(path@),
            ),
    {
        let (_, inode_id) = match resolve_bytes(
            &mut self.device,
            &self.superblock,
            path.as_bytes(),
            false,
        ) {
            Ok(ids) => ids,
            Err(e) => {
                return Err(e);
            },
        };
        match get_inode(&mut self.device, &self.superblock, inode_id) {
            Ok(inode) => Ok((inode_id, inode.ftype)),
            Err(e) => Err(e),
        }
    }

    /// Creates a regular file or a directory under the given path.
    /// Returns the inode ID of what was created.
    pub fn creat(&mut self, path: &str, file_type: FileType, mode: Mode) -> (r: Result<
        u32,
        FsError,
    >)
        requires
            old(self).inv(),
        ensures
            old(self).follows(final(self)),
            old(self).reliable() || r is Ok ==> (Step {
                res: r,
                disk: final(self).disk(),
                sb: final(self).sb(),
            }) == spec_creat(
                old(self).disk(),
                old(self).sb(),
                vstd::utf8::encode_utf8(path@),
                file_type,
                mode,
            ),
            r is Ok && old(self).sound() ==> final(self).sound(),
    {
        proof {
            reveal(spec_creat);
        }
        let (mut parent_inode, file_name) = match locate_parent(
            &mut self.device,
            &self.superblock,
            path.as_bytes(),
        ) {
            Ok(found) => found,
            Err(e) => {
                return Err(e);
            },
        };
        let r = match file_type {
            FileType::Regular => creat_regular(
                &mut self.device,
                &mut self.superblock,
                &mut parent_inode,
                file_name.as_slice(),
                mode,
            ),
            FileType::Directory => mkdir(
                &mut self.device,
                &mut self.superblock,
                &mut parent_inode,
                file_name.as_slice(),
            ),
            _ => Err(FsError::InvalidArgument),
        };
        proof {
            if r is Ok && old(self).sound() {
                crate::fs_laws::lemma_creat_sound(
                    old(self).disk(),
                    old(self).sb(),
                    vstd::utf8::encode_utf8(path@),
                    file_type,
                    mode,
                );
            }
        }
        r
    }

    /// Removes the file of the given type that the path names.
    /// A directory must be empty. The inode is freed with its last link.
    pub fn remove(&mut self, path: &str, ftype: FileType) -> (r: Result<(), FsError>)
        requires
            old(self).inv(),
        ensures
            old(self).follows(final(self)),
            old(self).reliable() || r is Ok ==> (Step {
                res: crate::superblock::done(r),
                disk: final(self).disk(),
                sb: final(self).sb(),
            }) == spec_remove(
                old(self).disk(),
                old(self).sb(),
                vstd::utf8::encode_utf8(path@),
                ftype,
            ),
            r is Ok && old(self).sound() ==> final(self).sound(),
    {
        proof {
            reveal(spec_remove);
        }
        let (mut parent_inode, file_name) = match locate_parent(
            &mut self.device,
            &self.superblock,
            path.as_bytes(),
        ) {
            Ok(found) => found,
            Err(e) => {
                return Err(e);
            },
        };
        let keep_last = match ftype {
            FileType::Symlink => true,
            _ => false,
        };
        let (_, file_inode) = match find(
            &mut self.device,
            &self.superblock,
            path.as_bytes(),
            keep_last,
        ) {
            Ok(found) => found,
            Err(e) => {
                return Err(e);
            },
        };
        let r = unlink(
            &mut self.device,
            &mut self.superblock,
            &mut parent_inode,
            file_name.as_slice(),
            file_inode,
            ftype,
        );
        proof {
            if r is Ok && old(self).sound() {
                crate::fs_laws::lemma_remove_sound(
                    old(self).disk(),
                    old(self).sb(),
                    vstd::utf8::encode_utf8(path@),
                    ftype,
                );
            }
        }
        r
    }

    /// Lists the entries of the directory that the path names, in stored order.
    pub fn read_dir(&mut self, path: &str) -> (r: Result<Vec<DirEntry>, FsError>)
        requires
            old(self).inv(),
        ensures
            old(self).follows(final(self)),
            final(self).disk() == old(self).disk(),
            final(self).sb() == old(self).sb(),
            old(self).reliable() || r is Ok ==> (match r {
                Ok(v) => spec_fs_read_dir(
                    old(self).disk(),
                    old(self).sb(),
                    vstd::utf8::encode_utf8(path@),
                ) == Ok::<Seq<EntryModel>, FsError>(crate::directory::entry_views(v@)),
                Err(e) => spec_fs_read_dir(
                    old(self).disk(),
                    old(self).sb(),
                    vstd::utf8::encode_utf8(path@),
                ) == Err::<Seq<EntryModel>, FsError>(e),
            }),
    {
        proof {
            reveal(spec_fs_read_dir);
        }
        let (_, inode) = match find(&mut self.device, &self.superblock, path.as_bytes(), false) {
            Ok(found) => found,
            Err(e) => {
                return Err(e);
            },
        };
        read_dir(&mut self.device, &self.superblock, &inode)
    }

    /// Reads from the file that the path names into `buf`, from `offset` on.
    /// Returns the number of bytes read.
    pub fn fread(&mut self, path: &str, offset: usize, buf: &mut [u8]) -> (r: Result<
        usize,
        FsError,
    >)
        requires
            old(self).inv(),
        ensures
            old(self).follows(final(self)),
            final(self).disk() == old(self).disk(),
            final(self).sb() == old(self).sb(),
            final(buf)@.len() == old(buf)@.len(),
            old(self).reliable() || r is Ok ==> (match r {
                Ok(k) => k <= old(buf)@.len() && spec_fs_fread(
                    old(self).disk(),
                    old(self).sb(),
                    vstd::utf8::encode_utf8(path@),
                    offset as int,
                    old(buf)@.len() as int,
                ) == Ok::<Seq<u8>, FsError>(final(buf)@.take(k as int)) && final(buf)@.skip(
                    k as int,
                ) == old(buf)@.skip(k as int),
                Err(e) => spec_fs_fread(
                    old(self).disk(),
                    old(self).sb(),
                    vstd::utf8::encode_utf8(path@),
                    offset as int,
                    old(buf)@.len() as int,
                ) == Err::<Seq<u8>, FsError>(e),
            }),
    {
        proof {
            reveal(spec_fs_fread);
        }
        let (_, inode) = match find(&mut self.device, &self.superblock, path.as_bytes(), false) {
            Ok(found) => found,
            Err(e) => {
                return Err(e);
            },
        };
        if !inode.mode.can_read() {
            return Err(FsError::PermissionDenied);
        }
        fread(&mut self.device, &self.superblock, &inode, offset, buf)
    }

    /// Writes `buf` to the file that the path names, from `offset` on.
    /// Returns the number of bytes written.
    pub fn fwrite(&mut self, path: &str, offset: usize, buf: &[u8]) -> (r: Result<usize, FsError>)
        requires
            old(self).inv(),
        ensures
            old(self).follows(final(self)),
            old(self).reliable() || r is Ok ==> (Step {
                res: r,
                disk: final(self).disk(),
                sb: final(self).sb(),
            }) == spec_fs_fwrite(
                old(self).disk(),
                old(self).sb(),
                vstd::utf8::encode_utf8(path@),
                offset as int,
                buf@,
            ),
            r is Ok && old(self).sound() ==> final(self).sound(),
    {
        proof {
            reveal(spec_fs_fwrite);
        }
        let (_, mut inode) = match find(
            &mut self.device,
            &self.superblock,
            path.as_bytes(),
            false,
        ) {
            Ok(found) => found,
            Err(e) => {
                return Err(e);
            },
        };
        if !inode.mode.can_write() {
            return Err(FsError::PermissionDenied);
        }
        let r = fwrite(&mut self.device, &mut self.superblock, &mut inode, offset, buf);
        proof {
            if r is Ok && old(self).sound() {
                crate::fs_laws::lemma_fwrite_sound(
                    old(self).disk(),
                    old(self).sb(),
                    vstd::utf8::encode_utf8(path@),
                    offset as int,
                    buf@,
                );
            }
        }
        r
    }

    /// Creates a hard link to the target file with the given link name.
    /// The link target must be a regular file.
    /// The link name must not already exist in the target's parent directory.
    /// The link name must be an absolute path.
    /// Returns the inode ID of the linked file.
    pub fn link(&mut self, target: &str, link_name: &str) -> (r: Result<u32, FsError>)
        requires
            old(self).inv(),
        ensures
            old(self).follows(final(self)),
            old(self).reliable() || r is Ok ==> (Step {
                res: r,
                disk: final(self).disk(),
                sb: final(self).sb(),
            }) == spec_link(
                old(self).disk(),
                old(self).sb(),
                vstd::utf8::encode_utf8(target@),
                vstd::utf8::encode_utf8(link_name@),
            ),
            r is Ok && old(self).sound() ==> final(self).sound(),
    {
        proof {
            reveal(spec_link);
        }
        let (mut parent_inode, file_name) = match locate_parent(
            &mut self.device,
            &self.superblock,
            link_name.as_bytes(),
        ) {
            Ok(found) => found,
            Err(e) => {
                return Err(e);
            },
        };
        let (target_inode_id, mut target_inode) = match find(
            &mut self.device,
            &self.superblock,
            target.as_bytes(),
            false,
        ) {
            Ok(found) => found,
            Err(e) => {
                return Err(e);
            },
        };
        if target_inode.ftype != FileType::Regular {
            return Err(FsError::NotRegular);
        }
        if target_inode.links_cnt == u32::MAX {
            return Err(FsError::OutOfBounds);
        }
        let entry = match DirEntry::new(target_inode_id, file_name.as_slice()) {
            Ok(e) => e,
            Err(e) => {
                return Err(e);
            },
        };
        match dir_add_entry(&mut self.device, &mut self.superblock, &mut parent_inode, &entry) {
            Ok(()) => {},
            Err(e) => {
                return Err(e);
            },
        }
        target_inode.links_cnt += 1;
        let r = match write_inode(&mut self.device, &self.superblock, &target_inode) {
            Ok(()) => Ok(target_inode_id),
            Err(e) => Err(e),
        };
        proof {
            if r is Ok && old(self).sound() {
                crate::fs_laws::lemma_link_sound(
                    old(self).disk(),
                    old(self).sb(),
                    vstd::utf8::encode_utf8(target@),
                    vstd::utf8::encode_utf8(link_name@),
                );
            }
        }
        r
    }

    /// Creates a symbolic link to the target file with the given link name.
    /// Returns the inode ID of the symlink.
    pub fn symlink(&mut self, target: &str, link_name: &str) -> (r: Result<u32, FsError>)
        requires
            old(self).inv(),
        ensures
            old(self).follows(final(self)),
            old(self).reliable() || r is Ok ==> (Step {
                res: r,
                disk: final(self).disk(),
                sb: final(self).sb(),
            }) == spec_symlink(
                old(self).disk(),
                old(self).sb(),
                vstd::utf8::encode_utf8(target@),
                vstd::utf8::encode_utf8(link_name@),
            ),
            r is Ok && old(self).sound() ==> final(self).sound(),
    {
        proof {
            reveal(spec_symlink);
        }
        let target_bytes = target.as_bytes();
        if target_bytes.len() > MAX_PATH_LEN {
            return Err(FsError::PathTooLong);
        }
        let (mut parent_inode, file_name) = match locate_parent(
            &mut self.device,
            &self.superblock,
            link_name.as_bytes(),
        ) {
            Ok(found) => found,
            Err(e) => {
                return Err(e);
            },
        };
        if file_name.len() == 0 || file_name.len() > MAX_FILE_NAME_LEN {
            return Err(FsError::InvalidFileName);
        }
        let mut buf = [0u8;BLOCK_SIZE];
        match dir_scan(
            &mut self.device,
            &self.superblock,
            &parent_inode,
            file_name.as_slice(),
            false,
            &mut buf,
        ) {
            Ok(Some(_)) => {
                return Err(FsError::AlreadyExists);
            },
            Ok(None) => {},
            Err(e) => {
                return Err(e);
            },
        }
        let mut new_inode = match alloc_inode(
            &mut self.device,
            &mut self.superblock,
            FileType::Symlink,
            Mode::Read,
        ) {
            Ok(inode) => inode,
            Err(e) => {
                return Err(e);
            },
        };
        let mut path_buf = [0u8;MAX_PATH_LEN];
        copy_into(&mut path_buf, 0, target_bytes);
        assert(path_buf@ =~= padded(target_bytes@));
        new_inode.inode_ptr = InodePtr::Path(path_buf);
        let entry = match DirEntry::new(new_inode.id, file_name.as_slice()) {
            Ok(e) => e,
            Err(e) => {
                return Err(e);
            },
        };
        match dir_add_entry(&mut self.device, &mut self.superblock, &mut parent_inode, &entry) {
            Ok(()) => {},
            Err(e) => {
                return Err(e);
            },
        }
        // symlink itself
        new_inode.links_cnt = 1;
        let r = match write_inode(&mut self.device, &self.superblock, &new_inode) {
            Ok(()) => Ok(new_inode.id),
            Err(e) => Err(e),
        };
        proof {
            if r is Ok && old(self).sound() {
                crate::fs_laws::lemma_symlink_sound(
                    old(self).disk(),
                    old(self).sb(),
                    vstd::utf8::encode_utf8(target@),
                    vstd::utf8::encode_utf8(link_name@),
                );
            }
        }
        r
    }

    /// Reads the target of a symbolic link.
    /// Fills the buffer with the target path, padded with zeros.
    pub fn read_link(&mut self, link_name: &str, buf: &mut [u8; MAX_PATH_LEN]) -> (r: Result<
        (),
        FsError,
    >)
        requires
            old(self).inv(),
        ensures
            old(self).follows(final(self)),
            final(self).disk() == old(self).disk(),
            final(self).sb() == old(self).sb(),
            r is Err ==> final(buf)@ == old(buf)@,
            old(self).reliable() || r is Ok ==> (match r {
                Ok(_) => spec_read_link(
                    old(self).disk(),
                    old(self).sb(),
                    vstd::utf8::encode_utf8(link_name@),
                ) == Ok::<Seq<u8>, FsError>(final(buf)@),
                Err(e) => spec_read_link(
                    old(self).disk(),
                    old(self).sb(),
                    vstd::utf8::encode_utf8(link_name@),
                ) == Err::<Seq<u8>, FsError>(e),
            }),
    {
        proof {
            reveal(spec_read_link);
        }
        let (_, inode) = match find(
            &mut self.device,
            &self.superblock,
            link_name.as_bytes(),
            true,
        ) {
            Ok(found) => found,
            Err(e) => {
                return Err(e);
            },
        };
        let path_buf = match inode.get_path() {
            Ok(p) => p,
            Err(e) => {
                return Err(e);
            },
        };
        *buf = *path_buf;
        Ok(())
    }

    /// The inode ID of the root directory.
    pub fn root_inode_id(&self) -> (id: u32)
        ensures
            id == ROOT_INODE_ID,
    {
        ROOT_INODE_ID
    }

    /// The superblock in memory.
    pub fn superblock(&self) -> (sb: &SuperBlock)
        ensures
            *sb == self.sb(),
    {
        &self.superblock
    }

    /// The device that holds the file system.
    pub fn device(&self) -> (device: &D)
        ensures
            device@ == self.disk(),
            device.reliable() == self.reliable(),
            device.flushed() == self.flushed(),
    {
        &self.device
    }

    /// The superblock as text, to look at.
    #[verifier::external_body]
    pub fn dump(&self) -> (text: String) {
        format!("{:?}", self.superblock)
    }
}

/// The free counts of a file system are the numbers of cleared bits in its
/// bitmaps: the set bits of the inode bitmap are as many as the inodes that
/// are not free, and the set bits of the data bitmap as many as the data
/// blocks that are not free. Every operation of a file system keeps its
/// invariant, so this holds after any sequence of them.
pub proof fn lemma_free_counts<D: BlockDevice>(fs: &FileSystem<D>)
    requires
        fs.inv(),
    ensures
        crate::bitmap::count_set(
            fs.disk(),
            fs.sb().inode_bitmap_start as int,
            fs.sb().num_inodes as nat,
        ) == fs.sb().num_inodes - fs.sb().free_inodes,
        crate::bitmap::count_set(
            fs.disk(),
            fs.sb().data_bitmap_start as int,
            fs.sb().data_blocks() as nat,
        ) == fs.sb().data_blocks() - fs.sb().free_blocks,
{
    reveal(crate::bitmap::counts_ok);
}

/// Unmounting and mounting again changes nothing: on the disk that
/// `unmount` leaves, `mount` finds the superblock that was in memory, and
/// every read gives what it gave before.
pub proof fn lemma_unmount_mount(
    disk: Seq<Seq<u8>>,
    sb: SuperBlock,
    path: Seq<u8>,
    offset: int,
    len: int,
)
    requires
        formatted(disk, sb),
        0 <= offset,
    ensures
        ({
            let after = disk.update(0, crate::layout::encode_sb(sb));
            &&& spec_mount(after) == Ok::<SuperBlock, FsError>(sb)
            &&& formatted(after, sb)
            &&& spec_lookup(after, sb, path) == spec_lookup(disk, sb, path)
            &&& spec_fs_read_dir(after, sb, path) == spec_fs_read_dir(disk, sb, path)
            &&& spec_fs_fread(after, sb, path, offset, len) == spec_fs_fread(
                disk,
                sb,
                path,
                offset,
                len,
            )
            &&& spec_read_link(after, sb, path) == spec_read_link(disk, sb, path)
        }),
{
    let after = disk.update(0, crate::layout::encode_sb(sb));
    crate::layout::lemma_sb_roundtrip(sb);
    crate::bitmap::lemma_layout(sb);
    crate::bitmap::lemma_formatted_update(disk, sb, 0, crate::layout::encode_sb(sb));
    crate::frame::lemma_same_reads(after, disk, sb, path, offset, len);
}

} // verus!
