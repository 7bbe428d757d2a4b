//! Management of reading and writing to inodes in inode table, and the block
//! map of a file.

use vstd::prelude::*;
use crate::bitmap::{alloc_data_block, alloc_inode_id, free_data_block, free_inode_id, formatted};
use crate::block_dev::BlockDevice;
use crate::codec::{copy_into, read_u32, write_u32};
use crate::config::{BLOCK_SIZE, INODES_PER_BLOCK, INODE_SIZE, NUM_DIRECT_PTRS, PTRS_PER_BLOCK};
use crate::error::FsError;
use crate::layout::{inode_from_bytes, inode_to_bytes};
use crate::structs::{BlockPtr, FileType, Inode, InodeModel, InodePtr, Mode, SuperBlock};
use crate::superblock::{mounted, Step};

verus! {

/// A disk after one step that works on an inode held in memory: what the
/// step gave, the blocks of the device, the superblock and the inode.
pub struct InodeStep<T> {
    pub res: Result<T, FsError>,
    pub disk: Seq<Seq<u8>>,
    pub sb: SuperBlock,
    pub inode: InodeModel,
}

/// Whether two inodes are the same file in the same state of linkage: they
/// differ in their size, their block count and their block pointers at most.
pub open spec fn same_identity(a: InodeModel, b: InodeModel) -> bool {
    &&& a.id == b.id
    &&& a.ftype == b.ftype
    &&& a.mode == b.mode
    &&& a.links_cnt == b.links_cnt
    &&& a.block_ptrs() is Some <==> b.block_ptrs() is Some
}

/// The block of the inode table that holds inode `id`.
pub open spec fn inode_block(sb: SuperBlock, id: u32) -> int {
    sb.inode_table_start + id / 4
}

/// Where the record of inode `id` starts in its block.
pub open spec fn inode_offset(id: u32) -> int {
    (id % 4) * 128
}

/// The 128 bytes of the slot of inode `id`.
pub open spec fn inode_record(disk: Seq<Seq<u8>>, sb: SuperBlock, id: u32) -> Seq<u8> {
    disk[inode_block(sb, id)].subrange(inode_offset(id), inode_offset(id) + 128)
}

/// What `get_inode` returns: the inode that the slot holds.
#[verifier::opaque]
pub open spec fn spec_get_inode(disk: Seq<Seq<u8>>, sb: SuperBlock, id: u32) -> Result<
    InodeModel,
    FsError,
> {
    if id >= sb.num_inodes {
        Err(FsError::OutOfBounds)
    } else {
        match crate::layout::decode_inode(inode_record(disk, sb, id)) {
            Some(m) => Ok(m),
            None => Err(FsError::InvalidFileType),
        }
    }
}

/// What `write_inode` does: the slot of the inode holds its record, and the
/// rest of the block is as before.
#[verifier::opaque]
pub open spec fn spec_write_inode(disk: Seq<Seq<u8>>, sb: SuperBlock, m: InodeModel) -> Step<()> {
    if m.id >= sb.num_inodes {
        Step { res: Err(FsError::OutOfBounds), disk, sb }
    } else {
        let b = inode_block(sb, m.id);
        Step {
            res: Ok(()),
            disk: disk.update(
                b,
                crate::codec::splice(disk[b], inode_offset(m.id), crate::layout::encode_inode(m)),
            ),
            sb,
        }
    }
}

/// What `alloc_inode` does: the first free inode id is taken and a fresh
/// record written to its slot.
#[verifier::opaque]
pub open spec fn spec_alloc_inode(disk: Seq<Seq<u8>>, sb: SuperBlock, ftype: FileType, mode: Mode)
    -> Step<InodeModel> {
    let a = crate::bitmap::spec_alloc_inode_id(disk, sb);
    match a.res {
        Err(e) => Step { res: Err(e), disk: a.disk, sb: a.sb },
        Ok(id) => {
            let m = InodeModel::fresh(ftype, mode, id);
            let w = spec_write_inode(a.disk, a.sb, m);
            Step {
                res: match w.res {
                    Ok(_) => Ok(m),
                    Err(e) => Err(e),
                },
                disk: w.disk,
                sb: w.sb,
            }
        },
    }
}

/// The model of what a call returned.
pub open spec fn inode_view(r: Result<Inode, FsError>) -> Result<InodeModel, FsError> {
    match r {
        Ok(inode) => Ok(inode@),
        Err(e) => Err(e),
    }
}

/// An inode that was read from disk is well formed.
pub proof fn lemma_decode_wf(rec: Seq<u8>)
    requires
        rec.len() == INODE_SIZE,
    ensures
        crate::layout::decode_inode(rec) matches Some(m) ==> m.wf(),
{
}

/// The slot of an inode lies inside a block of the inode table.
pub proof fn lemma_inode_slot(sb: SuperBlock, id: u32)
    requires
        sb.wf(),
        id < sb.num_inodes,
    ensures
        sb.inode_table_start <= inode_block(sb, id) < sb.data_start,
        0 <= inode_offset(id) <= 384,
{
    crate::bitmap::lemma_layout(sb);
}

/// Query an inode by its ID.
pub fn get_inode<D: BlockDevice>(device: &mut D, superblock: &SuperBlock, inode_id: u32) -> (r:
    Result<Inode, FsError>)
    requires
        mounted(old(device)@, *superblock),
    ensures
        final(device)@ == old(device)@,
        final(device).reliable() == old(device).reliable(),
        old(device).reliable() || r is Ok ==> inode_view(r) == spec_get_inode(
            old(device)@,
            *superblock,
            inode_id,
        ),
        r matches Ok(inode) ==> inode@.wf(),
{
    proof {
        reveal(spec_get_inode);
    }
    if inode_id >= superblock.num_inodes {
        return Err(FsError::OutOfBounds);
    }
    proof {
        lemma_inode_slot(*superblock, inode_id);
    }
    let block_id = superblock.inode_table_start + inode_id / INODES_PER_BLOCK;
    let block_inner_offset = (inode_id % INODES_PER_BLOCK) as usize * INODE_SIZE;
    let mut buf = [0u8;BLOCK_SIZE];
    device.read_block(block_id, &mut buf)?;
    proof {
        lemma_decode_wf(inode_record(device@, *superblock, inode_id));
    }
    match inode_from_bytes(&buf, block_inner_offset) {
        Some(inode) => Ok(inode),
        None => Err(FsError::InvalidFileType),
    }
}

/// Write an inode to inode table.
/// The inode must be allocated by 'alloc_inode'.
/// This means user can only modify existing inodes, not create new ones with this function.
pub fn write_inode<D: BlockDevice>(device: &mut D, superblock: &SuperBlock, inode: &Inode) -> (r:
    Result<(), FsError>)
    requires
        mounted(old(device)@, *superblock),
    ensures
        final(device).reliable() == old(device).reliable(),
        final(device)@.len() == old(device)@.len(),
        mounted(final(device)@, *superblock),
        formatted(old(device)@, *superblock) ==> formatted(final(device)@, *superblock),
        forall|b: int|
            0 <= b < old(device)@.len() && !(superblock.inode_table_start <= b
                < superblock.data_start) ==> final(device)@[b] == old(device)@[b],
        r is Err ==> final(device)@ == old(device)@,
        old(device).reliable() || r is Ok ==> (Step {
            res: crate::superblock::done(r),
            disk: final(device)@,
            sb: *superblock,
        }) == spec_write_inode(old(device)@, *superblock, inode@),
{
    proof {
        reveal(spec_write_inode);
    }
    if inode.id >= superblock.num_inodes {
        return Err(FsError::OutOfBounds);
    }
    proof {
        lemma_inode_slot(*superblock, inode.id);
    }
    let block_id = superblock.inode_table_start + inode.id / INODES_PER_BLOCK;
    let block_inner_offset = (inode.id % INODES_PER_BLOCK) as usize * INODE_SIZE;
    let mut buf = [0u8;BLOCK_SIZE];
    device.read_block(block_id, &mut buf)?;
    let rec = inode_to_bytes(inode);
    copy_into(&mut buf, block_inner_offset, &rec);
    device.write_block(block_id, &buf)?;
    proof {
        device.lemma_blocks_sized();
        if formatted(old(device)@, *superblock) {
            crate::bitmap::lemma_formatted_update(
                old(device)@,
                *superblock,
                block_id as int,
                buf@,
            );
        }
    }
    Ok(())
}

/// Allocates an inode of the given type and mode and writes its fresh
/// record: no block, no link, no byte.
pub fn alloc_inode<D: BlockDevice>(
    device: &mut D,
    superblock: &mut SuperBlock,
    ftype: FileType,
    mode: Mode,
) -> (r: Result<Inode, FsError>)
    requires
        formatted(old(device)@, *old(superblock)),
    ensures
        crate::superblock::same_geometry(*final(superblock), *old(superblock)),
        r matches Ok(inode) ==> inode@ == InodeModel::fresh(ftype, mode, inode.id),
        final(device).reliable() == old(device).reliable(),
        final(device)@.len() == old(device)@.len(),
        formatted(final(device)@, *final(superblock)),
        old(device).reliable() || r is Ok ==> (Step {
            res: inode_view(r),
            disk: final(device)@,
            sb: *final(superblock),
        }) == spec_alloc_inode(old(device)@, *old(superblock), ftype, mode),
        r matches Ok(inode) ==> inode@.wf() && inode.id < final(superblock).num_inodes,
{
    proof {
        reveal(spec_alloc_inode);
    }
    let id = match alloc_inode_id(device, superblock) {
        Ok(id) => id,
        Err(e) => {
            return Err(e);
        },
    };
    // Superblock already updated by alloc_inode_id.
    let inode = Inode::new(ftype, mode, id);
    match write_inode(device, superblock, &inode) {
        Ok(()) => Ok(inode),
        Err(e) => Err(e),
    }
}

/// What freeing a list of blocks does, from position `k` of the list on: each
/// block is freed in turn, 0 names no block, and the first failure ends it.
pub open spec fn spec_free_blocks(disk: Seq<Seq<u8>>, sb: SuperBlock, ptrs: Seq<u32>, k: int)
    -> Step<()>
    decreases ptrs.len() - k,
{
    if k < 0 || k >= ptrs.len() {
        Step { res: Ok(()), disk, sb }
    } else if ptrs[k] == 0 {
        spec_free_blocks(disk, sb, ptrs, k + 1)
    } else {
        let f = crate::bitmap::spec_free_data_block(disk, sb, ptrs[k]);
        match f.res {
            Err(_) => f,
            Ok(_) => spec_free_blocks(f.disk, f.sb, ptrs, k + 1),
        }
    }
}

/// The direct pointers as they lie on disk.
pub open spec fn direct_codes(bp: crate::structs::BlockPtrModel) -> Seq<u32> {
    Seq::new(NUM_DIRECT_PTRS as nat, |i: int| crate::layout::ptr_code(bp.direct[i]))
}

/// The pointers that an indirect block holds.
pub open spec fn indirect_codes(block: Seq<u8>) -> Seq<u32> {
    Seq::new(PTRS_PER_BLOCK as nat, |i: int| crate::codec::get32(block, 4 * i))
}

/// What releasing the blocks of a file does: the direct blocks are freed,
/// then the blocks that the indirect block names, then the indirect block.
#[verifier::opaque]
pub open spec fn spec_release_blocks(
    disk: Seq<Seq<u8>>,
    sb: SuperBlock,
    bp: crate::structs::BlockPtrModel,
) -> Step<()> {
    let s1 = spec_free_blocks(disk, sb, direct_codes(bp), 0);
    match s1.res {
        Err(_) => s1,
        Ok(_) => match bp.indirect {
            None => s1,
            Some(ib) => if !s1.sb.is_data_block(ib) {
                Step { res: Err(FsError::OutOfBounds), disk: s1.disk, sb: s1.sb }
            } else {
                let s2 = spec_free_blocks(s1.disk, s1.sb, indirect_codes(s1.disk[ib as int]), 0);
                match s2.res {
                    Err(_) => s2,
                    Ok(_) => crate::bitmap::spec_free_data_block(s2.disk, s2.sb, ib),
                }
            },
        },
    }
}

/// What `free_inode` does: the blocks of the inode are released, its bit is
/// cleared, its slot holds a cleared record, and the inode that was there is
/// returned. A symbolic link has no blocks to release.
#[verifier::opaque]
pub open spec fn spec_free_inode(disk: Seq<Seq<u8>>, sb: SuperBlock, id: u32) -> Step<InodeModel> {
    match spec_get_inode(disk, sb, id) {
        Err(e) => Step { res: Err(e), disk, sb },
        Ok(m) => {
            let s1 = match m.block_ptrs() {
                Some(bp) => spec_release_blocks(disk, sb, bp),
                None => Step { res: Ok(()), disk, sb },
            };
            match s1.res {
                Err(e) => Step { res: Err(e), disk: s1.disk, sb: s1.sb },
                Ok(_) => {
                    let s2 = crate::bitmap::spec_free_inode_id(s1.disk, s1.sb, id);
                    match s2.res {
                        Err(e) => Step { res: Err(e), disk: s2.disk, sb: s2.sb },
                        Ok(_) => {
                            let s3 = spec_write_inode(s2.disk, s2.sb, InodeModel::cleared(id));
                            Step {
                                res: match s3.res {
                                    Ok(_) => Ok(m),
                                    Err(e) => Err(e),
                                },
                                disk: s3.disk,
                                sb: s3.sb,
                            }
                        },
                    }
                },
            }
        },
    }
}

/// Frees each block that `ptrs` names; 0 names no block.
fn free_block_list<D: BlockDevice>(device: &mut D, superblock: &mut SuperBlock, ptrs: &[u32]) -> (r:
    Result<(), FsError>)
    requires
        formatted(old(device)@, *old(superblock)),
    ensures
        crate::superblock::same_geometry(*final(superblock), *old(superblock)),
        final(device).reliable() == old(device).reliable(),
        final(device)@.len() == old(device)@.len(),
        formatted(final(device)@, *final(superblock)),
        old(device).reliable() || r is Ok ==> (Step {
            res: crate::superblock::done(r),
            disk: final(device)@,
            sb: *final(superblock),
        }) == spec_free_blocks(old(device)@, *old(superblock), ptrs@, 0),
{
    let mut k: usize = 0;
    while k < ptrs.len()
        invariant
            k <= ptrs@.len(),
            device.reliable() == old(device).reliable(),
            device@.len() == old(device)@.len(),
            formatted(device@, *superblock),
            crate::superblock::same_geometry(*superblock, *old(superblock)),
            spec_free_blocks(old(device)@, *old(superblock), ptrs@, 0) == spec_free_blocks(
                device@,
                *superblock,
                ptrs@,
                k as int,
            ),
        decreases ptrs@.len() - k,
    {
        let p = ptrs[k];
        if p != 0 {
            match free_data_block(device, superblock, p) {
                Ok(()) => {},
                Err(e) => {
                    return Err(e);
                },
            }
        }
        k += 1;
    }
    Ok(())
}

/// The direct pointers as a list of integers; 0 stands for an absent pointer.
fn direct_list(bp: &BlockPtr) -> (list: Vec<u32>)
    ensures
        list@ == direct_codes(bp@),
{
    let mut direct: Vec<u32> = Vec::new();
    let mut i: usize = 0;
    while i < NUM_DIRECT_PTRS
        invariant
            i <= NUM_DIRECT_PTRS,
            direct@.len() == i,
            forall|q: int| 0 <= q < i ==> direct@[q] == crate::layout::ptr_code(bp.direct@[q]),
        decreases NUM_DIRECT_PTRS - i,
    {
        direct.push(
            match bp.direct[i] {
                Some(b) => b,
                None => 0,
            },
        );
        i += 1;
    }
    assert(direct@ =~= direct_codes(bp@));
    direct
}

/// The pointers that an indirect block holds.
fn indirect_list(block: &[u8; BLOCK_SIZE]) -> (list: Vec<u32>)
    ensures
        list@ == indirect_codes(block@),
{
    let mut ptrs: Vec<u32> = Vec::new();
    let mut j: usize = 0;
    while j < PTRS_PER_BLOCK
        invariant
            j <= PTRS_PER_BLOCK,
            ptrs@.len() == j,
            forall|q: int| 0 <= q < j ==> ptrs@[q] == crate::codec::get32(block@, 4 * q),
        decreases PTRS_PER_BLOCK - j,
    {
        ptrs.push(read_u32(block, 4 * j));
        j += 1;
    }
    assert(ptrs@ =~= indirect_codes(block@));
    ptrs
}

/// Frees the direct blocks of a file, the blocks that its indirect block
/// names, and the indirect block.
pub fn release_blocks<D: BlockDevice>(device: &mut D, superblock: &mut SuperBlock, bp: &BlockPtr)
    -> (r: Result<(), FsError>)
    requires
        formatted(old(device)@, *old(superblock)),
    ensures
        crate::superblock::same_geometry(*final(superblock), *old(superblock)),
        final(device).reliable() == old(device).reliable(),
        final(device)@.len() == old(device)@.len(),
        formatted(final(device)@, *final(superblock)),
        old(device).reliable() || r is Ok ==> (Step {
            res: crate::superblock::done(r),
            disk: final(device)@,
            sb: *final(superblock),
        }) == spec_release_blocks(old(device)@, *old(superblock), bp@),
{
    proof {
        reveal(spec_release_blocks);
    }
    let direct = direct_list(bp);
    match free_block_list(device, superblock, direct.as_slice()) {
        Ok(()) => {},
        Err(e) => {
            return Err(e);
        },
    }
    let indirect_ptr = match bp.indirect {
        Some(b) => b,
        None => {
            return Ok(());
        },
    };
    if !superblock.holds_data_block(indirect_ptr) {
        return Err(FsError::OutOfBounds);
    }
    let mut ptr_buf = [0u8;BLOCK_SIZE];
    match device.read_block(indirect_ptr, &mut ptr_buf) {
        Ok(()) => {},
        Err(e) => {
            return Err(e);
        },
    }
    let ptrs = indirect_list(&ptr_buf);
    match free_block_list(device, superblock, ptrs.as_slice()) {
        Ok(()) => {},
        Err(e) => {
            return Err(e);
        },
    }
    free_data_block(device, superblock, indirect_ptr)
}

/// Frees an inode and all its data blocks, clearing according bitmap entry.
/// This function does not remove the inode from the directory entries.
/// Make sure to remove the inode from the directory entries before calling this function.
/// Returns the freed inode.
pub fn free_inode<D: BlockDevice>(device: &mut D, superblock: &mut SuperBlock, inode_id: u32) -> (r:
    Result<Inode, FsError>)
    requires
        formatted(old(device)@, *old(superblock)),
    ensures
        crate::superblock::same_geometry(*final(superblock), *old(superblock)),
        final(device).reliable() == old(device).reliable(),
        final(device)@.len() == old(device)@.len(),
        formatted(final(device)@, *final(superblock)),
        old(device).reliable() || r is Ok ==> (Step {
            res: inode_view(r),
            disk: final(device)@,
            sb: *final(superblock),
        }) == spec_free_inode(old(device)@, *old(superblock), inode_id),
{
    proof {
        reveal(spec_free_inode);
    }
    let inode = match get_inode(device, superblock, inode_id) {
        Ok(inode) => inode,
        Err(e) => {
            return Err(e);
        },
    };
    match inode.get_block_ptrs() {
        Ok(bp) => {
            match release_blocks(device, superblock, bp) {
                Ok(()) => {},
                Err(e) => {
                    return Err(e);
                },
            }
        },
        Err(_) => {},
    }
    match free_inode_id(device, superblock, inode_id) {
        Ok(()) => {},
        Err(e) => {
            return Err(e);
        },
    }
    // Free inode record in inode table.
    let cleared = Inode::new(FileType::Regular, Mode::NoAccess, inode_id);
    match write_inode(device, superblock, &cleared) {
        Ok(()) => Ok(inode),
        Err(e) => Err(e),
    }
}

/// What `bmap_lookup` returns: the data block that holds the byte at
/// `file_offset`, or nothing where the file has a hole there. A pointer that
/// leaves the data region is refused.
#[verifier::opaque]
pub open spec fn spec_bmap_lookup(disk: Seq<Seq<u8>>, sb: SuperBlock, m: InodeModel, file_offset: u64)
    -> Result<Option<u32>, FsError> {
    if file_offset % 512 != 0 {
        Err(FsError::InvalidArgument)
    } else {
        match m.block_ptrs() {
            None => Err(FsError::InvalidFileType),
            Some(bp) => {
                let idx = file_offset / 512;
                if idx >= 140 {
                    Err(FsError::FileTooLarge)
                } else if idx < 12 {
                    match bp.direct[idx as int] {
                        None => Ok(None),
                        Some(b) => if sb.is_data_block(b) {
                            Ok(Some(b))
                        } else {
                            Err(FsError::InvalidBlockId)
                        },
                    }
                } else {
                    match bp.indirect {
                        None => Ok(None),
                        Some(ib) => if !sb.is_data_block(ib) {
                            Err(FsError::InvalidBlockId)
                        } else {
                            let p = crate::codec::get32(disk[ib as int], 4 * (idx - 12));
                            if p == 0 {
                                Ok(None)
                            } else if sb.is_data_block(p) {
                                Ok(Some(p))
                            } else {
                                Err(FsError::InvalidBlockId)
                            }
                        },
                    }
                }
            },
        }
    }
}

/// The inode after a write at `file_offset` was announced: a write at or
/// past the end makes the file one byte longer than the offset, and `blocks`
/// the number of blocks that this size spans.
pub open spec fn extended(m: InodeModel, file_offset: u64) -> InodeModel {
    if file_offset >= m.size {
        InodeModel { size: (file_offset + 1) as u64, blocks: (file_offset / 512 + 1) as u32, ..m }
    } else {
        m
    }
}

/// The inode with direct pointer `idx` set to `b`.
pub open spec fn with_direct(m: InodeModel, idx: int, b: u32) -> InodeModel {
    match m.payload {
        crate::structs::PayloadModel::Blocks(bp) => InodeModel {
            payload: crate::structs::PayloadModel::Blocks(
                crate::structs::BlockPtrModel { direct: bp.direct.update(idx, Some(b)), ..bp },
            ),
            ..m
        },
        _ => m,
    }
}

/// The inode with its indirect pointer set to `b`.
pub open spec fn with_indirect(m: InodeModel, b: u32) -> InodeModel {
    match m.payload {
        crate::structs::PayloadModel::Blocks(bp) => InodeModel {
            payload: crate::structs::PayloadModel::Blocks(
                crate::structs::BlockPtrModel { indirect: Some(b), ..bp },
            ),
            ..m
        },
        _ => m,
    }
}

/// What `bmap` does with `create` once the indirect block `ib` is known:
/// the pointer in slot `slot` is returned, and where there is none a block
/// is allocated, the inode written and the pointer stored in the slot.
#[verifier::opaque]
pub open spec fn spec_bmap_slot(
    disk: Seq<Seq<u8>>,
    sb: SuperBlock,
    m: InodeModel,
    ib: u32,
    slot: int,
) -> InodeStep<u32> {
    let p = crate::codec::get32(disk[ib as int], 4 * slot);
    if p != 0 {
        InodeStep {
            res: if sb.is_data_block(p) {
                Ok(p)
            } else {
                Err(FsError::InvalidBlockId)
            },
            disk,
            sb,
            inode: m,
        }
    } else {
        let a = crate::bitmap::spec_alloc_data_block(disk, sb);
        match a.res {
            Err(e) => InodeStep { res: Err(e), disk: a.disk, sb: a.sb, inode: m },
            Ok(b) => {
                let w = spec_write_inode(a.disk, a.sb, m);
                match w.res {
                    Err(e) => InodeStep { res: Err(e), disk: w.disk, sb: w.sb, inode: m },
                    Ok(_) => InodeStep {
                        res: Ok(b),
                        disk: w.disk.update(
                            ib as int,
                            crate::codec::splice(disk[ib as int], 4 * slot, crate::codec::le32(b)),
                        ),
                        sb: w.sb,
                        inode: m,
                    },
                }
            },
        }
    }
}

/// What `bmap` does with `create`: the file is extended to reach the offset,
/// and where the block is absent one is allocated and recorded, in the inode
/// or in the indirect block, which is itself allocated on first use.
#[verifier::opaque]
pub open spec fn spec_bmap_create(disk: Seq<Seq<u8>>, sb: SuperBlock, m: InodeModel, file_offset: u64)
    -> InodeStep<u32> {
    if file_offset % 512 != 0 {
        InodeStep { res: Err(FsError::InvalidArgument), disk, sb, inode: m }
    } else {
        match m.block_ptrs() {
            None => InodeStep { res: Err(FsError::InvalidFileType), disk, sb, inode: m },
            Some(bp) => {
                let idx = file_offset / 512;
                if idx >= 140 {
                    InodeStep { res: Err(FsError::FileTooLarge), disk, sb, inode: m }
                } else {
                    let m1 = extended(m, file_offset);
                    if idx < 12 {
                        match bp.direct[idx as int] {
                            Some(b) => InodeStep {
                                res: if sb.is_data_block(b) {
                                    Ok(b)
                                } else {
                                    Err(FsError::InvalidBlockId)
                                },
                                disk,
                                sb,
                                inode: m1,
                            },
                            None => {
                                let a = crate::bitmap::spec_alloc_data_block(disk, sb);
                                match a.res {
                                    Err(e) => InodeStep {
                                        res: Err(e),
                                        disk: a.disk,
                                        sb: a.sb,
                                        inode: m1,
                                    },
                                    Ok(b) => {
                                        let m2 = with_direct(m1, idx as int, b);
                                        let w = spec_write_inode(a.disk, a.sb, m2);
                                        InodeStep {
                                            res: match w.res {
                                                Ok(_) => Ok(b),
                                                Err(e) => Err(e),
                                            },
                                            disk: w.disk,
                                            sb: w.sb,
                                            inode: m2,
                                        }
                                    },
                                }
                            },
                        }
                    } else {
                        match bp.indirect {
                            Some(ib) => if !sb.is_data_block(ib) {
                                InodeStep { res: Err(FsError::InvalidBlockId), disk, sb, inode: m1 }
                            } else {
                                spec_bmap_slot(disk, sb, m1, ib, idx - 12)
                            },
                            None => {
                                let a = crate::bitmap::spec_alloc_data_block(disk, sb);
                                match a.res {
                                    Err(e) => InodeStep {
                                        res: Err(e),
                                        disk: a.disk,
                                        sb: a.sb,
                                        inode: m1,
                                    },
                                    Ok(ib) => spec_bmap_slot(
                                        a.disk,
                                        a.sb,
                                        with_indirect(m1, ib),
                                        ib,
                                        idx - 12,
                                    ),
                                }
                            },
                        }
                    }
                }
            },
        }
    }
}

/// What `bmap` does: without `create` it looks the block up and reports a
/// hole as `OutOfBounds`; with `create` it fills the hole.
pub open spec fn spec_bmap(
    disk: Seq<Seq<u8>>,
    sb: SuperBlock,
    m: InodeModel,
    file_offset: u64,
    create: bool,
) -> InodeStep<u32> {
    if create {
        spec_bmap_create(disk, sb, m, file_offset)
    } else {
        InodeStep {
            res: match spec_bmap_lookup(disk, sb, m, file_offset) {
                Ok(Some(b)) => Ok(b),
                Ok(None) => Err(FsError::OutOfBounds),
                Err(e) => Err(e),
            },
            disk,
            sb,
            inode: m,
        }
    }
}

/// Looks up the data block that holds the byte at `file_offset`, which must
/// be a multiple of the block size. Returns nothing where the file has a
/// hole there.
pub fn bmap_lookup<D: BlockDevice>(
    device: &mut D,
    superblock: &SuperBlock,
    inode: &Inode,
    file_offset: u64,
) -> (r: Result<Option<u32>, FsError>)
    requires
        mounted(old(device)@, *superblock),
    ensures
        r matches Ok(Some(_)) ==> file_offset % 512 == 0 && file_offset / 512 < 140,
        final(device)@ == old(device)@,
        final(device).reliable() == old(device).reliable(),
        old(device).reliable() || r is Ok ==> r == spec_bmap_lookup(
            old(device)@,
            *superblock,
            inode@,
            file_offset,
        ),
        r matches Ok(Some(b)) ==> superblock.is_data_block(b),
{
    proof {
        reveal(spec_bmap_lookup);
    }
    if file_offset % BLOCK_SIZE as u64 != 0 {
        return Err(FsError::InvalidArgument);
    }
    let bp = match inode.get_block_ptrs() {
        Ok(bp) => bp,
        Err(e) => {
            return Err(e);
        },
    };
    let block_offset = file_offset / BLOCK_SIZE as u64;
    if block_offset >= (NUM_DIRECT_PTRS + PTRS_PER_BLOCK) as u64 {
        return Err(FsError::FileTooLarge);
    }
    // Direct blocks
    if block_offset < NUM_DIRECT_PTRS as u64 {
        return match bp.direct[block_offset as usize] {
            None => Ok(None),
            Some(block_id) => if superblock.holds_data_block(block_id) {
                Ok(Some(block_id))
            } else {
                Err(FsError::InvalidBlockId)
            },
        };
    }
    // Indirect blocks
    let indirect_offset = (block_offset - NUM_DIRECT_PTRS as u64) as usize;
    let indirect_block_id = match bp.indirect {
        None => {
            return Ok(None);
        },
        Some(b) => b,
    };
    if !superblock.holds_data_block(indirect_block_id) {
        return Err(FsError::InvalidBlockId);
    }
    let mut buf = [0u8;BLOCK_SIZE];
    device.read_block(indirect_block_id, &mut buf)?;
    let data_block_id = read_u32(&buf, 4 * indirect_offset);
    if data_block_id == 0 {
        Ok(None)
    } else if superblock.holds_data_block(data_block_id) {
        Ok(Some(data_block_id))
    } else {
        Err(FsError::InvalidBlockId)
    }
}

/// The second half of `bmap` with `create`: slot `slot` of the indirect
/// block `ib`.
fn bmap_slot<D: BlockDevice>(
    device: &mut D,
    superblock: &mut SuperBlock,
    inode: &Inode,
    ib: u32,
    slot: usize,
) -> (r: Result<u32, FsError>)
    requires
        formatted(old(device)@, *old(superblock)),
        old(superblock).is_data_block(ib),
        slot < PTRS_PER_BLOCK,
    ensures
        crate::superblock::same_geometry(*final(superblock), *old(superblock)),
        final(device).reliable() == old(device).reliable(),
        final(device)@.len() == old(device)@.len(),
        formatted(final(device)@, *final(superblock)),
        old(device).reliable() || r is Ok ==> (InodeStep {
            res: r,
            disk: final(device)@,
            sb: *final(superblock),
            inode: inode@,
        }) == spec_bmap_slot(old(device)@, *old(superblock), inode@, ib, slot as int),
        r matches Ok(b) ==> final(superblock).is_data_block(b),
{
    proof {
        reveal(spec_bmap_slot);
    }
    let mut buf = [0u8;BLOCK_SIZE];
    match device.read_block(ib, &mut buf) {
        Ok(()) => {},
        Err(e) => {
            return Err(e);
        },
    }
    let mut data_block_id = read_u32(&buf, 4 * slot);
    if data_block_id != 0 {
        return if superblock.holds_data_block(data_block_id) {
            Ok(data_block_id)
        } else {
            Err(FsError::InvalidBlockId)
        };
    }
    data_block_id = match alloc_data_block(device, superblock) {
        Ok(b) => b,
        Err(e) => {
            return Err(e);
        },
    };
    match write_inode(device, superblock, inode) {
        Ok(()) => {},
        Err(e) => {
            return Err(e);
        },
    }
    // Write back the updated indirect block
    write_u32(&mut buf, 4 * slot, data_block_id);
    let ghost d2 = device@;
    match device.write_block(ib, &buf) {
        Ok(()) => {},
        Err(e) => {
            return Err(e);
        },
    }
    proof {
        crate::bitmap::lemma_layout(*superblock);
        crate::bitmap::lemma_formatted_update(d2, *superblock, ib as int, buf@);
    }
    Ok(data_block_id)
}

/// Block map. Maps a file offset to a block ID in the filesystem.
/// The offset is required to be divided by BLOCK_SIZE.
pub fn bmap<D: BlockDevice>(
    device: &mut D,
    superblock: &mut SuperBlock,
    inode: &mut Inode,
    file_offset: u64,
    create: bool,
) -> (r: Result<u32, FsError>)
    requires
        formatted(old(device)@, *old(superblock)),
    ensures
        r is Ok ==> file_offset % 512 == 0 && file_offset / 512 < 140,
        crate::superblock::same_geometry(*final(superblock), *old(superblock)),
        same_identity(final(inode)@, old(inode)@),
        old(inode)@.wf() ==> final(inode)@.wf(),
        final(device).reliable() == old(device).reliable(),
        final(device)@.len() == old(device)@.len(),
        formatted(final(device)@, *final(superblock)),
        old(device).reliable() || r is Ok ==> (InodeStep {
            res: r,
            disk: final(device)@,
            sb: *final(superblock),
            inode: final(inode)@,
        }) == spec_bmap(old(device)@, *old(superblock), old(inode)@, file_offset, create),
        r matches Ok(b) ==> final(superblock).is_data_block(b),
{
    proof {
        reveal(spec_bmap);
    }
    proof {
        reveal(spec_bmap_create);
    }
    if !create {
        return match bmap_lookup(device, superblock, inode, file_offset) {
            Ok(Some(b)) => Ok(b),
            Ok(None) => Err(FsError::OutOfBounds),
            Err(e) => Err(e),
        };
    }
    if file_offset % BLOCK_SIZE as u64 != 0 {
        return Err(FsError::InvalidArgument);
    }
    let mut bp: BlockPtr = match inode.get_block_ptrs() {
        Ok(bp) => *bp,
        Err(e) => {
            return Err(e);
        },
    };
    let block_offset = file_offset / BLOCK_SIZE as u64;
    if block_offset >= (NUM_DIRECT_PTRS + PTRS_PER_BLOCK) as u64 {
        return Err(FsError::FileTooLarge);
    }
    if file_offset >= inode.size {
        inode.size = file_offset + 1;
        inode.blocks = (block_offset + 1) as u32;
    }
    // Direct blocks
    if block_offset < NUM_DIRECT_PTRS as u64 {
        return match bp.direct[block_offset as usize] {
            Some(block_id) => if superblock.holds_data_block(block_id) {
                Ok(block_id)
            } else {
                Err(FsError::InvalidBlockId)
            },
            None => {
                let block_id = match alloc_data_block(device, superblock) {
                    Ok(b) => b,
                    Err(e) => {
                        return Err(e);
                    },
                };
                bp.direct[block_offset as usize] = Some(block_id);
                inode.inode_ptr = InodePtr::Blocks(bp);
                match write_inode(device, superblock, inode) {
                    Ok(()) => Ok(block_id),
                    Err(e) => Err(e),
                }
            },
        };
    }
    // Indirect blocks
    let indirect_offset = (block_offset - NUM_DIRECT_PTRS as u64) as usize;
    let indirect_block_id = match bp.indirect {
        Some(b) => {
            if !superblock.holds_data_block(b) {
                return Err(FsError::InvalidBlockId);
            }
            b
        },
        None => {
            let b = match alloc_data_block(device, superblock) {
                Ok(b) => b,
                Err(e) => {
                    return Err(e);
                },
            };
            bp.indirect = Some(b);
            inode.inode_ptr = InodePtr::Blocks(bp);
            b
        },
    };
    bmap_slot(device, superblock, inode, indirect_block_id, indirect_offset)
}

} // verus!
