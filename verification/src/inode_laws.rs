//! What holds of the inode table: a record is read back as it was written,
//! and an allocation takes an inode that was free.

use vstd::prelude::*;
use crate::dir_laws::{in_use, lemma_in_use_geometry};
use crate::error::FsError;
use crate::inode::{inode_block, inode_offset, spec_alloc_inode, spec_get_inode, spec_write_inode};
use crate::structs::{FileType, InodeModel, Mode, SuperBlock};

verus! {

/// Whether an inode is marked as used in the inode bitmap.
pub open spec fn inode_used(disk: Seq<Seq<u8>>, sb: SuperBlock, id: u32) -> bool {
    id < sb.num_inodes && crate::bitmap::bit_at(disk, sb.inode_bitmap_start as int, id as int)
}

/// An inode is read back as it was written, and writing it changes the
/// record of no other inode.
pub proof fn lemma_write_get(disk: Seq<Seq<u8>>, sb: SuperBlock, m: InodeModel, id: u32)
    requires
        crate::superblock::mounted(disk, sb),
        m.id < sb.num_inodes,
        m.wf(),
    ensures
        spec_write_inode(disk, sb, m).res is Ok,
        spec_get_inode(spec_write_inode(disk, sb, m).disk, sb, id) == (if id == m.id {
            Ok::<InodeModel, FsError>(m)
        } else {
            spec_get_inode(disk, sb, id)
        }),
{
    reveal(spec_write_inode);
    reveal(spec_get_inode);
    crate::bitmap::lemma_layout(sb);
    crate::inode::lemma_inode_slot(sb, m.id);
    let w = spec_write_inode(disk, sb, m);
    let b = inode_block(sb, m.id);
    let off = inode_offset(m.id);
    let rec = crate::layout::encode_inode(m);
    crate::layout::lemma_inode_roundtrip(m);
    let nb = crate::codec::splice(disk[b], off, rec);
    assert(w.disk == disk.update(b, nb));
    if id < sb.num_inodes {
        crate::inode::lemma_inode_slot(sb, id);
        let b2 = inode_block(sb, id);
        let off2 = inode_offset(id);
        if b2 == b {
            if id == m.id {
                assert(nb.subrange(off2, off2 + 128) =~= rec);
            } else {
                assert(off2 + 128 <= off || off + 128 <= off2);
                assert(nb.subrange(off2, off2 + 128) =~= disk[b].subrange(off2, off2 + 128));
            }
        }
    }
}

/// What taking an inode id does: an inode that was free is marked as used;
/// no other bit of the inode bitmap changes, and nothing of the data bitmap,
/// the inode table and the data region.
pub proof fn lemma_alloc_inode_id(disk: Seq<Seq<u8>>, sb: SuperBlock)
    requires
        crate::bitmap::formatted(disk, sb),
    ensures
        ({
            let a = crate::bitmap::spec_alloc_inode_id(disk, sb);
            &&& crate::bitmap::formatted(a.disk, a.sb)
            &&& crate::superblock::same_geometry(a.sb, sb)
            &&& a.disk.len() == disk.len()
            &&& forall|x: int| sb.inode_table_start <= x < disk.len() ==> a.disk[x] == disk[x]
            &&& forall|x: int|
                sb.data_bitmap_start <= x < sb.inode_bitmap_start ==> a.disk[x] == disk[x]
            &&& a.sb.free_blocks == sb.free_blocks
            &&& a.res matches Ok(id) ==> {
                &&& a.sb.free_inodes == sb.free_inodes - 1
                &&& forall|j: u32| j < id ==> inode_used(disk, sb, j)
                &&& !inode_used(disk, sb, id)
                &&& inode_used(a.disk, a.sb, id)
                &&& forall|id2: u32|
                    inode_used(a.disk, a.sb, id2) == (id2 == id || inode_used(disk, sb, id2))
            }
        }),
{
    reveal(crate::bitmap::spec_alloc_inode_id);
    reveal(crate::bitmap::spec_set_first_fit);
    reveal(crate::bitmap::counts_ok);
    crate::bitmap::lemma_layout(sb);
    let a = crate::bitmap::spec_alloc_inode_id(disk, sb);
    let start = sb.inode_bitmap_start as int;
    let total = sb.num_inodes as int;
    crate::bitmap::lemma_first_fit_least(disk, start, total, true, 0);
    match crate::bitmap::first_fit(disk, start, total, true, 0) {
        Some(i) => {
            let d1 = crate::bitmap::with_bit(disk, start, i, true);
            let sb1 = SuperBlock { free_inodes: (sb.free_inodes - 1) as u32, ..sb };
            let id = i as u32;
            assert(i / 4096 < sb.inode_bitmap_blocks);
            crate::bitmap::lemma_count_bound(disk, start, total as nat, i);
            crate::bitmap::lemma_count_with_bit(disk, start, total as nat, i, true);
            crate::bitmap::lemma_count_frame(
                disk,
                d1,
                sb.data_bitmap_start as int,
                sb.data_blocks() as nat,
            );
            assert(crate::block_dev::blocks_sized(d1));
            assert(crate::bitmap::formatted(d1, sb1));
            crate::layout::lemma_sb_roundtrip(sb1);
            crate::bitmap::lemma_formatted_update(d1, sb1, 0, crate::layout::encode_sb(sb1));
            assert forall|id2: u32|
                inode_used(a.disk, a.sb, id2) == (id2 == id || inode_used(disk, sb, id2)) by {
                if id2 < sb.num_inodes {
                    crate::bitmap::lemma_with_bit(disk, start, i, true, id2 as int);
                    assert(id2 as int / 4096 < sb.inode_bitmap_blocks);
                    assert(a.disk[start + id2 as int / 4096] == d1[start + id2 as int / 4096]);
                }
            }
        },
        None => {},
    }
}

/// What the allocation of an inode does: an inode that was free is marked
/// as used and its slot holds a fresh record; the record of no other inode
/// changes, no other bit of the inode bitmap, and nothing of the data
/// bitmap and the data region.
pub proof fn lemma_alloc_inode(disk: Seq<Seq<u8>>, sb: SuperBlock, ftype: FileType, mode: Mode)
    requires
        crate::bitmap::formatted(disk, sb),
    ensures
        ({
            let a = spec_alloc_inode(disk, sb, ftype, mode);
            &&& crate::bitmap::formatted(a.disk, a.sb)
            &&& crate::superblock::same_geometry(a.sb, sb)
            &&& a.disk.len() == disk.len()
            &&& forall|x: int| sb.data_start <= x < disk.len() ==> a.disk[x] == disk[x]
            &&& forall|x: u32| in_use(a.disk, a.sb, x) == in_use(disk, sb, x)
            &&& a.sb.free_blocks == sb.free_blocks
            &&& a.res matches Ok(m) ==> {
                &&& a.sb.free_inodes == sb.free_inodes - 1
                &&& forall|j: u32| j < m.id ==> inode_used(disk, sb, j)
                &&& m.id < sb.num_inodes
                &&& m == InodeModel::fresh(ftype, mode, m.id)
                &&& !inode_used(disk, sb, m.id)
                &&& inode_used(a.disk, a.sb, m.id)
                &&& forall|id: u32|
                    inode_used(a.disk, a.sb, id) == (id == m.id || inode_used(disk, sb, id))
                &&& forall|id: u32|
                    spec_get_inode(a.disk, a.sb, id) == (if id == m.id {
                        Ok::<InodeModel, FsError>(m)
                    } else {
                        spec_get_inode(disk, sb, id)
                    })
            }
        }),
{
    reveal(spec_alloc_inode);
    crate::bitmap::lemma_layout(sb);
    let a0 = crate::bitmap::spec_alloc_inode_id(disk, sb);
    lemma_alloc_inode_id(disk, sb);
    let a = spec_alloc_inode(disk, sb, ftype, mode);
    crate::bitmap::lemma_layout(a0.sb);
    match a0.res {
        Ok(id) => {
            let m = InodeModel::fresh(ftype, mode, id);
            assert(m.wf()) by {
                assert(crate::structs::BlockPtrModel::empty().wf());
            }
            crate::dir_laws::lemma_write_inode_formatted(a0.disk, a0.sb, m);
            assert forall|x: u32| in_use(a.disk, a.sb, x) == in_use(disk, sb, x) by {
                lemma_in_use_geometry(disk, a0.sb, sb, x);
                lemma_in_use_geometry(a0.disk, a0.sb, sb, x);
                if sb.is_data_block(x) {
                    let ix = x - sb.data_start;
                    assert(ix / 4096 < sb.data_bitmap_blocks);
                }
            }
            assert forall|id2: u32|
                inode_used(a.disk, a.sb, id2) == (id2 == id || inode_used(disk, sb, id2)) by {
                if id2 < sb.num_inodes {
                    assert(id2 as int / 4096 < sb.inode_bitmap_blocks);
                }
            }
            if a.res is Ok {
                assert forall|id2: u32|
                    spec_get_inode(a.disk, a.sb, id2) == (if id2 == m.id {
                        Ok::<InodeModel, FsError>(m)
                    } else {
                        spec_get_inode(disk, sb, id2)
                    }) by {
                    lemma_write_get(a0.disk, a0.sb, m, id2);
                    lemma_get_frame(disk, sb, a0.disk, a0.sb, id2);
                }
            }
        },
        Err(_) => {},
    }
}

/// The record of an inode depends on the inode table alone.
pub proof fn lemma_get_frame(
    d1: Seq<Seq<u8>>,
    sb1: SuperBlock,
    d2: Seq<Seq<u8>>,
    sb2: SuperBlock,
    id: u32,
)
    requires
        sb1.wf(),
        crate::superblock::same_geometry(sb2, sb1),
        forall|b: int| sb1.inode_table_start <= b < sb1.data_start ==> d2[b] == d1[b],
    ensures
        spec_get_inode(d2, sb2, id) == spec_get_inode(d1, sb1, id),
{
    reveal(spec_get_inode);
    if id < sb1.num_inodes {
        crate::inode::lemma_inode_slot(sb1, id);
    }
}

} // verus!
