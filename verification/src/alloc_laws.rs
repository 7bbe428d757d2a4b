//! What holds of the data bitmap and the block pointers of the inodes in
//! use: every block that such an inode points to is marked as used, and
//! every block marked as used is pointed to once.

use vstd::prelude::*;
use crate::dir_laws::{
    block_of, in_use, indirect_of, lemma_alloc_data_block, lemma_block_of_frame,
    lemma_block_of_geometry, lemma_bmap_create, lemma_write_inode_formatted, mapped,
};
use crate::error::FsError;
use crate::file_laws::file_wf;
use crate::inode::{spec_bmap, spec_get_inode};
use crate::inode_laws::{inode_used, lemma_get_frame, lemma_write_get};
use crate::structs::{EntryModel, FileType, InodeModel, Mode, SuperBlock};

verus! {

/// Whether the inode `m` points to block `x`: as a block of data or as its
/// block of indirect pointers.
pub open spec fn refers(disk: Seq<Seq<u8>>, sb: SuperBlock, m: InodeModel, x: u32) -> bool {
    ||| indirect_of(m) == Some(x)
    ||| exists|k: int| 0 <= k < 140 && #[trigger] block_of(disk, sb, m, k) == Some(x)
}

/// The record of inode `id` on disk.
pub open spec fn record(disk: Seq<Seq<u8>>, sb: SuperBlock, id: u32) -> InodeModel {
    spec_get_inode(disk, sb, id)->Ok_0
}

/// Whether the data bitmap agrees with the inodes in use: each of them has
/// a valid record whose blocks are sound; no block is pointed to by two of
/// them; and every block that is marked as used is pointed to by one of
/// them.
pub open spec fn consistent(disk: Seq<Seq<u8>>, sb: SuperBlock) -> bool {
    &&& crate::bitmap::formatted(disk, sb)
    &&& forall|id: u32| #[trigger]
        inode_used(disk, sb, id) ==> spec_get_inode(disk, sb, id) is Ok && (record(
            disk,
            sb,
            id,
        ).block_ptrs() is Some ==> file_wf(disk, sb, record(disk, sb, id)))
    &&& forall|id1: u32, id2: u32, x: u32|
        inode_used(disk, sb, id1) && inode_used(disk, sb, id2) && id1 != id2 && #[trigger] refers(
            disk,
            sb,
            record(disk, sb, id1),
            x,
        ) ==> !#[trigger] refers(disk, sb, record(disk, sb, id2), x)
    &&& forall|x: u32| #[trigger]
        in_use(disk, sb, x) ==> exists|id: u32|
            inode_used(disk, sb, id) && #[trigger] refers(disk, sb, record(disk, sb, id), x)
}

/// Whether the inode `m` in memory is an inode in use with the block
/// pointers of its record on disk.
pub open spec fn current(disk: Seq<Seq<u8>>, sb: SuperBlock, m: InodeModel) -> bool {
    &&& inode_used(disk, sb, m.id)
    &&& spec_get_inode(disk, sb, m.id) is Ok
    &&& record(disk, sb, m.id).block_ptrs() == m.block_ptrs()
    &&& m.block_ptrs() is Some
    &&& m.wf()
}

/// Whether the second disk has the record of every inode but `id` as the
/// first has it, and the same inodes in use.
pub open spec fn others_kept(
    d1: Seq<Seq<u8>>,
    sb1: SuperBlock,
    d2: Seq<Seq<u8>>,
    sb2: SuperBlock,
    id: u32,
) -> bool {
    &&& forall|x: u32| x != id ==> #[trigger] spec_get_inode(d2, sb2, x) == spec_get_inode(d1, sb1, x)
    &&& forall|x: u32| #[trigger] inode_used(d2, sb2, x) == inode_used(d1, sb1, x)
}

/// What `bmap` with `create` writes to the inode table: the inode that it
/// returns, where it allocated a block, and nothing else.
pub proof fn lemma_bmap_records(disk: Seq<Seq<u8>>, sb: SuperBlock, m: InodeModel, off: u64, id: u32)
    requires
        crate::bitmap::formatted(disk, sb),
        m.wf(),
        indirect_of(m) matches Some(ib) ==> in_use(disk, sb, ib),
        spec_bmap(disk, sb, m, off, true).res is Ok,
    ensures
        ({
            let r = spec_bmap(disk, sb, m, off, true);
            spec_get_inode(r.disk, r.sb, id) == (if id == m.id && block_of(
                disk,
                sb,
                m,
                off as int / 512,
            ) is None {
                Ok::<InodeModel, FsError>(r.inode)
            } else {
                spec_get_inode(disk, sb, id)
            })
        }),
{
    lemma_bmap_create(disk, sb, m, off);
    reveal(crate::inode::spec_bmap);
    reveal(crate::inode::spec_bmap_create);
    reveal(crate::inode::spec_bmap_slot);
    reveal(crate::inode::spec_bmap_lookup);
    reveal(crate::inode::spec_write_inode);
    crate::bitmap::lemma_layout(sb);
    let r = spec_bmap(disk, sb, m, off, true);
    let idx = off as int / 512;
    let bp = m.block_ptrs()->0;
    let m1 = crate::inode::extended(m, off);
    let a = crate::bitmap::spec_alloc_data_block(disk, sb);
    lemma_alloc_data_block(disk, sb);
    if idx < 12 {
        if bp.direct[idx] is None {
            let m2 = crate::inode::with_direct(m1, idx, a.res->Ok_0);
            crate::bitmap::lemma_layout(a.sb);
            lemma_get_frame(disk, sb, a.disk, a.sb, id);
            lemma_write_get(a.disk, a.sb, m2, id);
        }
    } else {
        match bp.indirect {
            Some(ib) => {
                if crate::codec::get32(disk[ib as int], 4 * (idx - 12)) == 0 {
                    crate::bitmap::lemma_layout(a.sb);
                    lemma_get_frame(disk, sb, a.disk, a.sb, id);
                    lemma_write_get(a.disk, a.sb, m1, id);
                    let w = crate::inode::spec_write_inode(a.disk, a.sb, m1);
                    lemma_write_inode_formatted(a.disk, a.sb, m1);
                    lemma_get_frame(w.disk, w.sb, r.disk, r.sb, id);
                }
            },
            None => {
                let ib2 = a.res->Ok_0;
                let m2 = crate::inode::with_indirect(m1, ib2);
                crate::bitmap::lemma_layout(a.sb);
                let a2 = crate::bitmap::spec_alloc_data_block(a.disk, a.sb);
                lemma_alloc_data_block(a.disk, a.sb);
                crate::bitmap::lemma_layout(a2.sb);
                lemma_zero_slot(idx - 12);
                lemma_get_frame(disk, sb, a.disk, a.sb, id);
                lemma_get_frame(a.disk, a.sb, a2.disk, a2.sb, id);
                lemma_write_get(a2.disk, a2.sb, m2, id);
                let w = crate::inode::spec_write_inode(a2.disk, a2.sb, m2);
                lemma_write_inode_formatted(a2.disk, a2.sb, m2);
                lemma_get_frame(w.disk, w.sb, r.disk, r.sb, id);
            },
        }
    }
}

/// A slot of a zeroed block of pointers holds no pointer.
pub proof fn lemma_zero_slot(slot: int)
    requires
        0 <= slot < 128,
    ensures
        crate::codec::get32(crate::codec::zeros(512), 4 * slot) == 0,
{
    assert(crate::codec::le32(0u32) =~= seq![0u8, 0u8, 0u8, 0u8]) by {
        assert(0u32 & 0xff == 0) by (bit_vector);
        assert((0u32 >> 8) & 0xff == 0) by (bit_vector);
        assert((0u32 >> 16) & 0xff == 0) by (bit_vector);
        assert((0u32 >> 24) & 0xff == 0) by (bit_vector);
    }
    crate::layout::lemma_get32_bytes(crate::codec::zeros(512), 4 * slot, 0);
}

/// Whether the blocks of a file are sound depends on its block pointers
/// alone.
pub proof fn lemma_file_wf_ptrs(disk: Seq<Seq<u8>>, sb: SuperBlock, m1: InodeModel, m2: InodeModel)
    requires
        file_wf(disk, sb, m1),
        m2.wf(),
        m1.block_ptrs() == m2.block_ptrs(),
    ensures
        file_wf(disk, sb, m2),
        forall|x: u32| refers(disk, sb, m2, x) == refers(disk, sb, m1, x),
{
    assert forall|k: int| 0 <= k < 140 implies #[trigger] block_of(disk, sb, m2, k) == block_of(
        disk,
        sb,
        m1,
        k,
    ) by {
        lemma_block_of_frame(disk, disk, sb, m2, m1, k);
    }
    assert forall|k: int| 0 <= k < 140 implies ((#[trigger] block_of(disk, sb, m2, k)) matches Some(
        b,
    ) ==> in_use(disk, sb, b) && Some(b) != indirect_of(m2)) by {
        assert(block_of(disk, sb, m2, k) == block_of(disk, sb, m1, k));
    }
    assert forall|k1: int, k2: int|
        0 <= k1 < k2 < 140 && (#[trigger] block_of(disk, sb, m2, k1)) is Some implies block_of(
        disk,
        sb,
        m2,
        k1,
    ) != #[trigger] block_of(disk, sb, m2, k2) by {
        assert(block_of(disk, sb, m2, k1) == block_of(disk, sb, m1, k1));
        assert(block_of(disk, sb, m2, k2) == block_of(disk, sb, m1, k2));
    }
    assert forall|x: u32| refers(disk, sb, m2, x) == refers(disk, sb, m1, x) by {
        lemma_refers_same(disk, sb, m1, disk, sb, m2, x);
    }
}

/// Two inodes with the same blocks point to the same blocks.
pub proof fn lemma_refers_same(
    d1: Seq<Seq<u8>>,
    sb1: SuperBlock,
    m1: InodeModel,
    d2: Seq<Seq<u8>>,
    sb2: SuperBlock,
    m2: InodeModel,
    x: u32,
)
    requires
        indirect_of(m1) == indirect_of(m2),
        forall|k: int|
            0 <= k < 140 ==> #[trigger] block_of(d2, sb2, m2, k) == block_of(d1, sb1, m1, k),
    ensures
        refers(d2, sb2, m2, x) == refers(d1, sb1, m1, x),
{
    if refers(d1, sb1, m1, x) && indirect_of(m1) != Some(x) {
        let k = choose|k: int| 0 <= k < 140 && #[trigger] block_of(d1, sb1, m1, k) == Some(x);
        assert(block_of(d2, sb2, m2, k) == Some(x));
    }
    if refers(d2, sb2, m2, x) && indirect_of(m2) != Some(x) {
        let k = choose|k: int| 0 <= k < 140 && #[trigger] block_of(d2, sb2, m2, k) == Some(x);
        assert(block_of(d1, sb1, m1, k) == Some(x));
    }
}

/// A file with sound blocks has sound blocks after a successful `bmap` with
/// `create`, and points to what it pointed to and to the blocks that were
/// allocated.
pub proof fn lemma_mapped_file_wf(
    disk: Seq<Seq<u8>>,
    sb: SuperBlock,
    m: InodeModel,
    off: u64,
    r: crate::inode::InodeStep<u32>,
)
    requires
        file_wf(disk, sb, m),
        mapped(disk, sb, m, off, r),
    ensures
        file_wf(r.disk, r.sb, r.inode),
        forall|x: u32| refers(disk, sb, m, x) ==> #[trigger] refers(r.disk, r.sb, r.inode, x),
        forall|x: u32| #[trigger]
            refers(r.disk, r.sb, r.inode, x) ==> refers(disk, sb, m, x) || !in_use(disk, sb, x),
{
    let idx = off as int / 512;
    let bn = r.res->Ok_0;
    let m2 = r.inode;
    if block_of(disk, sb, m, idx) is Some {
        lemma_file_wf_ptrs(disk, sb, m, m2);
    } else {
        assert forall|k: int| 0 <= k < 140 implies ((#[trigger] block_of(r.disk, r.sb, m2, k)) matches Some(
            bk,
        ) ==> in_use(r.disk, r.sb, bk) && Some(bk) != indirect_of(m2)) by {
            if k != idx {
                assert(block_of(r.disk, r.sb, m2, k) == block_of(disk, sb, m, k));
                match block_of(disk, sb, m, k) {
                    Some(bk) => {
                        assert(in_use(disk, sb, bk));
                    },
                    None => {},
                }
            }
        }
        assert forall|k1: int, k2: int|
            0 <= k1 < k2 < 140 && (#[trigger] block_of(r.disk, r.sb, m2, k1)) is Some implies block_of(
            r.disk,
            r.sb,
            m2,
            k1,
        ) != #[trigger] block_of(r.disk, r.sb, m2, k2) by {
            if k1 != idx {
                assert(block_of(r.disk, r.sb, m2, k1) == block_of(disk, sb, m, k1));
                assert(in_use(disk, sb, block_of(disk, sb, m, k1)->0));
            }
            if k2 != idx {
                assert(block_of(r.disk, r.sb, m2, k2) == block_of(disk, sb, m, k2));
                if block_of(disk, sb, m, k2) is Some {
                    assert(in_use(disk, sb, block_of(disk, sb, m, k2)->0));
                }
            }
        }
        assert forall|x: u32| refers(disk, sb, m, x) implies #[trigger] refers(
            r.disk,
            r.sb,
            m2,
            x,
        ) by {
            if indirect_of(m) != Some(x) {
                let k = choose|k: int| 0 <= k < 140 && #[trigger] block_of(disk, sb, m, k) == Some(x);
                assert(block_of(r.disk, r.sb, m2, k) == block_of(disk, sb, m, k));
            }
        }
        assert forall|x: u32| #[trigger] refers(r.disk, r.sb, m2, x) implies refers(disk, sb, m, x)
            || !in_use(disk, sb, x) by {
            if indirect_of(m2) != Some(x) {
                let k = choose|k: int|
                    0 <= k < 140 && #[trigger] block_of(r.disk, r.sb, m2, k) == Some(x);
                if k != idx {
                    assert(block_of(r.disk, r.sb, m2, k) == block_of(disk, sb, m, k));
                }
            }
        }
    }
}

/// The allocation of blocks to an inode in use keeps the data bitmap and
/// the block pointers in agreement: after a successful `bmap` with
/// `create` on an inode in use, every block that an inode in use points to
/// is marked as used, and every block marked as used is pointed to once.
pub proof fn lemma_bmap_keeps(disk: Seq<Seq<u8>>, sb: SuperBlock, m: InodeModel, off: u64)
    requires
        consistent(disk, sb),
        current(disk, sb, m),
        spec_bmap(disk, sb, m, off, true).res is Ok,
    ensures
        ({
            let r = spec_bmap(disk, sb, m, off, true);
            &&& consistent(r.disk, r.sb)
            &&& current(r.disk, r.sb, r.inode)
            &&& forall|id: u32| #[trigger] inode_used(r.disk, r.sb, id) == inode_used(disk, sb, id)
            &&& crate::superblock::same_geometry(r.sb, sb)
        }),
        others_kept(
            disk,
            sb,
            spec_bmap(disk, sb, m, off, true).disk,
            spec_bmap(disk, sb, m, off, true).sb,
            m.id,
        ),
{
    let r = spec_bmap(disk, sb, m, off, true);
    let rec = record(disk, sb, m.id);
    lemma_file_wf_ptrs(disk, sb, rec, m);
    lemma_bmap_create(disk, sb, m, off);
    lemma_mapped_file_wf(disk, sb, m, off, r);
    crate::dir_laws::lemma_bmap_keeps_inode_bitmap(disk, sb, m, off);
    crate::bitmap::lemma_layout(sb);
    assert forall|id: u32| #[trigger] inode_used(r.disk, r.sb, id) == inode_used(disk, sb, id) by {
        crate::tree_laws::lemma_inode_used_frame(disk, sb, r.disk, r.sb, id);
    }
    // The records of the inodes.
    assert forall|id: u32| #[trigger]
        inode_used(disk, sb, id) implies spec_get_inode(r.disk, r.sb, id) is Ok && (if id == m.id {
        record(r.disk, r.sb, id).block_ptrs() == r.inode.block_ptrs()
    } else {
        record(r.disk, r.sb, id) == record(disk, sb, id)
    }) by {
        lemma_bmap_records(disk, sb, m, off, id);
    }
    lemma_file_wf_ptrs(r.disk, r.sb, r.inode, record(r.disk, r.sb, m.id));
    // What the other inodes point to.
    assert forall|id: u32, x: u32|
        inode_used(disk, sb, id) && id != m.id implies #[trigger] refers(
        r.disk,
        r.sb,
        record(disk, sb, id),
        x,
    ) == refers(disk, sb, record(disk, sb, id), x) by {
        lemma_other_refers(disk, sb, m, off, id, x);
    }
    assert forall|id: u32| #[trigger]
        inode_used(r.disk, r.sb, id) implies spec_get_inode(r.disk, r.sb, id) is Ok && (record(
        r.disk,
        r.sb,
        id,
    ).block_ptrs() is Some ==> file_wf(r.disk, r.sb, record(r.disk, r.sb, id))) by {
        if id != m.id {
            assert(record(r.disk, r.sb, id) == record(disk, sb, id));
            if record(disk, sb, id).block_ptrs() is Some {
                lemma_other_file_wf(disk, sb, m, off, id);
            }
        }
    }
    assert forall|id1: u32, id2: u32, x: u32|
        inode_used(r.disk, r.sb, id1) && inode_used(r.disk, r.sb, id2) && id1 != id2
            && #[trigger] refers(r.disk, r.sb, record(r.disk, r.sb, id1), x) implies !#[trigger] refers(
        r.disk,
        r.sb,
        record(r.disk, r.sb, id2),
        x,
    ) by {
        lemma_keeps_apart(disk, sb, m, off, id1, id2, x);
    }
    assert forall|x: u32| #[trigger] in_use(r.disk, r.sb, x) implies exists|id: u32|
        inode_used(r.disk, r.sb, id) && #[trigger] refers(
            r.disk,
            r.sb,
            record(r.disk, r.sb, id),
            x,
        ) by {
        lemma_keeps_covered(disk, sb, m, off, x);
    }
    assert forall|x: u32| x != m.id implies #[trigger] spec_get_inode(r.disk, r.sb, x)
        == spec_get_inode(disk, sb, x) by {
        lemma_bmap_records(disk, sb, m, off, x);
    }
}

/// What another inode in use points to does not change when blocks are
/// allocated to an inode.
proof fn lemma_other_refers(
    disk: Seq<Seq<u8>>,
    sb: SuperBlock,
    m: InodeModel,
    off: u64,
    id: u32,
    x: u32,
)
    requires
        consistent(disk, sb),
        current(disk, sb, m),
        spec_bmap(disk, sb, m, off, true).res is Ok,
        inode_used(disk, sb, id),
        id != m.id,
    ensures
        ({
            let r = spec_bmap(disk, sb, m, off, true);
            &&& refers(r.disk, r.sb, record(disk, sb, id), x) == refers(
                disk,
                sb,
                record(disk, sb, id),
                x,
            )
            &&& forall|k: int|
                0 <= k < 140 ==> #[trigger] block_of(r.disk, r.sb, record(disk, sb, id), k)
                    == block_of(disk, sb, record(disk, sb, id), k)
        }),
{
    let r = spec_bmap(disk, sb, m, off, true);
    let rec = record(disk, sb, id);
    let mine = record(disk, sb, m.id);
    lemma_file_wf_ptrs(disk, sb, mine, m);
    lemma_bmap_create(disk, sb, m, off);
    assert forall|k: int| 0 <= k < 140 implies #[trigger] block_of(r.disk, r.sb, rec, k) == block_of(
        disk,
        sb,
        rec,
        k,
    ) by {
        match indirect_of(rec) {
            Some(ib) => {
                assert(file_wf(disk, sb, rec));
                assert(in_use(disk, sb, ib));
                assert(refers(disk, sb, rec, ib));
                if indirect_of(m) == Some(ib) {
                    assert(refers(disk, sb, mine, ib));
                }
                assert(r.disk[ib as int] == disk[ib as int]);
            },
            None => {},
        }
        lemma_block_of_geometry(disk, sb, r.sb, rec, k);
        lemma_block_of_frame(r.disk, disk, r.sb, rec, rec, k);
    }
    lemma_refers_same(disk, sb, rec, r.disk, r.sb, rec, x);
}

/// Another inode in use has sound blocks after blocks were allocated to an
/// inode.
proof fn lemma_other_file_wf(disk: Seq<Seq<u8>>, sb: SuperBlock, m: InodeModel, off: u64, id: u32)
    requires
        consistent(disk, sb),
        current(disk, sb, m),
        spec_bmap(disk, sb, m, off, true).res is Ok,
        inode_used(disk, sb, id),
        id != m.id,
        record(disk, sb, id).block_ptrs() is Some,
    ensures
        ({
            let r = spec_bmap(disk, sb, m, off, true);
            file_wf(r.disk, r.sb, record(disk, sb, id))
        }),
{
    let r = spec_bmap(disk, sb, m, off, true);
    let rec = record(disk, sb, id);
    lemma_file_wf_ptrs(disk, sb, record(disk, sb, m.id), m);
    lemma_bmap_create(disk, sb, m, off);
    lemma_other_refers(disk, sb, m, off, id, 0);
    assert(file_wf(disk, sb, rec));
    assert forall|k: int| 0 <= k < 140 implies ((#[trigger] block_of(r.disk, r.sb, rec, k)) matches Some(
        bk,
    ) ==> in_use(r.disk, r.sb, bk) && Some(bk) != indirect_of(rec)) by {
        assert(block_of(r.disk, r.sb, rec, k) == block_of(disk, sb, rec, k));
        match block_of(disk, sb, rec, k) {
            Some(bk) => {
                assert(in_use(disk, sb, bk));
            },
            None => {},
        }
    }
    assert forall|k1: int, k2: int|
        0 <= k1 < k2 < 140 && (#[trigger] block_of(r.disk, r.sb, rec, k1)) is Some implies block_of(
        r.disk,
        r.sb,
        rec,
        k1,
    ) != #[trigger] block_of(r.disk, r.sb, rec, k2) by {
        assert(block_of(r.disk, r.sb, rec, k1) == block_of(disk, sb, rec, k1));
        assert(block_of(r.disk, r.sb, rec, k2) == block_of(disk, sb, rec, k2));
    }
    match indirect_of(rec) {
        Some(ib) => {
            assert(in_use(disk, sb, ib));
        },
        None => {},
    }
}

/// No two inodes in use point to one block after blocks were allocated to
/// an inode.
proof fn lemma_keeps_apart(
    disk: Seq<Seq<u8>>,
    sb: SuperBlock,
    m: InodeModel,
    off: u64,
    id1: u32,
    id2: u32,
    x: u32,
)
    requires
        consistent(disk, sb),
        current(disk, sb, m),
        spec_bmap(disk, sb, m, off, true).res is Ok,
        inode_used(disk, sb, id1),
        inode_used(disk, sb, id2),
        id1 != id2,
    ensures
        ({
            let r = spec_bmap(disk, sb, m, off, true);
            refers(r.disk, r.sb, record(r.disk, r.sb, id1), x) ==> !refers(
                r.disk,
                r.sb,
                record(r.disk, r.sb, id2),
                x,
            )
        }),
{
    let r = spec_bmap(disk, sb, m, off, true);
    let mine = record(disk, sb, m.id);
    lemma_file_wf_ptrs(disk, sb, mine, m);
    lemma_bmap_create(disk, sb, m, off);
    lemma_mapped_file_wf(disk, sb, m, off, r);
    lemma_bmap_records(disk, sb, m, off, id1);
    lemma_bmap_records(disk, sb, m, off, id2);
    lemma_bmap_records(disk, sb, m, off, m.id);
    lemma_file_wf_ptrs(r.disk, r.sb, r.inode, record(r.disk, r.sb, m.id));
    if id1 != m.id {
        lemma_other_refers(disk, sb, m, off, id1, x);
    }
    if id2 != m.id {
        lemma_other_refers(disk, sb, m, off, id2, x);
    }
    if refers(r.disk, r.sb, record(r.disk, r.sb, id1), x) && refers(
        r.disk,
        r.sb,
        record(r.disk, r.sb, id2),
        x,
    ) {
        if id1 == m.id {
            // The other inode pointed to the block before, so it was in use,
            // and the inode itself pointed to it before.
            assert(refers(disk, sb, record(disk, sb, id2), x));
            lemma_refers_in_use(disk, sb, record(disk, sb, id2), x);
            assert(refers(r.disk, r.sb, r.inode, x));
            assert(refers(disk, sb, m, x));
            assert(refers(disk, sb, mine, x));
        } else if id2 == m.id {
            assert(refers(disk, sb, record(disk, sb, id1), x));
            lemma_refers_in_use(disk, sb, record(disk, sb, id1), x);
            assert(refers(r.disk, r.sb, r.inode, x));
            assert(refers(disk, sb, m, x));
            assert(refers(disk, sb, mine, x));
        } else {
            assert(refers(disk, sb, record(disk, sb, id1), x));
        }
    }
}

/// A block that a file with sound blocks points to is marked as used.
pub proof fn lemma_refers_in_use(disk: Seq<Seq<u8>>, sb: SuperBlock, m: InodeModel, x: u32)
    requires
        m.block_ptrs() is Some ==> file_wf(disk, sb, m),
        refers(disk, sb, m, x),
    ensures
        in_use(disk, sb, x),
        m.block_ptrs() is Some,
{
    reveal(crate::inode::spec_bmap_lookup);
    if indirect_of(m) != Some(x) {
        let k = choose|k: int| 0 <= k < 140 && #[trigger] block_of(disk, sb, m, k) == Some(x);
        assert(block_of(disk, sb, m, k) is Some);
    }
}

/// Every block marked as used is pointed to by an inode in use after blocks
/// were allocated to an inode.
proof fn lemma_keeps_covered(disk: Seq<Seq<u8>>, sb: SuperBlock, m: InodeModel, off: u64, x: u32)
    requires
        consistent(disk, sb),
        current(disk, sb, m),
        spec_bmap(disk, sb, m, off, true).res is Ok,
        in_use(spec_bmap(disk, sb, m, off, true).disk, spec_bmap(disk, sb, m, off, true).sb, x),
    ensures
        ({
            let r = spec_bmap(disk, sb, m, off, true);
            exists|id: u32|
                inode_used(disk, sb, id) && #[trigger] refers(
                    r.disk,
                    r.sb,
                    record(r.disk, r.sb, id),
                    x,
                )
        }),
{
    let r = spec_bmap(disk, sb, m, off, true);
    let mine = record(disk, sb, m.id);
    lemma_file_wf_ptrs(disk, sb, mine, m);
    lemma_bmap_create(disk, sb, m, off);
    lemma_mapped_file_wf(disk, sb, m, off, r);
    lemma_bmap_records(disk, sb, m, off, m.id);
    lemma_file_wf_ptrs(r.disk, r.sb, r.inode, record(r.disk, r.sb, m.id));
    if in_use(disk, sb, x) {
        let id = choose|id: u32|
            inode_used(disk, sb, id) && #[trigger] refers(disk, sb, record(disk, sb, id), x);
        if id == m.id {
            assert(refers(disk, sb, m, x));
            assert(refers(r.disk, r.sb, r.inode, x));
            assert(refers(r.disk, r.sb, record(r.disk, r.sb, m.id), x));
        } else {
            lemma_bmap_records(disk, sb, m, off, id);
            lemma_other_refers(disk, sb, m, off, id, x);
            assert(refers(r.disk, r.sb, record(r.disk, r.sb, id), x));
        }
    } else {
        // The block was allocated to the inode.
        let idx = off as int / 512;
        let bn = r.res->Ok_0;
        if x == bn {
            assert(block_of(r.disk, r.sb, r.inode, idx) == Some(x));
        }
        assert(refers(r.disk, r.sb, r.inode, x));
        assert(refers(r.disk, r.sb, record(r.disk, r.sb, m.id), x));
    }
}

/// A record that is read from the inode table is well formed.
pub proof fn lemma_get_wf(disk: Seq<Seq<u8>>, sb: SuperBlock, id: u32)
    requires
        crate::superblock::mounted(disk, sb),
    ensures
        spec_get_inode(disk, sb, id) matches Ok(m) ==> m.wf(),
{
    reveal(spec_get_inode);
    if id < sb.num_inodes {
        crate::inode::lemma_inode_slot(sb, id);
        crate::bitmap::lemma_layout(sb);
        crate::inode::lemma_decode_wf(crate::inode::inode_record(disk, sb, id));
    }
}

/// Whether the second disk has the bitmaps of the first, and for each inode
/// in use a record with the same block pointers and the same block of
/// indirect pointers.
pub open spec fn same_blocks(d1: Seq<Seq<u8>>, sb1: SuperBlock, d2: Seq<Seq<u8>>, sb2: SuperBlock)
    -> bool {
    &&& crate::superblock::same_geometry(sb2, sb1)
    &&& forall|x: u32| #[trigger] in_use(d2, sb2, x) == in_use(d1, sb1, x)
    &&& forall|id: u32| #[trigger] inode_used(d2, sb2, id) == inode_used(d1, sb1, id)
    &&& forall|id: u32| #[trigger]
        inode_used(d1, sb1, id) ==> spec_get_inode(d2, sb2, id) is Ok && record(
            d2,
            sb2,
            id,
        ).block_ptrs() == record(d1, sb1, id).block_ptrs() && (indirect_of(
            record(d1, sb1, id),
        ) matches Some(ib) ==> d2[ib as int] == d1[ib as int])
}

/// A change that keeps the bitmaps, the block pointers of the inodes in
/// use and their blocks of indirect pointers keeps the data bitmap and the
/// block pointers in agreement.
pub proof fn lemma_consistent_frame(
    d1: Seq<Seq<u8>>,
    sb1: SuperBlock,
    d2: Seq<Seq<u8>>,
    sb2: SuperBlock,
)
    requires
        consistent(d1, sb1),
        crate::bitmap::formatted(d2, sb2),
        same_blocks(d1, sb1, d2, sb2),
    ensures
        consistent(d2, sb2),
{
    assert forall|id: u32, x: u32| #[trigger]
        inode_used(d1, sb1, id) implies #[trigger] refers(d2, sb2, record(d2, sb2, id), x)
        == refers(d1, sb1, record(d1, sb1, id), x) by {
        lemma_frame_refers(d1, sb1, d2, sb2, id, x);
    }
    assert forall|id: u32| #[trigger]
        inode_used(d2, sb2, id) implies spec_get_inode(d2, sb2, id) is Ok && (record(
        d2,
        sb2,
        id,
    ).block_ptrs() is Some ==> file_wf(d2, sb2, record(d2, sb2, id))) by {
        assert(inode_used(d1, sb1, id));
        if record(d2, sb2, id).block_ptrs() is Some {
            lemma_frame_file_wf(d1, sb1, d2, sb2, id);
        }
    }
    assert forall|id1: u32, id2: u32, x: u32|
        inode_used(d2, sb2, id1) && inode_used(d2, sb2, id2) && id1 != id2 && #[trigger] refers(
            d2,
            sb2,
            record(d2, sb2, id1),
            x,
        ) implies !#[trigger] refers(d2, sb2, record(d2, sb2, id2), x) by {
        assert(inode_used(d1, sb1, id1));
        assert(inode_used(d1, sb1, id2));
        assert(refers(d1, sb1, record(d1, sb1, id1), x));
        assert(refers(d2, sb2, record(d2, sb2, id2), x) == refers(
            d1,
            sb1,
            record(d1, sb1, id2),
            x,
        ));
    }
    assert forall|x: u32| #[trigger] in_use(d2, sb2, x) implies exists|id: u32|
        inode_used(d2, sb2, id) && #[trigger] refers(d2, sb2, record(d2, sb2, id), x) by {
        assert(in_use(d1, sb1, x));
        let id = choose|id: u32|
            inode_used(d1, sb1, id) && #[trigger] refers(d1, sb1, record(d1, sb1, id), x);
        assert(inode_used(d2, sb2, id));
        assert(refers(d2, sb2, record(d2, sb2, id), x));
    }
}

/// Under `same_blocks` an inode in use maps the same blocks.
proof fn lemma_frame_blocks(
    d1: Seq<Seq<u8>>,
    sb1: SuperBlock,
    d2: Seq<Seq<u8>>,
    sb2: SuperBlock,
    id: u32,
)
    requires
        same_blocks(d1, sb1, d2, sb2),
        inode_used(d1, sb1, id),
    ensures
        indirect_of(record(d2, sb2, id)) == indirect_of(record(d1, sb1, id)),
        forall|k: int|
            0 <= k < 140 ==> #[trigger] block_of(d2, sb2, record(d2, sb2, id), k) == block_of(
                d1,
                sb1,
                record(d1, sb1, id),
                k,
            ),
{
    let r1 = record(d1, sb1, id);
    let r2 = record(d2, sb2, id);
    assert forall|k: int| 0 <= k < 140 implies #[trigger] block_of(d2, sb2, r2, k) == block_of(
        d1,
        sb1,
        r1,
        k,
    ) by {
        lemma_block_of_geometry(d1, sb1, sb2, r1, k);
        lemma_block_of_frame(d2, d1, sb2, r2, r1, k);
    }
}

/// Under `same_blocks` an inode in use points to the same blocks.
proof fn lemma_frame_refers(
    d1: Seq<Seq<u8>>,
    sb1: SuperBlock,
    d2: Seq<Seq<u8>>,
    sb2: SuperBlock,
    id: u32,
    x: u32,
)
    requires
        same_blocks(d1, sb1, d2, sb2),
        inode_used(d1, sb1, id),
    ensures
        refers(d2, sb2, record(d2, sb2, id), x) == refers(d1, sb1, record(d1, sb1, id), x),
{
    lemma_frame_blocks(d1, sb1, d2, sb2, id);
    lemma_refers_same(d1, sb1, record(d1, sb1, id), d2, sb2, record(d2, sb2, id), x);
}

/// Under `same_blocks` an inode in use keeps sound blocks.
proof fn lemma_frame_file_wf(
    d1: Seq<Seq<u8>>,
    sb1: SuperBlock,
    d2: Seq<Seq<u8>>,
    sb2: SuperBlock,
    id: u32,
)
    requires
        consistent(d1, sb1),
        crate::bitmap::formatted(d2, sb2),
        same_blocks(d1, sb1, d2, sb2),
        inode_used(d1, sb1, id),
        record(d2, sb2, id).block_ptrs() is Some,
    ensures
        file_wf(d2, sb2, record(d2, sb2, id)),
{
    let r1 = record(d1, sb1, id);
    let r2 = record(d2, sb2, id);
    lemma_frame_blocks(d1, sb1, d2, sb2, id);
    lemma_get_wf(d2, sb2, id);
    assert(file_wf(d1, sb1, r1));
    assert forall|k: int| 0 <= k < 140 implies ((#[trigger] block_of(d2, sb2, r2, k)) matches Some(
        bk,
    ) ==> in_use(d2, sb2, bk) && Some(bk) != indirect_of(r2)) by {
        assert(block_of(d2, sb2, r2, k) == block_of(d1, sb1, r1, k));
        match block_of(d1, sb1, r1, k) {
            Some(bk) => {
                assert(in_use(d1, sb1, bk));
            },
            None => {},
        }
    }
    assert forall|k1: int, k2: int|
        0 <= k1 < k2 < 140 && (#[trigger] block_of(d2, sb2, r2, k1)) is Some implies block_of(
        d2,
        sb2,
        r2,
        k1,
    ) != #[trigger] block_of(d2, sb2, r2, k2) by {
        assert(block_of(d2, sb2, r2, k1) == block_of(d1, sb1, r1, k1));
        assert(block_of(d2, sb2, r2, k2) == block_of(d1, sb1, r1, k2));
    }
    match indirect_of(r1) {
        Some(ib) => {
            assert(in_use(d1, sb1, ib));
        },
        None => {},
    }
}

/// Writing to a block of data of an inode in use keeps the data bitmap and
/// the block pointers in agreement.
pub proof fn lemma_data_write_keeps(
    disk: Seq<Seq<u8>>,
    sb: SuperBlock,
    m: InodeModel,
    k: int,
    data: Seq<u8>,
)
    requires
        consistent(disk, sb),
        current(disk, sb, m),
        0 <= k < 140,
        block_of(disk, sb, m, k) is Some,
        data.len() == 512,
    ensures
        consistent(disk.update(block_of(disk, sb, m, k)->0 as int, data), sb),
        current(disk.update(block_of(disk, sb, m, k)->0 as int, data), sb, m),
        others_kept(disk, sb, disk.update(block_of(disk, sb, m, k)->0 as int, data), sb, m.id),
{
    let b = block_of(disk, sb, m, k)->0;
    let d2 = disk.update(b as int, data);
    let mine = record(disk, sb, m.id);
    lemma_file_wf_ptrs(disk, sb, mine, m);
    crate::bitmap::lemma_layout(sb);
    assert(in_use(disk, sb, b));
    crate::bitmap::lemma_formatted_update(disk, sb, b as int, data);
    assert(refers(disk, sb, m, b));
    assert(refers(disk, sb, mine, b));
    assert forall|x: u32| #[trigger] in_use(d2, sb, x) == in_use(disk, sb, x) by {
        crate::dir_laws::lemma_in_use_frame(d2, disk, sb, x);
    }
    assert forall|id: u32| #[trigger] inode_used(d2, sb, id) == inode_used(disk, sb, id) by {
        crate::tree_laws::lemma_inode_used_frame(disk, sb, d2, sb, id);
    }
    assert forall|id: u32| #[trigger]
        inode_used(disk, sb, id) implies spec_get_inode(d2, sb, id) is Ok && record(
        d2,
        sb,
        id,
    ).block_ptrs() == record(disk, sb, id).block_ptrs() && (indirect_of(
        record(disk, sb, id),
    ) matches Some(ib) ==> d2[ib as int] == disk[ib as int]) by {
        lemma_get_frame(disk, sb, d2, sb, id);
        match indirect_of(record(disk, sb, id)) {
            Some(ib) => {
                assert(refers(disk, sb, record(disk, sb, id), ib));
                if ib == b {
                    if id == m.id {
                        assert(indirect_of(m) == Some(b));
                    }
                }
            },
            None => {},
        }
    }
    lemma_consistent_frame(disk, sb, d2, sb);
    lemma_get_frame(disk, sb, d2, sb, m.id);
    assert forall|x: u32| x != m.id implies #[trigger] spec_get_inode(d2, sb, x) == spec_get_inode(
        disk,
        sb,
        x,
    ) by {
        lemma_get_frame(disk, sb, d2, sb, x);
    }
}

/// Writing an inode in use with the block pointers that it has on disk
/// keeps the data bitmap and the block pointers in agreement.
pub proof fn lemma_write_inode_keeps(disk: Seq<Seq<u8>>, sb: SuperBlock, m: InodeModel, m2: InodeModel)
    requires
        consistent(disk, sb),
        current(disk, sb, m),
        m2.id == m.id,
        m2.block_ptrs() == m.block_ptrs(),
        m2.wf(),
    ensures
        crate::inode::spec_write_inode(disk, sb, m2).res is Ok,
        consistent(crate::inode::spec_write_inode(disk, sb, m2).disk, sb),
        current(crate::inode::spec_write_inode(disk, sb, m2).disk, sb, m2),
        others_kept(disk, sb, crate::inode::spec_write_inode(disk, sb, m2).disk, sb, m.id),
        crate::inode::spec_write_inode(disk, sb, m2).sb == sb,
{
    let w = crate::inode::spec_write_inode(disk, sb, m2);
    lemma_write_inode_formatted(disk, sb, m2);
    crate::bitmap::lemma_layout(sb);
    lemma_write_get(disk, sb, m2, m.id);
    assert forall|id: u32| #[trigger] inode_used(w.disk, sb, id) == inode_used(disk, sb, id) by {
        crate::tree_laws::lemma_inode_used_frame(disk, sb, w.disk, sb, id);
    }
    assert forall|id: u32| #[trigger]
        inode_used(disk, sb, id) implies spec_get_inode(w.disk, sb, id) is Ok && record(
        w.disk,
        sb,
        id,
    ).block_ptrs() == record(disk, sb, id).block_ptrs() && (indirect_of(
        record(disk, sb, id),
    ) matches Some(ib) ==> w.disk[ib as int] == disk[ib as int]) by {
        lemma_write_get(disk, sb, m2, id);
        match indirect_of(record(disk, sb, id)) {
            Some(ib) => {
                assert(refers(disk, sb, record(disk, sb, id), ib));
                lemma_refers_in_use(disk, sb, record(disk, sb, id), ib);
            },
            None => {},
        }
    }
    lemma_consistent_frame(disk, sb, w.disk, sb);
    assert forall|x: u32| x != m.id implies #[trigger] spec_get_inode(w.disk, sb, x)
        == spec_get_inode(disk, sb, x) by {
        lemma_write_get(disk, sb, m2, x);
    }
}

/// The block by block part of a write to an inode in use keeps the data
/// bitmap and the block pointers in agreement.
pub proof fn lemma_fwrite_from_keeps(
    disk: Seq<Seq<u8>>,
    sb: SuperBlock,
    m: InodeModel,
    offset: int,
    data: Seq<u8>,
    done: int,
)
    requires
        consistent(disk, sb),
        current(disk, sb, m),
        0 <= offset,
        0 <= done <= data.len(),
        offset + done <= u64::MAX,
        crate::file::spec_fwrite_from(disk, sb, m, offset, data, done).res is Ok,
    ensures
        ({
            let s = crate::file::spec_fwrite_from(disk, sb, m, offset, data, done);
            &&& consistent(s.disk, s.sb)
            &&& current(s.disk, s.sb, s.inode)
            &&& s.inode.id == m.id
            &&& others_kept(disk, sb, s.disk, s.sb, m.id)
            &&& crate::superblock::same_geometry(s.sb, sb)
        }),
    decreases data.len() - done,
{
    if done < data.len() {
        let cur = offset + done;
        let off = (cur / 512 * 512) as u64;
        let idx = cur / 512;
        let a = spec_bmap(disk, sb, m, off, true);
        lemma_file_wf_ptrs(disk, sb, record(disk, sb, m.id), m);
        lemma_bmap_create(disk, sb, m, off);
        lemma_bmap_keeps(disk, sb, m, off);
        assert(off as int / 512 == idx);
        let b = a.res->Ok_0;
        let len = crate::file::chunk_len(cur, data.len() as int, done);
        let nb = crate::codec::splice(a.disk[b as int], cur % 512, data.subrange(done, done + len));
        crate::bitmap::lemma_layout(a.sb);
        lemma_data_write_keeps(a.disk, a.sb, a.inode, idx, nb);
        let d2 = a.disk.update(b as int, nb);
        assert(cur + len <= 71680);
        lemma_fwrite_from_keeps(d2, a.sb, a.inode, offset, data, done + len);
    }
}

/// A write to a file that is an inode in use keeps the data bitmap and the
/// block pointers in agreement: after `fwrite` every block that an inode in
/// use points to is marked as used, and every block marked as used is
/// pointed to once.
pub proof fn lemma_fwrite_keeps(
    disk: Seq<Seq<u8>>,
    sb: SuperBlock,
    m: InodeModel,
    offset: int,
    data: Seq<u8>,
)
    requires
        consistent(disk, sb),
        current(disk, sb, m),
        0 <= offset <= u64::MAX,
        crate::file::spec_fwrite(disk, sb, m, offset, data).res is Ok,
    ensures
        ({
            let s = crate::file::spec_fwrite(disk, sb, m, offset, data);
            &&& consistent(s.disk, s.sb)
            &&& current(s.disk, s.sb, s.inode)
            &&& others_kept(disk, sb, s.disk, s.sb, m.id)
            &&& s.inode.id == m.id
            &&& data.len() > 0 ==> spec_get_inode(s.disk, s.sb, m.id) == Ok::<InodeModel, FsError>(
                s.inode,
            )
            &&& data.len() == 0 ==> s.disk == disk && s.sb == sb && s.inode == m
            &&& crate::superblock::same_geometry(s.sb, sb)
        }),
{
    reveal(crate::file::spec_fwrite);
    if data.len() > 0 {
        let s = crate::file::spec_fwrite_from(disk, sb, m, offset, data, 0);
        lemma_fwrite_from_keeps(disk, sb, m, offset, data, 0);
        let m1 = if offset + data.len() > s.inode.size {
            InodeModel { size: (offset + data.len()) as u64, ..s.inode }
        } else {
            s.inode
        };
        lemma_write_inode_keeps(s.disk, s.sb, s.inode, m1);
        lemma_write_inode_formatted(s.disk, s.sb, m1);
        lemma_write_get(s.disk, s.sb, m1, m.id);
    }
}

/// Adding an entry to a directory that is an inode in use keeps the data
/// bitmap and the block pointers in agreement.
pub proof fn lemma_add_keeps_consistent(
    disk: Seq<Seq<u8>>,
    sb: SuperBlock,
    m: InodeModel,
    e: EntryModel,
)
    requires
        consistent(disk, sb),
        current(disk, sb, m),
        crate::directory::spec_dir_add_entry(disk, sb, m, e).res is Ok,
    ensures
        ({
            let s = crate::directory::spec_dir_add_entry(disk, sb, m, e);
            &&& consistent(s.disk, s.sb)
            &&& current(s.disk, s.sb, s.inode)
            &&& s.inode.id == m.id
            &&& forall|id: u32| #[trigger] inode_used(s.disk, s.sb, id) == inode_used(disk, sb, id)
            &&& others_kept(disk, sb, s.disk, s.sb, m.id)
            &&& spec_get_inode(s.disk, s.sb, m.id) == Ok::<InodeModel, FsError>(s.inode)
            &&& crate::superblock::same_geometry(s.sb, sb)
        }),
{
    reveal(crate::directory::spec_dir_add_entry);
    reveal(crate::directory::spec_dir_insert);
    lemma_file_wf_ptrs(disk, sb, record(disk, sb, m.id), m);
    crate::bitmap::lemma_layout(sb);
    let s = crate::directory::spec_dir_add_entry(disk, sb, m, e);
    match crate::directory::spec_dir_scan(disk, sb, m, e.name, true, 0) {
        Ok(Some((b, j))) => {
            let at = crate::dir_laws::lemma_scan_some(disk, sb, m, e.name, true, 0);
            lemma_at_range(disk, sb, m, at);
            let m1 = InodeModel { size: (m.size + 64) as u64, ..m };
            lemma_write_inode_keeps(disk, sb, m, m1);
            let w = crate::inode::spec_write_inode(disk, sb, m1);
            lemma_write_inode_formatted(disk, sb, m1);
            assert(in_use(disk, sb, b));
            match indirect_of(m) {
                Some(ib) => {
                    assert(in_use(disk, sb, ib));
                },
                None => {},
            }
            lemma_block_of_frame(w.disk, disk, sb, m1, m, at);
            let nb = crate::directory::with_entry(disk[b as int], j, e);
            lemma_data_write_keeps(w.disk, sb, m1, at, nb);
            assert forall|id: u32| #[trigger]
                inode_used(s.disk, s.sb, id) == inode_used(disk, sb, id) by {
                crate::tree_laws::lemma_inode_used_frame(disk, sb, s.disk, s.sb, id);
            }
            lemma_write_get(disk, sb, m1, m.id);
            lemma_get_frame(w.disk, sb, s.disk, s.sb, m.id);
        },
        _ => {
            let a = spec_bmap(disk, sb, m, m.size, true);
            lemma_bmap_create(disk, sb, m, m.size);
            lemma_bmap_keeps(disk, sb, m, m.size);
            let bn = a.res->Ok_0;
            let idx = m.size as int / 512;
            let m1 = InodeModel { size: (m.size + 64) as u64, ..a.inode };
            crate::bitmap::lemma_layout(a.sb);
            lemma_write_inode_keeps(a.disk, a.sb, a.inode, m1);
            let w = crate::inode::spec_write_inode(a.disk, a.sb, m1);
            lemma_write_inode_formatted(a.disk, a.sb, m1);
            match indirect_of(a.inode) {
                Some(ib) => {
                    assert(in_use(a.disk, a.sb, ib));
                },
                None => {},
            }
            lemma_block_of_frame(w.disk, a.disk, a.sb, m1, a.inode, idx);
            let nb = crate::directory::with_entry(a.disk[bn as int], 0, e);
            lemma_data_write_keeps(w.disk, a.sb, m1, idx, nb);
            assert forall|id: u32| #[trigger]
                inode_used(s.disk, s.sb, id) == inode_used(a.disk, a.sb, id) by {
                crate::tree_laws::lemma_inode_used_frame(a.disk, a.sb, s.disk, s.sb, id);
            }
            lemma_write_get(a.disk, a.sb, m1, m.id);
            lemma_get_frame(w.disk, a.sb, s.disk, s.sb, m.id);
        },
    }
}

/// A block index at which a file has a block is less than 140.
pub proof fn lemma_at_range(disk: Seq<Seq<u8>>, sb: SuperBlock, m: InodeModel, k: int)
    requires
        0 <= k < 0x1_0000_0000,
        block_of(disk, sb, m, k) is Some,
    ensures
        k < 140,
{
    reveal(crate::inode::spec_bmap_lookup);
}

/// Removing an entry from a directory that is an inode in use keeps the
/// data bitmap and the block pointers in agreement.
pub proof fn lemma_rm_keeps_consistent(
    disk: Seq<Seq<u8>>,
    sb: SuperBlock,
    m: InodeModel,
    name: Seq<u8>,
)
    requires
        consistent(disk, sb),
        current(disk, sb, m),
        crate::directory::spec_dir_rm_entry(disk, sb, m, name).res is Ok,
    ensures
        ({
            let s = crate::directory::spec_dir_rm_entry(disk, sb, m, name);
            &&& consistent(s.disk, s.sb)
            &&& current(s.disk, s.sb, s.inode)
            &&& s.inode.id == m.id
            &&& forall|id: u32| #[trigger] inode_used(s.disk, s.sb, id) == inode_used(disk, sb, id)
            &&& others_kept(disk, sb, s.disk, s.sb, m.id)
            &&& s.inode.block_ptrs() == m.block_ptrs()
            &&& spec_get_inode(s.disk, s.sb, m.id) == Ok::<InodeModel, FsError>(s.inode)
            &&& s.sb == sb
        }),
{
    reveal(crate::directory::spec_dir_rm_entry);
    lemma_file_wf_ptrs(disk, sb, record(disk, sb, m.id), m);
    crate::bitmap::lemma_layout(sb);
    let s = crate::directory::spec_dir_rm_entry(disk, sb, m, name);
    let at = crate::dir_laws::lemma_scan_some(disk, sb, m, name, false, 0);
    lemma_at_range(disk, sb, m, at);
    let (b, j) = crate::directory::spec_dir_scan(disk, sb, m, name, false, 0)->Ok_0->0;
    let m1 = InodeModel { size: (m.size - 64) as u64, ..m };
    lemma_write_inode_keeps(disk, sb, m, m1);
    let w = crate::inode::spec_write_inode(disk, sb, m1);
    lemma_write_inode_formatted(disk, sb, m1);
    assert(in_use(disk, sb, b));
    match indirect_of(m) {
        Some(ib) => {
            assert(in_use(disk, sb, ib));
        },
        None => {},
    }
    lemma_block_of_frame(w.disk, disk, sb, m1, m, at);
    let nb = crate::directory::with_entry(disk[b as int], j, EntryModel::null());
    lemma_data_write_keeps(w.disk, sb, m1, at, nb);
    assert forall|id: u32| #[trigger] inode_used(s.disk, s.sb, id) == inode_used(disk, sb, id) by {
        crate::tree_laws::lemma_inode_used_frame(disk, sb, s.disk, s.sb, id);
    }
    lemma_write_get(disk, sb, m1, m.id);
    lemma_get_frame(w.disk, sb, s.disk, s.sb, m.id);
}

/// The allocation of an inode keeps the data bitmap and the block pointers
/// in agreement: the new inode points to no block.
pub proof fn lemma_alloc_inode_keeps(disk: Seq<Seq<u8>>, sb: SuperBlock, ftype: FileType, mode: Mode)
    requires
        consistent(disk, sb),
        crate::inode::spec_alloc_inode(disk, sb, ftype, mode).res is Ok,
    ensures
        ({
            let a = crate::inode::spec_alloc_inode(disk, sb, ftype, mode);
            &&& consistent(a.disk, a.sb)
            &&& a.res->Ok_0.block_ptrs() is Some ==> current(a.disk, a.sb, a.res->Ok_0)
        }),
{
    let a = crate::inode::spec_alloc_inode(disk, sb, ftype, mode);
    crate::inode_laws::lemma_alloc_inode(disk, sb, ftype, mode);
    crate::bitmap::lemma_layout(sb);
    let m0 = a.res->Ok_0;
    assert(crate::structs::BlockPtrModel::empty().wf());
    assert(m0.wf());
    // The new inode points to nothing.
    assert forall|x: u32| !refers(a.disk, a.sb, m0, x) by {
        lemma_fresh_refers(a.disk, a.sb, m0, x);
    }
    if m0.block_ptrs() is Some {
        lemma_fresh_file_wf(a.disk, a.sb, m0);
    }
    // The other inodes are as they were.
    assert forall|id: u32, x: u32| #[trigger]
        inode_used(disk, sb, id) implies #[trigger] refers(a.disk, a.sb, record(disk, sb, id), x)
        == refers(disk, sb, record(disk, sb, id), x) && (record(disk, sb, id).block_ptrs()
        is Some ==> file_wf(a.disk, a.sb, record(disk, sb, id))) by {
        lemma_alloc_inode_other(disk, sb, ftype, mode, id, x);
    }
    assert forall|id: u32| #[trigger]
        inode_used(a.disk, a.sb, id) implies spec_get_inode(a.disk, a.sb, id) is Ok && (record(
        a.disk,
        a.sb,
        id,
    ).block_ptrs() is Some ==> file_wf(a.disk, a.sb, record(a.disk, a.sb, id))) by {
        if id != m0.id {
            assert(inode_used(disk, sb, id));
            assert(refers(a.disk, a.sb, record(disk, sb, id), 0) == refers(
                disk,
                sb,
                record(disk, sb, id),
                0,
            ));
        }
    }
    assert forall|id1: u32, id2: u32, x: u32|
        inode_used(a.disk, a.sb, id1) && inode_used(a.disk, a.sb, id2) && id1 != id2
            && #[trigger] refers(a.disk, a.sb, record(a.disk, a.sb, id1), x) implies !#[trigger] refers(
        a.disk,
        a.sb,
        record(a.disk, a.sb, id2),
        x,
    ) by {
        if id1 != m0.id && id2 != m0.id {
            assert(inode_used(disk, sb, id1));
            assert(inode_used(disk, sb, id2));
            assert(refers(disk, sb, record(disk, sb, id1), x));
            assert(refers(a.disk, a.sb, record(disk, sb, id2), x) == refers(
                disk,
                sb,
                record(disk, sb, id2),
                x,
            ));
        }
    }
    assert forall|x: u32| #[trigger] in_use(a.disk, a.sb, x) implies exists|id: u32|
        inode_used(a.disk, a.sb, id) && #[trigger] refers(
            a.disk,
            a.sb,
            record(a.disk, a.sb, id),
            x,
        ) by {
        assert(in_use(disk, sb, x));
        let id = choose|id: u32|
            inode_used(disk, sb, id) && #[trigger] refers(disk, sb, record(disk, sb, id), x);
        assert(id != m0.id);
        assert(inode_used(a.disk, a.sb, id));
        assert(refers(a.disk, a.sb, record(disk, sb, id), x));
        assert(refers(a.disk, a.sb, record(a.disk, a.sb, id), x));
    }
}

/// An inode that was just allocated points to no block.
proof fn lemma_fresh_refers(disk: Seq<Seq<u8>>, sb: SuperBlock, m: InodeModel, x: u32)
    requires
        m == InodeModel::fresh(m.ftype, m.mode, m.id),
    ensures
        !refers(disk, sb, m, x),
{
    reveal(crate::inode::spec_bmap_lookup);
    assert forall|k: int| 0 <= k < 140 implies (#[trigger] block_of(disk, sb, m, k)) is None by {}
}

/// An inode that was just allocated has sound blocks.
proof fn lemma_fresh_file_wf(disk: Seq<Seq<u8>>, sb: SuperBlock, m: InodeModel)
    requires
        m == InodeModel::fresh(m.ftype, m.mode, m.id),
        m.block_ptrs() is Some,
    ensures
        file_wf(disk, sb, m),
{
    reveal(crate::inode::spec_bmap_lookup);
    assert(crate::structs::BlockPtrModel::empty().wf());
    assert forall|k: int| 0 <= k < 140 implies (#[trigger] block_of(disk, sb, m, k)) is None by {}
}

/// The allocation of an inode changes nothing of what another inode in
/// use points to.
proof fn lemma_alloc_inode_other(
    disk: Seq<Seq<u8>>,
    sb: SuperBlock,
    ftype: FileType,
    mode: Mode,
    id: u32,
    x: u32,
)
    requires
        consistent(disk, sb),
        crate::inode::spec_alloc_inode(disk, sb, ftype, mode).res is Ok,
        inode_used(disk, sb, id),
    ensures
        ({
            let a = crate::inode::spec_alloc_inode(disk, sb, ftype, mode);
            &&& refers(a.disk, a.sb, record(disk, sb, id), x) == refers(
                disk,
                sb,
                record(disk, sb, id),
                x,
            )
            &&& record(disk, sb, id).block_ptrs() is Some ==> file_wf(
                a.disk,
                a.sb,
                record(disk, sb, id),
            )
        }),
{
    let a = crate::inode::spec_alloc_inode(disk, sb, ftype, mode);
    crate::inode_laws::lemma_alloc_inode(disk, sb, ftype, mode);
    crate::bitmap::lemma_layout(sb);
    let rec = record(disk, sb, id);
    assert forall|k: int| 0 <= k < 140 implies #[trigger] block_of(a.disk, a.sb, rec, k) == block_of(
        disk,
        sb,
        rec,
        k,
    ) by {
        match indirect_of(rec) {
            Some(ib) => {
                assert(file_wf(disk, sb, rec));
                assert(in_use(disk, sb, ib));
            },
            None => {},
        }
        lemma_block_of_geometry(disk, sb, a.sb, rec, k);
        lemma_block_of_frame(a.disk, disk, a.sb, rec, rec, k);
    }
    lemma_refers_same(disk, sb, rec, a.disk, a.sb, rec, x);
    if rec.block_ptrs() is Some {
        assert(file_wf(disk, sb, rec));
        assert forall|k: int| 0 <= k < 140 implies ((#[trigger] block_of(a.disk, a.sb, rec, k)) matches Some(
            bk,
        ) ==> in_use(a.disk, a.sb, bk) && Some(bk) != indirect_of(rec)) by {
            assert(block_of(a.disk, a.sb, rec, k) == block_of(disk, sb, rec, k));
            match block_of(disk, sb, rec, k) {
                Some(bk) => {
                    assert(in_use(disk, sb, bk));
                },
                None => {},
            }
        }
        assert forall|k1: int, k2: int|
            0 <= k1 < k2 < 140 && (#[trigger] block_of(a.disk, a.sb, rec, k1)) is Some implies block_of(
            a.disk,
            a.sb,
            rec,
            k1,
        ) != #[trigger] block_of(a.disk, a.sb, rec, k2) by {
            assert(block_of(a.disk, a.sb, rec, k1) == block_of(disk, sb, rec, k1));
            assert(block_of(a.disk, a.sb, rec, k2) == block_of(disk, sb, rec, k2));
        }
        match indirect_of(rec) {
            Some(ib) => {
                assert(in_use(disk, sb, ib));
            },
            None => {},
        }
    }
}

/// What freeing a data block does: the block is not marked as used any
/// more; no other bit of the data bitmap changes, and nothing of the inode
/// bitmap, the inode table and the data region. A block outside the data
/// region is refused.
pub proof fn lemma_free_data_block(disk: Seq<Seq<u8>>, sb: SuperBlock, b: u32)
    requires
        crate::bitmap::formatted(disk, sb),
    ensures
        ({
            let f = crate::bitmap::spec_free_data_block(disk, sb, b);
            &&& crate::bitmap::formatted(f.disk, f.sb)
            &&& crate::superblock::same_geometry(f.sb, sb)
            &&& f.disk.len() == disk.len()
            &&& f.res is Ok <==> sb.is_data_block(b)
            &&& f.res is Err ==> f.disk == disk && f.sb == sb
            &&& forall|x: int| sb.inode_bitmap_start <= x < disk.len() ==> f.disk[x] == disk[x]
            &&& f.res is Ok ==> (forall|x: u32| #[trigger]
                in_use(f.disk, f.sb, x) == (in_use(disk, sb, x) && x != b))
        }),
{
    reveal(crate::bitmap::spec_free_data_block);
    reveal(crate::bitmap::counts_ok);
    crate::bitmap::lemma_layout(sb);
    let f = crate::bitmap::spec_free_data_block(disk, sb, b);
    if sb.is_data_block(b) {
        let start = sb.data_bitmap_start as int;
        let total = sb.data_blocks();
        let i = b - sb.data_start;
        let d1 = crate::bitmap::with_bit(disk, start, i, false);
        let sb1 = f.sb;
        assert(i / 4096 < sb.data_bitmap_blocks);
        crate::bitmap::lemma_count_bound(disk, start, total as nat, i);
        crate::bitmap::lemma_count_with_bit(disk, start, total as nat, i, false);
        crate::bitmap::lemma_count_frame(
            disk,
            d1,
            sb.inode_bitmap_start as int,
            sb.num_inodes as nat,
        );
        assert(crate::block_dev::blocks_sized(d1));
        assert(crate::bitmap::formatted(d1, sb1));
        crate::layout::lemma_sb_roundtrip(sb1);
        crate::bitmap::lemma_formatted_update(d1, sb1, 0, crate::layout::encode_sb(sb1));
        assert forall|x: u32| #[trigger]
            in_use(f.disk, f.sb, x) == (in_use(disk, sb, x) && x != b) by {
            if sb.is_data_block(x) {
                let ix = x - sb.data_start;
                crate::bitmap::lemma_with_bit(disk, start, i, false, ix);
                assert(ix / 4096 < sb.data_bitmap_blocks);
                assert(f.disk[start + ix / 4096] == d1[start + ix / 4096]);
            }
        }
    }
}

/// Whether `x` is one of the blocks that a list of pointers names from
/// position `k` on.
pub open spec fn named_from(ptrs: Seq<u32>, k: int, x: u32) -> bool {
    exists|j: int| k <= j < ptrs.len() && #[trigger] ptrs[j] == x && x != 0
}

/// What freeing a list of blocks does once it succeeds: the blocks that the
/// list names are not marked as used any more, each of them lies in the data
/// region; no other bit of the data bitmap changes, and nothing of the inode
/// bitmap, the inode table and the data region.
pub proof fn lemma_free_blocks(disk: Seq<Seq<u8>>, sb: SuperBlock, ptrs: Seq<u32>, k: int)
    requires
        crate::bitmap::formatted(disk, sb),
        0 <= k,
        crate::inode::spec_free_blocks(disk, sb, ptrs, k).res is Ok,
    ensures
        ({
            let f = crate::inode::spec_free_blocks(disk, sb, ptrs, k);
            &&& crate::bitmap::formatted(f.disk, f.sb)
            &&& crate::superblock::same_geometry(f.sb, sb)
            &&& f.disk.len() == disk.len()
            &&& forall|x: int| sb.inode_bitmap_start <= x < disk.len() ==> f.disk[x] == disk[x]
            &&& forall|x: u32| #[trigger]
                in_use(f.disk, f.sb, x) == (in_use(disk, sb, x) && !named_from(ptrs, k, x))
            &&& forall|j: int| k <= j < ptrs.len() && #[trigger] ptrs[j] != 0 ==> sb.is_data_block(
                ptrs[j],
            )
        }),
    decreases ptrs.len() - k,
{
    let f = crate::inode::spec_free_blocks(disk, sb, ptrs, k);
    if k < ptrs.len() {
        if ptrs[k] == 0 {
            lemma_free_blocks(disk, sb, ptrs, k + 1);
            assert forall|x: u32| named_from(ptrs, k, x) == named_from(ptrs, k + 1, x) by {
                if named_from(ptrs, k, x) {
                    let j = choose|j: int| k <= j < ptrs.len() && #[trigger] ptrs[j] == x && x != 0;
                    assert(k + 1 <= j < ptrs.len() && ptrs[j] == x);
                }
                if named_from(ptrs, k + 1, x) {
                    let j = choose|j: int|
                        k + 1 <= j < ptrs.len() && #[trigger] ptrs[j] == x && x != 0;
                    assert(k <= j < ptrs.len() && ptrs[j] == x);
                }
            }
        } else {
            let g = crate::bitmap::spec_free_data_block(disk, sb, ptrs[k]);
            lemma_free_data_block(disk, sb, ptrs[k]);
            crate::bitmap::lemma_layout(sb);
            lemma_free_blocks(g.disk, g.sb, ptrs, k + 1);
            assert forall|x: u32| #[trigger]
                in_use(f.disk, f.sb, x) == (in_use(disk, sb, x) && !named_from(ptrs, k, x)) by {
                assert(in_use(f.disk, f.sb, x) == (in_use(g.disk, g.sb, x) && !named_from(
                    ptrs,
                    k + 1,
                    x,
                )));
                assert(in_use(g.disk, g.sb, x) == (in_use(disk, sb, x) && x != ptrs[k]));
                if named_from(ptrs, k, x) {
                    let j = choose|j: int| k <= j < ptrs.len() && #[trigger] ptrs[j] == x && x != 0;
                    if j > k {
                        assert(k + 1 <= j < ptrs.len() && ptrs[j] == x);
                    }
                }
                if named_from(ptrs, k + 1, x) {
                    let j = choose|j: int|
                        k + 1 <= j < ptrs.len() && #[trigger] ptrs[j] == x && x != 0;
                    assert(k <= j < ptrs.len() && ptrs[j] == x);
                }
                if x == ptrs[k] {
                    assert(k <= k < ptrs.len() && ptrs[k] == x);
                }
            }
        }
    }
}

/// What an inode points to, where each of its pointers lies in the data
/// region: the blocks that its direct pointers name, the blocks that its
/// block of indirect pointers names, and that block itself.
pub proof fn lemma_refers_named(disk: Seq<Seq<u8>>, sb: SuperBlock, m: InodeModel, x: u32)
    requires
        m.wf(),
        m.block_ptrs() is Some,
        forall|j: int|
            0 <= j < 12 && #[trigger] crate::inode::direct_codes(m.block_ptrs()->0)[j] != 0
                ==> sb.is_data_block(crate::inode::direct_codes(m.block_ptrs()->0)[j]),
        indirect_of(m) matches Some(ib) ==> sb.is_data_block(ib) && (forall|j: int|
            0 <= j < 128 && #[trigger] crate::inode::indirect_codes(disk[ib as int])[j] != 0
                ==> sb.is_data_block(crate::inode::indirect_codes(disk[ib as int])[j])),
    ensures
        refers(disk, sb, m, x) == (named_from(crate::inode::direct_codes(m.block_ptrs()->0), 0, x)
            || (indirect_of(m) matches Some(ib) && (x == ib || named_from(
            crate::inode::indirect_codes(disk[ib as int]),
            0,
            x,
        )))),
{
    reveal(crate::inode::spec_bmap_lookup);
    let bp = m.block_ptrs()->0;
    let dc = crate::inode::direct_codes(bp);
    assert(bp.wf());
    if refers(disk, sb, m, x) && indirect_of(m) != Some(x) {
        let k = choose|k: int| 0 <= k < 140 && #[trigger] block_of(disk, sb, m, k) == Some(x);
        if k < 12 {
            assert(bp.direct[k] == Some(x));
            assert(dc[k] == x);
            assert(x != 0);
        } else {
            let ib = bp.indirect->0;
            assert(crate::inode::indirect_codes(disk[ib as int])[k - 12] == x);
        }
    }
    if named_from(dc, 0, x) {
        let j = choose|j: int| 0 <= j < dc.len() && #[trigger] dc[j] == x && x != 0;
        assert(bp.direct[j] == Some(x));
        assert(sb.is_data_block(dc[j]));
        assert(block_of(disk, sb, m, j) == Some(x));
    }
    match indirect_of(m) {
        Some(ib) => {
            let ic = crate::inode::indirect_codes(disk[ib as int]);
            if named_from(ic, 0, x) {
                let j = choose|j: int| 0 <= j < ic.len() && #[trigger] ic[j] == x && x != 0;
                assert(sb.is_data_block(ic[j]));
                assert(block_of(disk, sb, m, j + 12) == Some(x));
            }
        },
        None => {},
    }
}

/// What releasing the blocks of an inode does once it succeeds: the blocks
/// that the inode points to are not marked as used any more; no other bit
/// of the data bitmap changes, and nothing of the inode bitmap, the inode
/// table and the data region.
pub proof fn lemma_release_blocks(disk: Seq<Seq<u8>>, sb: SuperBlock, m: InodeModel)
    requires
        crate::bitmap::formatted(disk, sb),
        m.wf(),
        m.block_ptrs() is Some,
        crate::inode::spec_release_blocks(disk, sb, m.block_ptrs()->0).res is Ok,
    ensures
        ({
            let f = crate::inode::spec_release_blocks(disk, sb, m.block_ptrs()->0);
            &&& crate::bitmap::formatted(f.disk, f.sb)
            &&& crate::superblock::same_geometry(f.sb, sb)
            &&& f.disk.len() == disk.len()
            &&& forall|x: int| sb.inode_bitmap_start <= x < disk.len() ==> f.disk[x] == disk[x]
            &&& forall|x: u32| #[trigger]
                in_use(f.disk, f.sb, x) == (in_use(disk, sb, x) && !refers(disk, sb, m, x))
        }),
{
    reveal(crate::inode::spec_release_blocks);
    crate::bitmap::lemma_layout(sb);
    let bp = m.block_ptrs()->0;
    let dc = crate::inode::direct_codes(bp);
    let f = crate::inode::spec_release_blocks(disk, sb, bp);
    let s1 = crate::inode::spec_free_blocks(disk, sb, dc, 0);
    lemma_free_blocks(disk, sb, dc, 0);
    crate::bitmap::lemma_layout(s1.sb);
    match bp.indirect {
        None => {
            assert forall|x: u32| #[trigger]
                in_use(f.disk, f.sb, x) == (in_use(disk, sb, x) && !refers(disk, sb, m, x)) by {
                lemma_refers_named(disk, sb, m, x);
            }
        },
        Some(ib) => {
            let ic = crate::inode::indirect_codes(s1.disk[ib as int]);
            assert(s1.disk[ib as int] == disk[ib as int]);
            let s2 = crate::inode::spec_free_blocks(s1.disk, s1.sb, ic, 0);
            lemma_free_blocks(s1.disk, s1.sb, ic, 0);
            crate::bitmap::lemma_layout(s2.sb);
            lemma_free_data_block(s2.disk, s2.sb, ib);
            assert forall|x: u32| #[trigger]
                in_use(f.disk, f.sb, x) == (in_use(disk, sb, x) && !refers(disk, sb, m, x)) by {
                lemma_refers_named(disk, sb, m, x);
                assert(in_use(f.disk, f.sb, x) == (in_use(s2.disk, s2.sb, x) && x != ib));
                assert(in_use(s2.disk, s2.sb, x) == (in_use(s1.disk, s1.sb, x) && !named_from(
                    ic,
                    0,
                    x,
                )));
                assert(in_use(s1.disk, s1.sb, x) == (in_use(disk, sb, x) && !named_from(dc, 0, x)));
            }
        },
    }
}

/// What giving an inode id back does: the inode is not marked as used any
/// more; no other bit of the inode bitmap changes, and nothing of the data
/// bitmap, the inode table and the data region.
pub proof fn lemma_free_inode_id(disk: Seq<Seq<u8>>, sb: SuperBlock, id: u32)
    requires
        crate::bitmap::formatted(disk, sb),
    ensures
        ({
            let f = crate::bitmap::spec_free_inode_id(disk, sb, id);
            &&& crate::bitmap::formatted(f.disk, f.sb)
            &&& crate::superblock::same_geometry(f.sb, sb)
            &&& f.disk.len() == disk.len()
            &&& f.res is Ok <==> id < sb.num_inodes
            &&& forall|x: int| sb.inode_table_start <= x < disk.len() ==> f.disk[x] == disk[x]
            &&& forall|x: u32| #[trigger] in_use(f.disk, f.sb, x) == in_use(disk, sb, x)
            &&& f.res is Ok ==> (forall|x: u32| #[trigger]
                inode_used(f.disk, f.sb, x) == (inode_used(disk, sb, x) && x != id))
        }),
{
    reveal(crate::bitmap::spec_free_inode_id);
    reveal(crate::bitmap::counts_ok);
    crate::bitmap::lemma_layout(sb);
    let f = crate::bitmap::spec_free_inode_id(disk, sb, id);
    if id < sb.num_inodes {
        let start = sb.inode_bitmap_start as int;
        let total = sb.num_inodes as int;
        let i = id as int;
        let d1 = crate::bitmap::with_bit(disk, start, i, false);
        let sb1 = f.sb;
        assert(i / 4096 < sb.inode_bitmap_blocks);
        crate::bitmap::lemma_count_bound(disk, start, total as nat, i);
        crate::bitmap::lemma_count_with_bit(disk, start, total as nat, i, false);
        crate::bitmap::lemma_count_frame(
            disk,
            d1,
            sb.data_bitmap_start as int,
            sb.data_blocks() as nat,
        );
        assert(crate::block_dev::blocks_sized(d1));
        assert(crate::bitmap::formatted(d1, sb1));
        crate::layout::lemma_sb_roundtrip(sb1);
        crate::bitmap::lemma_formatted_update(d1, sb1, 0, crate::layout::encode_sb(sb1));
        assert forall|x: u32| #[trigger]
            inode_used(f.disk, f.sb, x) == (inode_used(disk, sb, x) && x != id) by {
            if x < sb.num_inodes {
                crate::bitmap::lemma_with_bit(disk, start, i, false, x as int);
                assert(x as int / 4096 < sb.inode_bitmap_blocks);
                assert(f.disk[start + x as int / 4096] == d1[start + x as int / 4096]);
            }
        }
        assert forall|x: u32| #[trigger] in_use(f.disk, f.sb, x) == in_use(disk, sb, x) by {
            if sb.is_data_block(x) {
                let ix = x - sb.data_start;
                assert(ix / 4096 < sb.data_bitmap_blocks);
                assert(f.disk[sb.data_bitmap_start + ix / 4096] == disk[sb.data_bitmap_start + ix
                    / 4096]);
            }
        }
    } else {
        assert forall|x: u32| #[trigger] in_use(f.disk, f.sb, x) == in_use(disk, sb, x) by {}
    }
}

/// Whether the second disk is the first without the blocks of the inode
/// `gone`: its blocks are not marked as used any more, and it is not in use
/// any more or points to nothing; every other inode in use has its record,
/// and the data region is as it was.
pub open spec fn dropped(
    d1: Seq<Seq<u8>>,
    sb1: SuperBlock,
    d2: Seq<Seq<u8>>,
    sb2: SuperBlock,
    gone: u32,
) -> bool {
    &&& crate::superblock::same_geometry(sb2, sb1)
    &&& inode_used(d1, sb1, gone)
    &&& forall|x: int| sb1.data_start <= x < sb1.num_blocks ==> d2[x] == d1[x]
    &&& forall|id: u32|
        id != gone ==> #[trigger] inode_used(d2, sb2, id) == inode_used(d1, sb1, id)
    &&& forall|id: u32|
        id != gone && inode_used(d1, sb1, id) ==> #[trigger] spec_get_inode(d2, sb2, id)
            == spec_get_inode(d1, sb1, id)
    &&& forall|x: u32| #[trigger]
        in_use(d2, sb2, x) == (in_use(d1, sb1, x) && !refers(d1, sb1, record(d1, sb1, gone), x))
    &&& inode_used(d2, sb2, gone) ==> spec_get_inode(d2, sb2, gone) is Ok && (forall|x: u32|
        !#[trigger] refers(d2, sb2, record(d2, sb2, gone), x)) && (record(
        d2,
        sb2,
        gone,
    ).block_ptrs() is Some ==> file_wf(d2, sb2, record(d2, sb2, gone)))
}

/// Another inode in use maps the same blocks after the blocks of an inode
/// were dropped, and none of them was dropped.
proof fn lemma_dropped_other(
    d1: Seq<Seq<u8>>,
    sb1: SuperBlock,
    d2: Seq<Seq<u8>>,
    sb2: SuperBlock,
    gone: u32,
    id: u32,
)
    requires
        consistent(d1, sb1),
        crate::bitmap::formatted(d2, sb2),
        dropped(d1, sb1, d2, sb2, gone),
        inode_used(d1, sb1, id),
        id != gone,
    ensures
        record(d2, sb2, id) == record(d1, sb1, id),
        forall|k: int|
            0 <= k < 140 ==> #[trigger] block_of(d2, sb2, record(d1, sb1, id), k) == block_of(
                d1,
                sb1,
                record(d1, sb1, id),
                k,
            ),
        forall|x: u32|
            refers(d2, sb2, record(d1, sb1, id), x) == refers(d1, sb1, record(d1, sb1, id), x),
        forall|x: u32| refers(d1, sb1, record(d1, sb1, id), x) ==> in_use(d2, sb2, x),
        record(d1, sb1, id).block_ptrs() is Some ==> file_wf(d2, sb2, record(d1, sb1, id)),
{
    let rec = record(d1, sb1, id);
    crate::bitmap::lemma_layout(sb1);
    assert(spec_get_inode(d2, sb2, id) == spec_get_inode(d1, sb1, id));
    assert forall|k: int| 0 <= k < 140 implies #[trigger] block_of(d2, sb2, rec, k) == block_of(
        d1,
        sb1,
        rec,
        k,
    ) by {
        match indirect_of(rec) {
            Some(ib) => {
                assert(file_wf(d1, sb1, rec));
                assert(in_use(d1, sb1, ib));
            },
            None => {},
        }
        lemma_block_of_geometry(d1, sb1, sb2, rec, k);
        lemma_block_of_frame(d2, d1, sb2, rec, rec, k);
    }
    assert forall|x: u32| refers(d2, sb2, rec, x) == refers(d1, sb1, rec, x) by {
        lemma_refers_same(d1, sb1, rec, d2, sb2, rec, x);
    }
    assert forall|x: u32| refers(d1, sb1, rec, x) implies in_use(d2, sb2, x) by {
        lemma_refers_in_use(d1, sb1, rec, x);
        assert(!refers(d1, sb1, record(d1, sb1, gone), x));
    }
    if rec.block_ptrs() is Some {
        assert(file_wf(d1, sb1, rec));
        assert forall|k: int| 0 <= k < 140 implies ((#[trigger] block_of(d2, sb2, rec, k)) matches Some(
            bk,
        ) ==> in_use(d2, sb2, bk) && Some(bk) != indirect_of(rec)) by {
            assert(block_of(d2, sb2, rec, k) == block_of(d1, sb1, rec, k));
            match block_of(d1, sb1, rec, k) {
                Some(bk) => {
                    assert(refers(d1, sb1, rec, bk));
                },
                None => {},
            }
        }
        assert forall|k1: int, k2: int|
            0 <= k1 < k2 < 140 && (#[trigger] block_of(d2, sb2, rec, k1)) is Some implies block_of(
            d2,
            sb2,
            rec,
            k1,
        ) != #[trigger] block_of(d2, sb2, rec, k2) by {
            assert(block_of(d2, sb2, rec, k1) == block_of(d1, sb1, rec, k1));
            assert(block_of(d2, sb2, rec, k2) == block_of(d1, sb1, rec, k2));
        }
        match indirect_of(rec) {
            Some(ib) => {
                assert(refers(d1, sb1, rec, ib));
            },
            None => {},
        }
    }
}

/// Dropping the blocks of an inode keeps the data bitmap and the block
/// pointers in agreement.
pub proof fn lemma_consistent_dropped(
    d1: Seq<Seq<u8>>,
    sb1: SuperBlock,
    d2: Seq<Seq<u8>>,
    sb2: SuperBlock,
    gone: u32,
)
    requires
        consistent(d1, sb1),
        crate::bitmap::formatted(d2, sb2),
        dropped(d1, sb1, d2, sb2, gone),
    ensures
        consistent(d2, sb2),
{
    assert forall|id: u32| #[trigger]
        inode_used(d2, sb2, id) implies spec_get_inode(d2, sb2, id) is Ok && (record(
        d2,
        sb2,
        id,
    ).block_ptrs() is Some ==> file_wf(d2, sb2, record(d2, sb2, id))) by {
        if id != gone {
            assert(inode_used(d1, sb1, id));
            lemma_dropped_other(d1, sb1, d2, sb2, gone, id);
        }
    }
    assert forall|id1: u32, id2: u32, x: u32|
        inode_used(d2, sb2, id1) && inode_used(d2, sb2, id2) && id1 != id2 && #[trigger] refers(
            d2,
            sb2,
            record(d2, sb2, id1),
            x,
        ) implies !#[trigger] refers(d2, sb2, record(d2, sb2, id2), x) by {
        if id1 != gone && id2 != gone {
            assert(inode_used(d1, sb1, id1));
            assert(inode_used(d1, sb1, id2));
            lemma_dropped_other(d1, sb1, d2, sb2, gone, id1);
            lemma_dropped_other(d1, sb1, d2, sb2, gone, id2);
            assert(refers(d1, sb1, record(d1, sb1, id1), x));
        }
    }
    assert forall|x: u32| #[trigger] in_use(d2, sb2, x) implies exists|id: u32|
        inode_used(d2, sb2, id) && #[trigger] refers(d2, sb2, record(d2, sb2, id), x) by {
        assert(in_use(d1, sb1, x));
        let id = choose|id: u32|
            inode_used(d1, sb1, id) && #[trigger] refers(d1, sb1, record(d1, sb1, id), x);
        assert(id != gone);
        assert(inode_used(d2, sb2, id));
        lemma_dropped_other(d1, sb1, d2, sb2, gone, id);
        assert(refers(d2, sb2, record(d2, sb2, id), x));
    }
}

/// Freeing an inode in use keeps the data bitmap and the block pointers in
/// agreement: after `free_inode` the inode is not in use, its blocks are not
/// marked as used, and every block that is still marked as used is pointed
/// to once by an inode in use.
pub proof fn lemma_free_inode_keeps(disk: Seq<Seq<u8>>, sb: SuperBlock, id: u32)
    requires
        consistent(disk, sb),
        inode_used(disk, sb, id),
        crate::inode::spec_free_inode(disk, sb, id).res is Ok,
    ensures
        ({
            let f = crate::inode::spec_free_inode(disk, sb, id);
            &&& consistent(f.disk, f.sb)
            &&& forall|x: u32| #[trigger]
                inode_used(f.disk, f.sb, x) == (inode_used(disk, sb, x) && x != id)
            &&& forall|x: u32| #[trigger]
                in_use(f.disk, f.sb, x) == (in_use(disk, sb, x) && !refers(
                    disk,
                    sb,
                    record(disk, sb, id),
                    x,
                ))
            &&& forall|x: u32|
                x != id ==> #[trigger] spec_get_inode(f.disk, f.sb, x) == spec_get_inode(disk, sb, x)
            &&& spec_get_inode(f.disk, f.sb, id) == Ok::<InodeModel, FsError>(InodeModel::cleared(id))
            &&& crate::superblock::same_geometry(f.sb, sb)
            &&& forall|x: int| sb.data_start <= x < sb.num_blocks ==> f.disk[x] == disk[x]
        }),
{
    reveal(crate::inode::spec_free_inode);
    crate::bitmap::lemma_layout(sb);
    let f = crate::inode::spec_free_inode(disk, sb, id);
    let m = record(disk, sb, id);
    lemma_get_wf(disk, sb, id);
    let s1 = match m.block_ptrs() {
        Some(bp) => crate::inode::spec_release_blocks(disk, sb, bp),
        None => crate::superblock::Step { res: Ok(()), disk, sb },
    };
    if m.block_ptrs() is Some {
        lemma_release_blocks(disk, sb, m);
    } else {
        assert forall|x: u32| !refers(disk, sb, m, x) by {
            if refers(disk, sb, m, x) {
                lemma_refers_in_use(disk, sb, m, x);
            }
        }
    }
    crate::bitmap::lemma_layout(s1.sb);
    let s2 = crate::bitmap::spec_free_inode_id(s1.disk, s1.sb, id);
    lemma_free_inode_id(s1.disk, s1.sb, id);
    crate::bitmap::lemma_layout(s2.sb);
    let cleared = InodeModel::cleared(id);
    assert(crate::structs::BlockPtrModel::empty().wf());
    lemma_write_inode_formatted(s2.disk, s2.sb, cleared);
    assert forall|x: u32| #[trigger]
        inode_used(f.disk, f.sb, x) == (inode_used(disk, sb, x) && x != id) by {
        crate::tree_laws::lemma_inode_used_frame(disk, sb, s1.disk, s1.sb, x);
        crate::tree_laws::lemma_inode_used_frame(s2.disk, s2.sb, f.disk, f.sb, x);
    }
    let s3 = crate::inode::spec_write_inode(s2.disk, s2.sb, cleared);
    assert(f.disk == s3.disk && f.sb == s3.sb);
    assert forall|x: u32| #[trigger]
        in_use(f.disk, f.sb, x) == (in_use(disk, sb, x) && !refers(disk, sb, m, x)) by {
        assert(in_use(s3.disk, s3.sb, x) == in_use(s2.disk, s2.sb, x));
        assert(in_use(s2.disk, s2.sb, x) == in_use(s1.disk, s1.sb, x));
        assert(in_use(s1.disk, s1.sb, x) == (in_use(disk, sb, x) && !refers(disk, sb, m, x)));
    }
    assert forall|x: u32| x != id implies #[trigger] spec_get_inode(f.disk, f.sb, x)
        == spec_get_inode(disk, sb, x) by {
        lemma_get_frame(disk, sb, s1.disk, s1.sb, x);
        lemma_get_frame(s1.disk, s1.sb, s2.disk, s2.sb, x);
        lemma_write_get(s2.disk, s2.sb, cleared, x);
    }
    lemma_write_get(s2.disk, s2.sb, cleared, id);
    lemma_consistent_dropped(disk, sb, f.disk, f.sb, id);
}

/// Truncating a file that is an inode in use keeps the data bitmap and the
/// block pointers in agreement: after `ftruncate` the blocks of the file are
/// not marked as used and the file points to nothing.
pub proof fn lemma_ftruncate_keeps(disk: Seq<Seq<u8>>, sb: SuperBlock, m: InodeModel)
    requires
        consistent(disk, sb),
        current(disk, sb, m),
        crate::file::spec_ftruncate(disk, sb, m).res is Ok,
    ensures
        ({
            let f = crate::file::spec_ftruncate(disk, sb, m);
            &&& consistent(f.disk, f.sb)
            &&& current(f.disk, f.sb, f.inode)
            &&& forall|x: u32| !refers(f.disk, f.sb, f.inode, x)
        }),
{
    reveal(crate::file::spec_ftruncate);
    crate::bitmap::lemma_layout(sb);
    let f = crate::file::spec_ftruncate(disk, sb, m);
    let rec = record(disk, sb, m.id);
    lemma_file_wf_ptrs(disk, sb, rec, m);
    let s1 = crate::inode::spec_release_blocks(disk, sb, m.block_ptrs()->0);
    lemma_release_blocks(disk, sb, m);
    crate::bitmap::lemma_layout(s1.sb);
    let t = crate::file::truncated(m);
    assert(crate::structs::BlockPtrModel::empty().wf());
    assert(t.wf());
    let w = crate::inode::spec_write_inode(s1.disk, s1.sb, t);
    lemma_write_inode_formatted(s1.disk, s1.sb, t);
    lemma_write_get(s1.disk, s1.sb, t, m.id);
    assert(f.disk == w.disk && f.sb == s1.sb && f.inode == t);
    assert forall|x: u32| !refers(f.disk, f.sb, t, x) by {
        lemma_empty_refers(f.disk, f.sb, t, x);
    }
    lemma_empty_file_wf(f.disk, f.sb, t);
    assert forall|x: u32| #[trigger] inode_used(f.disk, f.sb, x) == inode_used(disk, sb, x) by {
        crate::tree_laws::lemma_inode_used_frame(disk, sb, f.disk, f.sb, x);
    }
    assert forall|x: u32|
        x != m.id && inode_used(disk, sb, x) implies #[trigger] spec_get_inode(f.disk, f.sb, x)
        == spec_get_inode(disk, sb, x) by {
        lemma_get_frame(disk, sb, s1.disk, s1.sb, x);
        lemma_write_get(s1.disk, s1.sb, t, x);
    }
    assert forall|x: u32| #[trigger]
        in_use(f.disk, f.sb, x) == (in_use(disk, sb, x) && !refers(disk, sb, rec, x)) by {
        assert(in_use(w.disk, w.sb, x) == in_use(s1.disk, s1.sb, x));
        assert(refers(disk, sb, m, x) == refers(disk, sb, rec, x));
    }
    lemma_consistent_dropped(disk, sb, f.disk, f.sb, m.id);
}

/// An inode without a block pointer points to no block.
proof fn lemma_empty_refers(disk: Seq<Seq<u8>>, sb: SuperBlock, m: InodeModel, x: u32)
    requires
        m.payload == crate::structs::PayloadModel::Blocks(crate::structs::BlockPtrModel::empty()),
    ensures
        !refers(disk, sb, m, x),
{
    reveal(crate::inode::spec_bmap_lookup);
    assert forall|k: int| 0 <= k < 140 implies (#[trigger] block_of(disk, sb, m, k)) is None by {}
}

/// An inode without a block pointer has sound blocks.
proof fn lemma_empty_file_wf(disk: Seq<Seq<u8>>, sb: SuperBlock, m: InodeModel)
    requires
        m.payload == crate::structs::PayloadModel::Blocks(crate::structs::BlockPtrModel::empty()),
        m.block_ptrs() is Some,
        m.wf(),
    ensures
        file_wf(disk, sb, m),
{
    reveal(crate::inode::spec_bmap_lookup);
    assert forall|k: int| 0 <= k < 140 implies (#[trigger] block_of(disk, sb, m, k)) is None by {}
}

/// Writing the record of an inode in use with the block pointers that it
/// has on disk keeps the data bitmap and the block pointers in agreement.
pub proof fn lemma_write_record_keeps(disk: Seq<Seq<u8>>, sb: SuperBlock, m2: InodeModel)
    requires
        consistent(disk, sb),
        inode_used(disk, sb, m2.id),
        record(disk, sb, m2.id).block_ptrs() == m2.block_ptrs(),
        m2.wf(),
    ensures
        crate::inode::spec_write_inode(disk, sb, m2).res is Ok,
        crate::inode::spec_write_inode(disk, sb, m2).sb == sb,
        consistent(crate::inode::spec_write_inode(disk, sb, m2).disk, sb),
        others_kept(disk, sb, crate::inode::spec_write_inode(disk, sb, m2).disk, sb, m2.id),
        spec_get_inode(crate::inode::spec_write_inode(disk, sb, m2).disk, sb, m2.id) == Ok::<
            InodeModel,
            FsError,
        >(m2),
{
    let w = crate::inode::spec_write_inode(disk, sb, m2);
    lemma_write_inode_formatted(disk, sb, m2);
    crate::bitmap::lemma_layout(sb);
    lemma_write_get(disk, sb, m2, m2.id);
    assert forall|id: u32| #[trigger] inode_used(w.disk, sb, id) == inode_used(disk, sb, id) by {
        crate::tree_laws::lemma_inode_used_frame(disk, sb, w.disk, sb, id);
    }
    assert forall|id: u32| #[trigger]
        inode_used(disk, sb, id) implies spec_get_inode(w.disk, sb, id) is Ok && record(
        w.disk,
        sb,
        id,
    ).block_ptrs() == record(disk, sb, id).block_ptrs() && (indirect_of(
        record(disk, sb, id),
    ) matches Some(ib) ==> w.disk[ib as int] == disk[ib as int]) by {
        lemma_write_get(disk, sb, m2, id);
        match indirect_of(record(disk, sb, id)) {
            Some(ib) => {
                assert(refers(disk, sb, record(disk, sb, id), ib));
                lemma_refers_in_use(disk, sb, record(disk, sb, id), ib);
            },
            None => {},
        }
    }
    lemma_consistent_frame(disk, sb, w.disk, sb);
    assert forall|x: u32| x != m2.id implies #[trigger] spec_get_inode(w.disk, sb, x)
        == spec_get_inode(disk, sb, x) by {
        lemma_write_get(disk, sb, m2, x);
    }
}

/// Whether `m` is the inode `id` in use, in memory as it is on disk.
pub open spec fn live(disk: Seq<Seq<u8>>, sb: SuperBlock, id: u32, m: InodeModel) -> bool {
    &&& inode_used(disk, sb, id)
    &&& m.id == id
    &&& spec_get_inode(disk, sb, id) == Ok::<InodeModel, FsError>(m)
}

/// On a disk whose bitmaps are zeroed no block is marked as used.
pub proof fn lemma_zeroed_blocks(disk: Seq<Seq<u8>>, sb: SuperBlock, x: u32)
    requires
        sb.wf(),
        sb.num_blocks <= disk.len(),
    ensures
        !in_use(crate::fs::zeroed(disk, sb), sb, x),
{
    if sb.is_data_block(x) {
        let z = crate::fs::zeroed(disk, sb);
        let i = x - sb.data_start;
        let b = sb.data_bitmap_start + i / 4096;
        assert(1 <= b < sb.data_start) by {
            crate::bitmap::lemma_layout(sb);
        }
        assert(z[b] == crate::codec::zeros(512));
        crate::bitmap::lemma_zero_bit(z, sb.data_bitmap_start as int, i);
    }
}

/// Writing the superblock keeps the data bitmap and the block pointers in
/// agreement.
pub proof fn lemma_write_superblock_keeps(disk: Seq<Seq<u8>>, sb: SuperBlock)
    requires
        consistent(disk, sb),
    ensures
        consistent(disk.update(0, crate::layout::encode_sb(sb)), sb),
{
    let block = crate::layout::encode_sb(sb);
    let d2 = disk.update(0, block);
    crate::layout::lemma_sb_roundtrip(sb);
    crate::bitmap::lemma_layout(sb);
    crate::bitmap::lemma_formatted_update(disk, sb, 0, block);
    assert forall|x: u32| #[trigger] in_use(d2, sb, x) == in_use(disk, sb, x) by {
        crate::dir_laws::lemma_in_use_frame(d2, disk, sb, x);
    }
    assert forall|id: u32| #[trigger] inode_used(d2, sb, id) == inode_used(disk, sb, id) by {
        crate::tree_laws::lemma_inode_used_frame(disk, sb, d2, sb, id);
    }
    assert forall|id: u32| #[trigger]
        inode_used(disk, sb, id) implies spec_get_inode(d2, sb, id) is Ok && record(
        d2,
        sb,
        id,
    ).block_ptrs() == record(disk, sb, id).block_ptrs() && (indirect_of(
        record(disk, sb, id),
    ) matches Some(ib) ==> d2[ib as int] == disk[ib as int]) by {
        lemma_get_frame(disk, sb, d2, sb, id);
        match indirect_of(record(disk, sb, id)) {
            Some(ib) => {
                assert(refers(disk, sb, record(disk, sb, id), ib));
                lemma_refers_in_use(disk, sb, record(disk, sb, id), ib);
            },
            None => {},
        }
    }
    lemma_consistent_frame(disk, sb, d2, sb);
}

} // verus!
