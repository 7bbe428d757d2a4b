//! What holds of the directories: what a lookup finds after an entry was
//! added or removed.

use vstd::prelude::*;
use crate::directory::{
    entry_at, names_match, scan_slots_from, slot_fits, slot_is_empty, spec_dir_add_entry,
    spec_dir_insert, spec_dir_lookup, spec_dir_rm_entry, spec_dir_scan, trimmed, with_entry,
};
use crate::error::FsError;
use crate::structs::{EntryModel, FileType, InodeModel, SuperBlock};

verus! {

/// The data block that holds block `i` of a file, where the file has one
/// there.
pub open spec fn block_of(disk: Seq<Seq<u8>>, sb: SuperBlock, m: InodeModel, i: int) -> Option<u32> {
    match crate::inode::spec_bmap_lookup(disk, sb, m, (i * 512) as u64) {
        Ok(Some(b)) => Some(b),
        _ => None,
    }
}

/// Whether a data block is marked as used in the data bitmap.
pub open spec fn in_use(disk: Seq<Seq<u8>>, sb: SuperBlock, b: u32) -> bool {
    sb.is_data_block(b) && crate::bitmap::bit_at(
        disk,
        sb.data_bitmap_start as int,
        b - sb.data_start,
    )
}

/// Whether no slot of a block fits.
pub open spec fn no_fit(block: Seq<u8>, name: Seq<u8>, want_empty: bool) -> bool {
    forall|j: int| 0 <= j < 8 ==> !slot_fits(#[trigger] entry_at(block, j), name, want_empty)
}

/// A scan of a block finds nothing exactly when no slot from `j` on fits.
pub proof fn lemma_scan_slots_none(block: Seq<u8>, name: Seq<u8>, want_empty: bool, j: int)
    requires
        0 <= j,
    ensures
        scan_slots_from(block, name, want_empty, j) is None <==> (forall|k: int|
            j <= k < 8 ==> !slot_fits(#[trigger] entry_at(block, k), name, want_empty)),
    decreases 8 - j,
{
    if j < 8 {
        lemma_scan_slots_none(block, name, want_empty, j + 1);
    }
}

/// A scan of a block finds the first slot that fits.
pub proof fn lemma_scan_slots_first(block: Seq<u8>, name: Seq<u8>, want_empty: bool, j: int, k: int)
    requires
        0 <= j <= k < 8,
        slot_fits(entry_at(block, k), name, want_empty),
        forall|q: int| j <= q < k ==> !slot_fits(#[trigger] entry_at(block, q), name, want_empty),
    ensures
        scan_slots_from(block, name, want_empty, j) == Some(k),
    decreases k - j,
{
    if j < k {
        lemma_scan_slots_first(block, name, want_empty, j + 1, k);
    }
}

/// What a scan of a block found is the first slot that fits.
pub proof fn lemma_scan_slots_found(block: Seq<u8>, name: Seq<u8>, want_empty: bool, j: int)
    requires
        0 <= j,
    ensures
        scan_slots_from(block, name, want_empty, j) matches Some(k) ==> j <= k < 8 && slot_fits(
            entry_at(block, k),
            name,
            want_empty,
        ) && (forall|q: int|
            j <= q < k ==> !slot_fits(#[trigger] entry_at(block, q), name, want_empty)),
    decreases 8 - j,
{
    if j < 8 {
        lemma_scan_slots_found(block, name, want_empty, j + 1);
    }
}

/// A scan of a directory that finds nothing went through every block from
/// `i` on, and no slot of them fits.
pub proof fn lemma_scan_none(
    disk: Seq<Seq<u8>>,
    sb: SuperBlock,
    m: InodeModel,
    name: Seq<u8>,
    want_empty: bool,
    i: int,
)
    requires
        0 <= i,
        spec_dir_scan(disk, sb, m, name, want_empty, i) == Ok::<Option<(u32, int)>, FsError>(
            None,
        ),
    ensures
        forall|k: int|
            i <= k < m.blocks ==> (#[trigger] block_of(disk, sb, m, k)) is Some && no_fit(
                disk[block_of(disk, sb, m, k)->0 as int],
                name,
                want_empty,
            ),
    decreases m.blocks - i,
{
    if i < m.blocks {
        let b = block_of(disk, sb, m, i)->0;
        lemma_scan_slots_none(disk[b as int], name, want_empty, 0);
        lemma_scan_none(disk, sb, m, name, want_empty, i + 1);
    }
}

/// A scan of a directory that finds a slot went through every block before
/// the one that holds it, where no slot fits, and found the first slot that
/// fits in that block.
pub proof fn lemma_scan_some(
    disk: Seq<Seq<u8>>,
    sb: SuperBlock,
    m: InodeModel,
    name: Seq<u8>,
    want_empty: bool,
    i: int,
) -> (at: int)
    requires
        0 <= i,
        spec_dir_scan(disk, sb, m, name, want_empty, i) matches Ok(Some(_)),
    ensures
        i <= at < m.blocks,
        forall|k: int|
            i <= k < at ==> (#[trigger] block_of(disk, sb, m, k)) is Some && no_fit(
                disk[block_of(disk, sb, m, k)->0 as int],
                name,
                want_empty,
            ),
        spec_dir_scan(disk, sb, m, name, want_empty, i) matches Ok(Some((b, j))) && block_of(
            disk,
            sb,
            m,
            at,
        ) == Some(b) && scan_slots_from(disk[b as int], name, want_empty, 0) == Some(j),
    decreases m.blocks - i,
{
    let b = block_of(disk, sb, m, i)->0;
    lemma_scan_slots_none(disk[b as int], name, want_empty, 0);
    if scan_slots_from(disk[b as int], name, want_empty, 0) is Some {
        i
    } else {
        lemma_scan_some(disk, sb, m, name, want_empty, i + 1)
    }
}

/// Where every block from `i` up to `at` can be read and holds no slot that
/// fits, and block `at` holds one, the scan from `i` finds the first slot
/// that fits in block `at`.
pub proof fn lemma_scan_reaches(
    disk: Seq<Seq<u8>>,
    sb: SuperBlock,
    m: InodeModel,
    name: Seq<u8>,
    want_empty: bool,
    i: int,
    at: int,
    b: u32,
    j: int,
)
    requires
        0 <= i <= at < m.blocks,
        forall|k: int|
            i <= k < at ==> (#[trigger] block_of(disk, sb, m, k)) is Some && no_fit(
                disk[block_of(disk, sb, m, k)->0 as int],
                name,
                want_empty,
            ),
        block_of(disk, sb, m, at) == Some(b),
        scan_slots_from(disk[b as int], name, want_empty, 0) == Some(j),
    ensures
        spec_dir_scan(disk, sb, m, name, want_empty, i) == Ok::<Option<(u32, int)>, FsError>(
            Some((b, j)),
        ),
    decreases at - i,
{
    if i < at {
        let bi = block_of(disk, sb, m, i)->0;
        assert(no_fit(disk[bi as int], name, want_empty));
        lemma_scan_slots_none(disk[bi as int], name, want_empty, 0);
        lemma_scan_reaches(disk, sb, m, name, want_empty, i + 1, at, b, j);
    }
}

/// Where every block from `i` on can be read and holds no slot that fits,
/// the scan from `i` finds nothing.
pub proof fn lemma_scan_misses(
    disk: Seq<Seq<u8>>,
    sb: SuperBlock,
    m: InodeModel,
    name: Seq<u8>,
    want_empty: bool,
    i: int,
)
    requires
        0 <= i,
        forall|k: int|
            i <= k < m.blocks ==> (#[trigger] block_of(disk, sb, m, k)) is Some && no_fit(
                disk[block_of(disk, sb, m, k)->0 as int],
                name,
                want_empty,
            ),
    ensures
        spec_dir_scan(disk, sb, m, name, want_empty, i) == Ok::<Option<(u32, int)>, FsError>(
            None,
        ),
    decreases m.blocks - i,
{
    if i < m.blocks {
        let bi = block_of(disk, sb, m, i)->0;
        assert(no_fit(disk[bi as int], name, want_empty));
        lemma_scan_slots_none(disk[bi as int], name, want_empty, 0);
        lemma_scan_misses(disk, sb, m, name, want_empty, i + 1);
    }
}

/// The entry in slot `j` of block `k` of a directory.
pub open spec fn slot(disk: Seq<Seq<u8>>, sb: SuperBlock, m: InodeModel, k: int, j: int)
    -> EntryModel {
    entry_at(disk[block_of(disk, sb, m, k)->0 as int], j)
}

/// Whether a directory is sound: its entries fit in its blocks, each of its
/// blocks is there and marked as used, no block is there twice, it maps no
/// block past its last, and its block of indirect pointers, if it has one,
/// is marked as used and is none of its blocks of entries.
pub open spec fn dir_wf(disk: Seq<Seq<u8>>, sb: SuperBlock, m: InodeModel) -> bool {
    &&& m.ftype == FileType::Directory
    &&& m.size <= 512 * m.blocks
    &&& forall|k: int|
        0 <= k < m.blocks ==> (#[trigger] block_of(disk, sb, m, k)) is Some && in_use(
            disk,
            sb,
            block_of(disk, sb, m, k)->0,
        )
    &&& forall|k: int| m.blocks <= k < 140 ==> (#[trigger] block_of(disk, sb, m, k)) is None
    &&& forall|k1: int, k2: int|
        0 <= k1 < k2 < m.blocks ==> #[trigger] block_of(disk, sb, m, k1) != #[trigger] block_of(
            disk,
            sb,
            m,
            k2,
        )
    &&& m.block_ptrs() matches Some(bp) ==> (bp.indirect matches Some(ib) ==> in_use(disk, sb, ib)
        && forall|k: int| 0 <= k < m.blocks ==> #[trigger] block_of(disk, sb, m, k) != Some(ib))
}

/// Whether no two entries of a directory have the same name.
pub open spec fn names_unique(disk: Seq<Seq<u8>>, sb: SuperBlock, m: InodeModel) -> bool {
    forall|k1: int, j1: int, k2: int, j2: int|
        0 <= k1 < m.blocks && 0 <= j1 < 8 && 0 <= k2 < m.blocks && 0 <= j2 < 8 && (
        #[trigger] slot(disk, sb, m, k1, j1)).inode_id != 0 && (#[trigger] slot(
            disk,
            sb,
            m,
            k2,
            j2,
        )).inode_id != 0 && names_match(
            slot(disk, sb, m, k1, j1).name,
            slot(disk, sb, m, k2, j2).name,
        ) ==> k1 == k2 && j1 == j2
}

/// Putting an entry into a slot of a block changes that slot and no other.
pub proof fn lemma_with_entry(block: Seq<u8>, j: int, e: EntryModel, k: int)
    requires
        block.len() == 512,
        0 <= j < 8,
        0 <= k < 8,
        e.name.len() == 60,
    ensures
        entry_at(with_entry(block, j, e), k) == (if k == j {
            e
        } else {
            entry_at(block, k)
        }),
{
    let nb = with_entry(block, j, e);
    crate::layout::lemma_entry_roundtrip(e);
    if k == j {
        assert(nb.subrange(64 * k, 64 * k + 64) =~= crate::layout::encode_entry(e));
    } else {
        assert(nb.subrange(64 * k, 64 * k + 64) =~= block.subrange(64 * k, 64 * k + 64));
    }
}

/// Names that match the same name match each other.
pub proof fn lemma_names_match_trans(a: Seq<u8>, b: Seq<u8>, c: Seq<u8>)
    requires
        names_match(a, c),
        names_match(b, c),
    ensures
        names_match(a, b),
{
}

/// The block map of a file looks at its block pointers and at its block of
/// indirect pointers, and at nothing else.
pub proof fn lemma_block_of_frame(
    d1: Seq<Seq<u8>>,
    d2: Seq<Seq<u8>>,
    sb: SuperBlock,
    m1: InodeModel,
    m2: InodeModel,
    k: int,
)
    requires
        m1.block_ptrs() == m2.block_ptrs(),
        m1.block_ptrs() matches Some(bp) ==> (bp.indirect matches Some(ib) ==> d1[ib as int]
            == d2[ib as int]),
    ensures
        crate::inode::spec_bmap_lookup(d1, sb, m1, (k * 512) as u64)
            == crate::inode::spec_bmap_lookup(d2, sb, m2, (k * 512) as u64),
        block_of(d1, sb, m1, k) == block_of(d2, sb, m2, k),
{
    reveal(crate::inode::spec_bmap_lookup);
}

/// What writing an inode changes: a block of the inode table, and nothing
/// else.
pub proof fn lemma_write_inode_frame(disk: Seq<Seq<u8>>, sb: SuperBlock, m: InodeModel)
    requires
        crate::superblock::mounted(disk, sb),
    ensures
        ({
            let w = crate::inode::spec_write_inode(disk, sb, m);
            &&& w.sb == sb
            &&& w.disk.len() == disk.len()
            &&& forall|b: int|
                0 <= b < disk.len() && !(sb.inode_table_start <= b < sb.data_start) ==> w.disk[b]
                    == disk[b]
        }),
{
    reveal(crate::inode::spec_write_inode);
    crate::bitmap::lemma_layout(sb);
    if m.id < sb.num_inodes {
        crate::inode::lemma_inode_slot(sb, m.id);
    }
}

/// In the new state of a directory, where block `at` is the block `b` that
/// holds a slot `j` that fits and no slot before it fits, and every block
/// before `at` is `b` too or holds no slot that fits, a scan finds slot `j`
/// of `b`.
pub proof fn lemma_scan_after_put(
    disk: Seq<Seq<u8>>,
    sb: SuperBlock,
    m: InodeModel,
    name: Seq<u8>,
    want_empty: bool,
    b: u32,
    j: int,
    at: int,
    i: int,
)
    requires
        0 <= i <= at < m.blocks,
        0 <= j < 8,
        block_of(disk, sb, m, at) == Some(b),
        slot_fits(entry_at(disk[b as int], j), name, want_empty),
        forall|q: int|
            0 <= q < j ==> !slot_fits(#[trigger] entry_at(disk[b as int], q), name, want_empty),
        forall|k: int|
            0 <= k < at ==> (#[trigger] block_of(disk, sb, m, k)) is Some && (block_of(
                disk,
                sb,
                m,
                k,
            ) == Some(b) || no_fit(disk[block_of(disk, sb, m, k)->0 as int], name, want_empty)),
    ensures
        spec_dir_scan(disk, sb, m, name, want_empty, i) == Ok::<Option<(u32, int)>, FsError>(
            Some((b, j)),
        ),
    decreases at - i,
{
    lemma_scan_slots_first(disk[b as int], name, want_empty, 0, j);
    if block_of(disk, sb, m, i) == Some(b) {
    } else {
        let bi = block_of(disk, sb, m, i)->0;
        assert(no_fit(disk[bi as int], name, want_empty));
        lemma_scan_slots_none(disk[bi as int], name, want_empty, 0);
        lemma_scan_after_put(disk, sb, m, name, want_empty, b, j, at, i + 1);
    }
}

/// Whether an entry can be looked up: it names an inode and has a name of
/// 60 bytes that are not all zero.
pub open spec fn entry_ok(e: EntryModel) -> bool {
    e.inode_id != 0 && e.name.len() == 60 && trimmed(e.name).len() > 0
}

/// A lookup after an insert into an empty slot finds the entry.
proof fn lemma_lookup_after_reuse(
    disk: Seq<Seq<u8>>,
    sb: SuperBlock,
    m: InodeModel,
    e: EntryModel,
)
    requires
        crate::bitmap::formatted(disk, sb),
        dir_wf(disk, sb, m),
        entry_ok(e),
        spec_dir_scan(disk, sb, m, e.name, false, 0) == Ok::<Option<(u32, int)>, FsError>(None),
        spec_dir_scan(disk, sb, m, e.name, true, 0) matches Ok(Some(_)),
        spec_dir_insert(disk, sb, m, e).res is Ok,
    ensures
        ({
            let s = spec_dir_insert(disk, sb, m, e);
            spec_dir_lookup(s.disk, s.sb, s.inode, e.name) == Ok::<u32, FsError>(e.inode_id)
        }),
{
    reveal(spec_dir_insert);
    reveal(spec_dir_lookup);
    let s = spec_dir_insert(disk, sb, m, e);
    let name = e.name;
    let at = lemma_scan_some(disk, sb, m, name, true, 0);
    let (b, j) = spec_dir_scan(disk, sb, m, name, true, 0)->Ok_0->0;
    lemma_scan_slots_found(disk[b as int], name, true, 0);
    lemma_scan_none(disk, sb, m, name, false, 0);
    let m1 = InodeModel { size: (m.size + 64) as u64, ..m };
    let w = crate::inode::spec_write_inode(disk, sb, m1);
    lemma_write_inode_frame(disk, sb, m1);
    crate::bitmap::lemma_layout(sb);
    let d2 = s.disk;
    assert(d2 == w.disk.update(b as int, with_entry(disk[b as int], j, e)));
    crate::frame::lemma_bmap_lookup_data(disk, sb, m, (at * 512) as u64);
    assert(sb.is_data_block(b));
    assert(d2[b as int] == with_entry(disk[b as int], j, e));
    assert forall|k: int| 0 <= k < m.blocks implies #[trigger] block_of(d2, sb, m1, k) == block_of(
        disk,
        sb,
        m,
        k,
    ) by {
        match m.block_ptrs() {
            Some(bp) => {
                match bp.indirect {
                    Some(ib) => {
                        assert(block_of(disk, sb, m, at) != Some(ib));
                        assert(sb.is_data_block(ib));
                    },
                    None => {},
                }
            },
            None => {},
        }
        lemma_block_of_frame(d2, disk, sb, m1, m, k);
    }
    assert forall|q: int| 0 <= q < 8 implies #[trigger] entry_at(d2[b as int], q) == (if q == j {
        e
    } else {
        entry_at(disk[b as int], q)
    }) by {
        lemma_with_entry(disk[b as int], j, e, q);
    }
    assert(no_fit(disk[b as int], name, false));
    assert forall|k: int| 0 <= k < at implies (#[trigger] block_of(d2, sb, m1, k)) is Some && (
    block_of(d2, sb, m1, k) == Some(b) || no_fit(
        d2[block_of(d2, sb, m1, k)->0 as int],
        name,
        false,
    )) by {
        let bk = block_of(disk, sb, m, k)->0;
        crate::frame::lemma_bmap_lookup_data(disk, sb, m, (k * 512) as u64);
        if bk != b {
            assert(d2[bk as int] == disk[bk as int]);
            assert(no_fit(disk[bk as int], name, false));
        }
    }
    assert(slot_fits(entry_at(d2[b as int], j), name, false));
    assert forall|q: int| 0 <= q < j implies !slot_fits(
        #[trigger] entry_at(d2[b as int], q),
        name,
        false,
    ) by {
        assert(entry_at(d2[b as int], q) == entry_at(disk[b as int], q));
    }
    lemma_scan_after_put(d2, sb, m1, name, false, b, j, at, 0);
}

/// A lookup after the removal of an entry does not find its name any more.
pub proof fn lemma_lookup_after_rm(disk: Seq<Seq<u8>>, sb: SuperBlock, m: InodeModel, name: Seq<u8>)
    requires
        crate::bitmap::formatted(disk, sb),
        dir_wf(disk, sb, m),
        names_unique(disk, sb, m),
        spec_dir_rm_entry(disk, sb, m, name).res is Ok,
    ensures
        ({
            let s = spec_dir_rm_entry(disk, sb, m, name);
            spec_dir_lookup(s.disk, s.sb, s.inode, name) == Err::<u32, FsError>(
                FsError::NotFound,
            )
        }),
{
    reveal(spec_dir_rm_entry);
    reveal(spec_dir_lookup);
    let s = spec_dir_rm_entry(disk, sb, m, name);
    let at = lemma_scan_some(disk, sb, m, name, false, 0);
    let (b, j) = spec_dir_scan(disk, sb, m, name, false, 0)->Ok_0->0;
    lemma_scan_slots_found(disk[b as int], name, false, 0);
    let m1 = InodeModel { size: (m.size - 64) as u64, ..m };
    let w = crate::inode::spec_write_inode(disk, sb, m1);
    lemma_write_inode_frame(disk, sb, m1);
    crate::bitmap::lemma_layout(sb);
    let d2 = s.disk;
    let null = EntryModel::null();
    assert(d2 == w.disk.update(b as int, with_entry(disk[b as int], j, null)));
    crate::frame::lemma_bmap_lookup_data(disk, sb, m, (at * 512) as u64);
    assert(d2[b as int] == with_entry(disk[b as int], j, null));
    assert forall|k: int| 0 <= k < m.blocks implies #[trigger] block_of(d2, sb, m1, k) == block_of(
        disk,
        sb,
        m,
        k,
    ) by {
        match m.block_ptrs() {
            Some(bp) => {
                match bp.indirect {
                    Some(ib) => {
                        assert(block_of(disk, sb, m, at) != Some(ib));
                        assert(sb.is_data_block(ib));
                    },
                    None => {},
                }
            },
            None => {},
        }
        lemma_block_of_frame(d2, disk, sb, m1, m, k);
    }
    assert(slot(disk, sb, m, at, j).inode_id != 0);
    assert forall|k: int| 0 <= k < m1.blocks implies (#[trigger] block_of(d2, sb, m1, k)) is Some
        && no_fit(d2[block_of(d2, sb, m1, k)->0 as int], name, false) by {
        let bk = block_of(disk, sb, m, k)->0;
        crate::frame::lemma_bmap_lookup_data(disk, sb, m, (k * 512) as u64);
        assert forall|q: int| 0 <= q < 8 implies !slot_fits(
            #[trigger] entry_at(d2[bk as int], q),
            name,
            false,
        ) by {
            if bk == b {
                lemma_with_entry(disk[b as int], j, null, q);
            } else {
                assert(d2[bk as int] == disk[bk as int]);
            }
            if bk == b && q == j {
            } else {
                assert(entry_at(d2[bk as int], q) == slot(disk, sb, m, k, q));
                if slot_fits(slot(disk, sb, m, k, q), name, false) {
                    lemma_names_match_trans(
                        slot(disk, sb, m, k, q).name,
                        slot(disk, sb, m, at, j).name,
                        name,
                    );
                    assert(k == at && q == j);
                }
            }
        }
    }
    lemma_scan_misses(d2, sb, m1, name, false, 0);
}

/// What the allocation of a data block does: a block of the data region
/// that was free is marked as used and zeroed; no other bit of the bitmap
/// changes, and no other block of the inode table and the data region.
pub proof fn lemma_alloc_data_block(disk: Seq<Seq<u8>>, sb: SuperBlock)
    requires
        crate::bitmap::formatted(disk, sb),
    ensures
        ({
            let a = crate::bitmap::spec_alloc_data_block(disk, sb);
            &&& crate::bitmap::formatted(a.disk, a.sb)
            &&& crate::superblock::same_geometry(a.sb, sb)
            &&& a.disk.len() == disk.len()
            &&& a.res is Err ==> a.disk == disk && a.sb == sb
            &&& a.sb.free_inodes == sb.free_inodes
            &&& a.res matches Ok(b) ==> {
                &&& a.sb.free_blocks == sb.free_blocks - 1
                &&& sb.is_data_block(b)
                &&& !in_use(disk, sb, b)
                &&& in_use(a.disk, a.sb, b)
                &&& a.disk[b as int] == crate::codec::zeros(512)
                &&& forall|x: int|
                    sb.inode_table_start <= x < disk.len() && x != b ==> a.disk[x] == disk[x]
                &&& forall|x: u32| in_use(disk, sb, x) ==> in_use(a.disk, a.sb, x)
                &&& forall|x: u32| in_use(a.disk, a.sb, x) && x != b ==> in_use(disk, sb, x)
            }
        }),
{
    reveal(crate::bitmap::spec_alloc_data_block);
    reveal(crate::bitmap::spec_set_first_fit);
    reveal(crate::bitmap::counts_ok);
    crate::bitmap::lemma_layout(sb);
    let a = crate::bitmap::spec_alloc_data_block(disk, sb);
    let start = sb.data_bitmap_start as int;
    let total = sb.data_blocks();
    crate::bitmap::lemma_first_fit_least(disk, start, total, true, 0);
    match crate::bitmap::first_fit(disk, start, total, true, 0) {
        Some(i) => {
            let d1 = crate::bitmap::with_bit(disk, start, i, true);
            let sb1 = SuperBlock { free_blocks: (sb.free_blocks - 1) as u32, ..sb };
            let b = (i + sb.data_start) as u32;
            assert(i / 4096 < sb.data_bitmap_blocks);
            crate::bitmap::lemma_count_bound(disk, start, total as nat, i);
            crate::bitmap::lemma_count_with_bit(disk, start, total as nat, i, true);
            crate::bitmap::lemma_count_frame(
                disk,
                d1,
                sb.inode_bitmap_start as int,
                sb.num_inodes as nat,
            );
            assert(crate::block_dev::blocks_sized(d1));
            assert(crate::bitmap::formatted(d1, sb1));
            crate::layout::lemma_sb_roundtrip(sb1);
            crate::bitmap::lemma_formatted_update(d1, sb1, 0, crate::layout::encode_sb(sb1));
            let d2 = d1.update(0, crate::layout::encode_sb(sb1));
            crate::bitmap::lemma_formatted_update(d2, sb1, b as int, crate::codec::zeros(512));
            assert(a.disk == d2.update(b as int, crate::codec::zeros(512)));
            assert forall|x: u32| in_use(disk, sb, x) implies in_use(a.disk, a.sb, x) by {
                let ix = x - sb.data_start;
                crate::bitmap::lemma_with_bit(disk, start, i, true, ix);
                assert(ix / 4096 < sb.data_bitmap_blocks);
                assert(a.disk[start + ix / 4096] == d1[start + ix / 4096]);
            }
            crate::bitmap::lemma_with_bit(disk, start, i, true, i);
            assert(a.disk[start + i / 4096] == d1[start + i / 4096]);
            assert forall|x: u32| in_use(a.disk, a.sb, x) && x != b implies in_use(disk, sb, x) by {
                let ix = x - sb.data_start;
                crate::bitmap::lemma_with_bit(disk, start, i, true, ix);
                assert(ix / 4096 < sb.data_bitmap_blocks);
                assert(a.disk[start + ix / 4096] == d1[start + ix / 4096]);
            }
        },
        None => {},
    }
}

/// A write outside the bitmaps changes no mark of use.
pub proof fn lemma_in_use_frame(d1: Seq<Seq<u8>>, d2: Seq<Seq<u8>>, sb: SuperBlock, x: u32)
    requires
        sb.wf(),
        forall|b: int| 1 <= b < sb.inode_table_start ==> d1[b] == d2[b],
    ensures
        in_use(d1, sb, x) == in_use(d2, sb, x),
{
    crate::bitmap::lemma_layout(sb);
    if sb.is_data_block(x) {
        let ix = x - sb.data_start;
        assert(ix / 4096 < sb.data_bitmap_blocks);
        assert(d1[sb.data_bitmap_start + ix / 4096] == d2[sb.data_bitmap_start + ix / 4096]);
    }
}

/// The marks of use do not depend on the free counts.
pub proof fn lemma_in_use_geometry(disk: Seq<Seq<u8>>, sb1: SuperBlock, sb2: SuperBlock, x: u32)
    requires
        crate::superblock::same_geometry(sb1, sb2),
    ensures
        in_use(disk, sb1, x) == in_use(disk, sb2, x),
{
}

/// Writing an inode keeps a formatted disk formatted.
pub proof fn lemma_write_inode_formatted(disk: Seq<Seq<u8>>, sb: SuperBlock, m: InodeModel)
    requires
        crate::bitmap::formatted(disk, sb),
    ensures
        ({
            let w = crate::inode::spec_write_inode(disk, sb, m);
            &&& crate::bitmap::formatted(w.disk, w.sb)
            &&& w.sb == sb
            &&& w.disk.len() == disk.len()
            &&& forall|b: int|
                0 <= b < disk.len() && !(sb.inode_table_start <= b < sb.data_start) ==> w.disk[b]
                    == disk[b]
            &&& forall|x: u32| in_use(w.disk, w.sb, x) == in_use(disk, sb, x)
        }),
{
    reveal(crate::inode::spec_write_inode);
    crate::bitmap::lemma_layout(sb);
    let w = crate::inode::spec_write_inode(disk, sb, m);
    if m.id < sb.num_inodes {
        crate::inode::lemma_inode_slot(sb, m.id);
        let b = crate::inode::inode_block(sb, m.id);
        crate::bitmap::lemma_formatted_update(
            disk,
            sb,
            b,
            crate::codec::splice(
                disk[b],
                crate::inode::inode_offset(m.id),
                crate::layout::encode_inode(m),
            ),
        );
    }
    assert forall|x: u32| in_use(w.disk, w.sb, x) == in_use(disk, sb, x) by {
        lemma_in_use_frame(w.disk, disk, sb, x);
    }
}

/// What `bmap` with `create` does in the block of indirect pointers once it
/// succeeds: slot `slot` holds the block returned, which lies in the data
/// region; the other slots are as before; every block in use but the block
/// of indirect pointers is as before and stays in use. A block that was
/// allocated for the slot is zeroed and in use.
pub proof fn lemma_bmap_slot(disk: Seq<Seq<u8>>, sb: SuperBlock, m: InodeModel, ib: u32, slot: int)
    requires
        crate::bitmap::formatted(disk, sb),
        in_use(disk, sb, ib),
        0 <= slot < 128,
        crate::inode::spec_bmap_slot(disk, sb, m, ib, slot).res is Ok,
    ensures
        ({
            let r = crate::inode::spec_bmap_slot(disk, sb, m, ib, slot);
            let bn = r.res->Ok_0;
            &&& crate::bitmap::formatted(r.disk, r.sb)
            &&& crate::superblock::same_geometry(r.sb, sb)
            &&& r.disk.len() == disk.len()
            &&& r.sb.free_inodes == sb.free_inodes
            &&& r.inode == m
            &&& sb.is_data_block(bn)
            &&& crate::inode::indirect_codes(r.disk[ib as int]) == crate::inode::indirect_codes(
                disk[ib as int],
            ).update(slot, bn)
            &&& forall|x: u32| in_use(disk, sb, x) && x != ib ==> r.disk[x as int] == disk[x as int]
            &&& forall|x: u32| in_use(disk, sb, x) ==> in_use(r.disk, r.sb, x)
            &&& forall|x: u32| in_use(r.disk, r.sb, x) && x != bn ==> in_use(disk, sb, x)
            &&& crate::codec::get32(disk[ib as int], 4 * slot) == 0 ==> in_use(r.disk, r.sb, bn)
                && !in_use(disk, sb, bn) && r.disk[bn as int] == crate::codec::zeros(512)
            &&& crate::codec::get32(disk[ib as int], 4 * slot) != 0 ==> r.disk == disk && r.sb
                == sb
        }),
{
    reveal(crate::inode::spec_bmap_slot);
    crate::bitmap::lemma_layout(sb);
    let r = crate::inode::spec_bmap_slot(disk, sb, m, ib, slot);
    let p = crate::codec::get32(disk[ib as int], 4 * slot);
    if p != 0 {
        assert(crate::inode::indirect_codes(disk[ib as int])
            =~= crate::inode::indirect_codes(disk[ib as int]).update(slot, p));
    }
    if p == 0 {
        let a = crate::bitmap::spec_alloc_data_block(disk, sb);
        lemma_alloc_data_block(disk, sb);
        let bn = a.res->Ok_0;
        let w = crate::inode::spec_write_inode(a.disk, a.sb, m);
        lemma_write_inode_formatted(a.disk, a.sb, m);
        crate::bitmap::lemma_layout(a.sb);
        let nb = crate::codec::splice(disk[ib as int], 4 * slot, crate::codec::le32(bn));
        assert(r.disk == w.disk.update(ib as int, nb));
        crate::bitmap::lemma_formatted_update(w.disk, w.sb, ib as int, nb);
        crate::codec::lemma_get32_splice_same(disk[ib as int], 4 * slot, bn);
        assert forall|q: int| 0 <= q < 128 implies #[trigger] crate::inode::indirect_codes(
            r.disk[ib as int],
        )[q] == crate::inode::indirect_codes(disk[ib as int]).update(slot, bn)[q] by {
            if q != slot {
                crate::codec::lemma_le32_roundtrip(bn);
                crate::codec::lemma_get32_splice_other(
                    disk[ib as int],
                    4 * slot,
                    crate::codec::le32(bn),
                    4 * q,
                );
            }
        }
        assert(crate::inode::indirect_codes(r.disk[ib as int])
            =~= crate::inode::indirect_codes(disk[ib as int]).update(slot, bn));
        assert forall|x: u32| in_use(disk, sb, x) implies in_use(r.disk, r.sb, x) by {
            lemma_in_use_frame(r.disk, a.disk, a.sb, x);
            lemma_in_use_geometry(a.disk, a.sb, sb, x);
            lemma_in_use_geometry(r.disk, a.sb, sb, x);
        }
        lemma_in_use_frame(r.disk, a.disk, a.sb, bn);
        lemma_in_use_geometry(r.disk, a.sb, sb, bn);
        lemma_in_use_geometry(a.disk, a.sb, sb, bn);
        assert forall|x: u32| in_use(r.disk, r.sb, x) && x != bn implies in_use(disk, sb, x) by {
            lemma_in_use_frame(r.disk, a.disk, a.sb, x);
            lemma_in_use_geometry(a.disk, a.sb, sb, x);
            lemma_in_use_geometry(r.disk, a.sb, sb, x);
        }
    }
}

/// The block of indirect pointers of an inode, where it has one.
pub open spec fn indirect_of(m: InodeModel) -> Option<u32> {
    match m.block_ptrs() {
        Some(bp) => bp.indirect,
        None => None,
    }
}

/// Whether `r` is what a successful `bmap` with `create` at `off` leaves of
/// the state `(disk, sb, m)`: block `off / 512` of the file is the block
/// returned, every other block of the file is as before, the inode is
/// extended to reach the offset, and every block that was in use, but the
/// block of indirect pointers, holds what it held and stays in use. A block
/// that was allocated is zeroed and in use.
pub open spec fn mapped(
    disk: Seq<Seq<u8>>,
    sb: SuperBlock,
    m: InodeModel,
    off: u64,
    r: crate::inode::InodeStep<u32>,
) -> bool {
    let idx = off as int / 512;
    let bn = r.res->Ok_0;
    &&& r.res is Ok
    &&& off % 512 == 0
    &&& idx < 140
    &&& crate::bitmap::formatted(r.disk, r.sb)
    &&& crate::superblock::same_geometry(r.sb, sb)
    &&& r.sb.free_inodes == sb.free_inodes
    &&& r.disk.len() == disk.len()
    &&& r.inode == (InodeModel { payload: r.inode.payload, ..crate::inode::extended(m, off) })
    &&& r.inode.block_ptrs() is Some
    &&& sb.is_data_block(bn)
    &&& block_of(r.disk, r.sb, r.inode, idx) == Some(bn)
    &&& forall|k: int|
        0 <= k < 140 && k != idx ==> #[trigger] block_of(r.disk, r.sb, r.inode, k) == block_of(
            disk,
            sb,
            m,
            k,
        )
    &&& forall|x: u32|
        in_use(disk, sb, x) && Some(x) != indirect_of(m) ==> #[trigger] r.disk[x as int]
            == disk[x as int]
    &&& forall|x: u32| in_use(disk, sb, x) ==> #[trigger] in_use(r.disk, r.sb, x)
    &&& forall|x: u32|
        #[trigger] in_use(r.disk, r.sb, x) && !in_use(disk, sb, x) ==> x == bn || indirect_of(
            r.inode,
        ) == Some(x)
    &&& indirect_of(r.inode) matches Some(ib2) ==> in_use(r.disk, r.sb, ib2) && (indirect_of(m)
        is Some ==> indirect_of(m) == Some(ib2)) && (indirect_of(m) is None ==> !in_use(
        disk,
        sb,
        ib2,
    ))
    &&& m.wf() ==> r.inode.wf()
    &&& indirect_of(m) is Some ==> indirect_of(r.inode) == indirect_of(m)
    &&& block_of(disk, sb, m, idx) is None ==> in_use(r.disk, r.sb, bn) && !in_use(disk, sb, bn)
        && r.disk[bn as int] == crate::codec::zeros(512) && indirect_of(r.inode) != Some(bn)
    &&& block_of(disk, sb, m, idx) is Some ==> r.disk == disk && r.sb == sb && r.inode.payload
        == m.payload
}

/// A successful `bmap` with `create` in the direct pointers leaves the
/// state as `mapped` says.
proof fn lemma_bmap_create_direct(disk: Seq<Seq<u8>>, sb: SuperBlock, m: InodeModel, off: u64)
    requires
        crate::bitmap::formatted(disk, sb),
        m.wf(),
        indirect_of(m) matches Some(ib) ==> in_use(disk, sb, ib),
        crate::inode::spec_bmap(disk, sb, m, off, true).res is Ok,
        off / 512 < 12,
    ensures
        mapped(disk, sb, m, off, crate::inode::spec_bmap(disk, sb, m, off, true)),
{
    reveal(crate::inode::spec_bmap);
    reveal(crate::inode::spec_bmap_create);
    reveal(crate::inode::spec_bmap_lookup);
    crate::bitmap::lemma_layout(sb);
    let r = crate::inode::spec_bmap(disk, sb, m, off, true);
    let idx = off as int / 512;
    let bp = m.block_ptrs()->0;
    let m1 = crate::inode::extended(m, off);
    match bp.direct[idx] {
        Some(b) => {},
        None => {
            let a = crate::bitmap::spec_alloc_data_block(disk, sb);
            lemma_alloc_data_block(disk, sb);
            let bn = a.res->Ok_0;
            let m2 = crate::inode::with_direct(m1, idx, bn);
            lemma_write_inode_formatted(a.disk, a.sb, m2);
            crate::bitmap::lemma_layout(a.sb);
            assert(r.inode == m2);
            assert forall|k: int| 0 <= k < 140 && k != idx implies #[trigger] block_of(
                r.disk,
                r.sb,
                r.inode,
                k,
            ) == block_of(disk, sb, m, k) by {
                if k >= 12 {
                    match bp.indirect {
                        Some(ib) => {
                            assert(in_use(disk, sb, ib));
                            assert(a.disk[ib as int] == disk[ib as int]);
                        },
                        None => {},
                    }
                }
            }
            assert forall|x: u32| in_use(disk, sb, x) implies #[trigger] in_use(
                r.disk,
                r.sb,
                x,
            ) by {
                lemma_in_use_geometry(a.disk, a.sb, sb, x);
            }
            lemma_in_use_geometry(a.disk, a.sb, sb, bn);
            assert forall|x: u32| #[trigger]
                in_use(r.disk, r.sb, x) && !in_use(disk, sb, x) implies x == bn by {
                lemma_in_use_geometry(a.disk, a.sb, sb, x);
            }
        },
    }
}

/// A successful `bmap` with `create` past the direct pointers leaves the
/// state as `mapped` says.
proof fn lemma_bmap_create_indirect(disk: Seq<Seq<u8>>, sb: SuperBlock, m: InodeModel, off: u64)
    requires
        crate::bitmap::formatted(disk, sb),
        m.wf(),
        indirect_of(m) matches Some(ib) ==> in_use(disk, sb, ib),
        crate::inode::spec_bmap(disk, sb, m, off, true).res is Ok,
        off / 512 >= 12,
    ensures
        mapped(disk, sb, m, off, crate::inode::spec_bmap(disk, sb, m, off, true)),
{
    reveal(crate::inode::spec_bmap);
    reveal(crate::inode::spec_bmap_create);
    reveal(crate::inode::spec_bmap_lookup);
    crate::bitmap::lemma_layout(sb);
    let r = crate::inode::spec_bmap(disk, sb, m, off, true);
    let idx = off as int / 512;
    let slot = idx - 12;
    let bp = m.block_ptrs()->0;
    let m1 = crate::inode::extended(m, off);
    match bp.indirect {
        Some(ib) => {
            lemma_bmap_slot(disk, sb, m1, ib, slot);
            let old_codes = crate::inode::indirect_codes(disk[ib as int]);
            let new_codes = crate::inode::indirect_codes(r.disk[ib as int]);
            assert(new_codes == old_codes.update(slot, r.res->Ok_0));
            assert(new_codes[slot] == r.res->Ok_0);
            assert forall|k: int| 0 <= k < 140 && k != idx implies #[trigger] block_of(
                r.disk,
                r.sb,
                r.inode,
                k,
            ) == block_of(disk, sb, m, k) by {
                if k >= 12 {
                    assert(new_codes[k - 12] == old_codes[k - 12]);
                }
            }
            assert(old_codes[slot] == crate::codec::get32(disk[ib as int], 4 * slot));
        },
        None => {
            let a = crate::bitmap::spec_alloc_data_block(disk, sb);
            lemma_alloc_data_block(disk, sb);
            let ib2 = a.res->Ok_0;
            let m2 = crate::inode::with_indirect(m1, ib2);
            crate::bitmap::lemma_layout(a.sb);
            lemma_in_use_geometry(a.disk, a.sb, sb, ib2);
            lemma_bmap_slot(a.disk, a.sb, m2, ib2, slot);
            let zero_codes = crate::inode::indirect_codes(a.disk[ib2 as int]);
            let new_codes = crate::inode::indirect_codes(r.disk[ib2 as int]);
            assert forall|q: int| 0 <= q < 128 implies #[trigger] zero_codes[q] == 0 by {
                crate::codec::lemma_le32_roundtrip(0);
                assert(crate::codec::le32(0u32) =~= seq![0u8, 0u8, 0u8, 0u8]) by {
                    assert(0u32 & 0xff == 0) by (bit_vector);
                    assert((0u32 >> 8) & 0xff == 0) by (bit_vector);
                    assert((0u32 >> 16) & 0xff == 0) by (bit_vector);
                    assert((0u32 >> 24) & 0xff == 0) by (bit_vector);
                }
                crate::layout::lemma_get32_bytes(a.disk[ib2 as int], 4 * q, 0);
            }
            assert(zero_codes[slot] == crate::codec::get32(a.disk[ib2 as int], 4 * slot));
            assert(new_codes == zero_codes.update(slot, r.res->Ok_0));
            assert(new_codes[slot] == r.res->Ok_0);
            let bn = r.res->Ok_0;
            assert(bn != 0);
            assert forall|k: int| 0 <= k < 140 && k != idx implies #[trigger] block_of(
                r.disk,
                r.sb,
                r.inode,
                k,
            ) == block_of(disk, sb, m, k) by {
                if k >= 12 {
                    assert(new_codes[k - 12] == zero_codes[k - 12]);
                }
            }
            assert forall|x: u32|
                in_use(disk, sb, x) && Some(x) != indirect_of(m) implies #[trigger] r.disk[x as int]
                == disk[x as int] by {
                lemma_in_use_geometry(a.disk, a.sb, sb, x);
                assert(in_use(a.disk, a.sb, x));
                assert(x != ib2);
            }
            assert forall|x: u32| in_use(disk, sb, x) implies #[trigger] in_use(
                r.disk,
                r.sb,
                x,
            ) by {
                lemma_in_use_geometry(a.disk, a.sb, sb, x);
                assert(in_use(a.disk, a.sb, x));
            }
            lemma_in_use_geometry(a.disk, a.sb, sb, bn);
            assert(in_use(r.disk, r.sb, ib2));
            assert forall|x: u32| #[trigger]
                in_use(r.disk, r.sb, x) && !in_use(disk, sb, x) implies x == bn || x == ib2 by {
                lemma_in_use_geometry(a.disk, a.sb, sb, x);
                if x != bn {
                    assert(in_use(a.disk, a.sb, x));
                }
            }
        },
    }
}

/// A successful `bmap` with `create` leaves the state as `mapped` says.
pub proof fn lemma_bmap_create(disk: Seq<Seq<u8>>, sb: SuperBlock, m: InodeModel, off: u64)
    requires
        crate::bitmap::formatted(disk, sb),
        m.wf(),
        indirect_of(m) matches Some(ib) ==> in_use(disk, sb, ib),
        crate::inode::spec_bmap(disk, sb, m, off, true).res is Ok,
    ensures
        mapped(disk, sb, m, off, crate::inode::spec_bmap(disk, sb, m, off, true)),
{
    if off / 512 < 12 {
        lemma_bmap_create_direct(disk, sb, m, off);
    } else {
        lemma_bmap_create_indirect(disk, sb, m, off);
    }
}

/// A lookup after an insert into a block that was appended finds the entry.
proof fn lemma_lookup_after_append(disk: Seq<Seq<u8>>, sb: SuperBlock, m: InodeModel, e: EntryModel)
    requires
        crate::bitmap::formatted(disk, sb),
        dir_wf(disk, sb, m),
        m.wf(),
        entry_ok(e),
        spec_dir_scan(disk, sb, m, e.name, false, 0) == Ok::<Option<(u32, int)>, FsError>(None),
        spec_dir_scan(disk, sb, m, e.name, true, 0) == Ok::<Option<(u32, int)>, FsError>(None),
        spec_dir_insert(disk, sb, m, e).res is Ok,
    ensures
        ({
            let s = spec_dir_insert(disk, sb, m, e);
            spec_dir_lookup(s.disk, s.sb, s.inode, e.name) == Ok::<u32, FsError>(e.inode_id)
        }),
{
    reveal(spec_dir_insert);
    reveal(spec_dir_lookup);
    let s = spec_dir_insert(disk, sb, m, e);
    let name = e.name;
    let a = crate::inode::spec_bmap(disk, sb, m, m.size, true);
    lemma_bmap_create(disk, sb, m, m.size);
    let bn = a.res->Ok_0;
    let idx = m.size as int / 512;
    let m1 = InodeModel { size: (m.size + 64) as u64, ..a.inode };
    let w = crate::inode::spec_write_inode(a.disk, a.sb, m1);
    lemma_write_inode_formatted(a.disk, a.sb, m1);
    crate::bitmap::lemma_layout(sb);
    crate::bitmap::lemma_layout(a.sb);
    lemma_scan_none(disk, sb, m, name, false, 0);
    let d2 = s.disk;
    assert(d2 == w.disk.update(bn as int, with_entry(a.disk[bn as int], 0, e)));
    assert(d2[bn as int] == with_entry(a.disk[bn as int], 0, e));
    assert(idx <= m.blocks);
    assert(m1.blocks == idx + 1);
    // The block of indirect pointers is not the block that takes the entry.
    assert(indirect_of(a.inode) != Some(bn)) by {
        if block_of(disk, sb, m, idx) is Some {
            assert(idx < m.blocks);
            assert(a.inode.block_ptrs() == m.block_ptrs());
            lemma_block_of_frame(disk, disk, sb, a.inode, m, idx);
            assert(block_of(disk, sb, m, idx) == Some(bn));
            match indirect_of(m) {
                Some(ib) => {
                    assert(block_of(disk, sb, m, idx) != Some(ib));
                },
                None => {},
            }
        }
    }
    assert forall|k: int| 0 <= k <= idx implies #[trigger] block_of(d2, a.sb, m1, k) == block_of(
        a.disk,
        a.sb,
        a.inode,
        k,
    ) by {
        match indirect_of(a.inode) {
            Some(ib2) => {
                assert(in_use(a.disk, a.sb, ib2));
                assert(d2[ib2 as int] == a.disk[ib2 as int]);
            },
            None => {},
        }
        lemma_block_of_frame(d2, a.disk, a.sb, m1, a.inode, k);
    }
    lemma_with_entry(a.disk[bn as int], 0, e, 0);
    assert(slot_fits(entry_at(d2[bn as int], 0), name, false));
    assert forall|k: int| 0 <= k < idx implies (#[trigger] block_of(d2, a.sb, m1, k)) is Some && (
    block_of(d2, a.sb, m1, k) == Some(bn) || no_fit(
        d2[block_of(d2, a.sb, m1, k)->0 as int],
        name,
        false,
    )) by {
        assert(block_of(a.disk, a.sb, a.inode, k) == block_of(disk, sb, m, k));
        let bk = block_of(disk, sb, m, k)->0;
        assert(in_use(disk, sb, bk));
        assert(Some(bk) != indirect_of(m));
        if bk != bn {
            assert(a.disk[bk as int] == disk[bk as int]);
            assert(d2[bk as int] == a.disk[bk as int]);
            assert(no_fit(disk[bk as int], name, false));
        }
    }
    lemma_scan_after_put(d2, a.sb, m1, name, false, bn, 0, idx, 0);
}

/// A lookup after an entry was added finds the entry: in a sound
/// directory, `dir_lookup` of the name of an entry that `dir_add_entry` has
/// just added gives the inode of that entry.
pub proof fn lemma_lookup_after_add(disk: Seq<Seq<u8>>, sb: SuperBlock, m: InodeModel, e: EntryModel)
    requires
        crate::bitmap::formatted(disk, sb),
        dir_wf(disk, sb, m),
        m.wf(),
        entry_ok(e),
        spec_dir_add_entry(disk, sb, m, e).res is Ok,
    ensures
        ({
            let s = spec_dir_add_entry(disk, sb, m, e);
            spec_dir_lookup(s.disk, s.sb, s.inode, e.name) == Ok::<u32, FsError>(e.inode_id)
        }),
{
    reveal(spec_dir_add_entry);
    reveal(spec_dir_insert);
    match spec_dir_scan(disk, sb, m, e.name, true, 0) {
        Ok(Some(_)) => {
            lemma_lookup_after_reuse(disk, sb, m, e);
        },
        Ok(None) => {
            lemma_lookup_after_append(disk, sb, m, e);
        },
        Err(_) => {},
    }
}

/// The number of slots of a block from slot `j` on that are not empty.
pub open spec fn used_in_block(block: Seq<u8>, j: int) -> int
    decreases 8 - j,
{
    if j >= 8 || j < 0 {
        0
    } else {
        used_in_block(block, j + 1) + if slot_is_empty(entry_at(block, j)) {
            0int
        } else {
            1int
        }
    }
}

/// The number of slots of a directory from block `k` on that are not empty.
pub open spec fn used_slots(disk: Seq<Seq<u8>>, sb: SuperBlock, m: InodeModel, k: int) -> int
    decreases m.blocks - k,
{
    if k >= m.blocks || k < 0 {
        0
    } else {
        used_slots(disk, sb, m, k + 1) + used_in_block(
            disk[block_of(disk, sb, m, k)->0 as int],
            0,
        )
    }
}

/// Whether a directory is sound and its size counts its entries: 64 bytes
/// for each slot that is not empty.
pub open spec fn dir_exact(disk: Seq<Seq<u8>>, sb: SuperBlock, m: InodeModel) -> bool {
    dir_wf(disk, sb, m) && m.wf() && m.size == 64 * used_slots(disk, sb, m, 0)
}

/// A block without an empty slot has eight slots in use.
pub proof fn lemma_used_full_block(block: Seq<u8>, name: Seq<u8>, j: int)
    requires
        0 <= j <= 8,
        no_fit(block, name, true),
    ensures
        used_in_block(block, j) == 8 - j,
    decreases 8 - j,
{
    if j < 8 {
        assert(!slot_fits(entry_at(block, j), name, true));
        lemma_used_full_block(block, name, j + 1);
    }
}

/// A directory without an empty slot has eight slots in use in each block.
pub proof fn lemma_used_full(
    disk: Seq<Seq<u8>>,
    sb: SuperBlock,
    m: InodeModel,
    name: Seq<u8>,
    k: int,
)
    requires
        0 <= k <= m.blocks,
        spec_dir_scan(disk, sb, m, name, true, 0) == Ok::<Option<(u32, int)>, FsError>(None),
    ensures
        used_slots(disk, sb, m, k) == 8 * (m.blocks - k),
    decreases m.blocks - k,
{
    if k < m.blocks {
        lemma_scan_none(disk, sb, m, name, true, 0);
        let b = block_of(disk, sb, m, k)->0;
        assert(no_fit(disk[b as int], name, true));
        lemma_used_full_block(disk[b as int], name, 0);
        lemma_used_full(disk, sb, m, name, k + 1);
    }
}

/// The slots of a zeroed block are empty.
pub proof fn lemma_zero_block_empty(j: int)
    requires
        0 <= j < 8,
    ensures
        entry_at(crate::codec::zeros(512), j) == EntryModel::null(),
        slot_is_empty(EntryModel::null()),
{
    let z = crate::codec::zeros(512);
    let sub = z.subrange(64 * j, 64 * j + 64);
    assert(crate::codec::le32(0u32) =~= seq![0u8, 0u8, 0u8, 0u8]) by {
        assert(0u32 & 0xff == 0) by (bit_vector);
        assert((0u32 >> 8) & 0xff == 0) by (bit_vector);
        assert((0u32 >> 16) & 0xff == 0) by (bit_vector);
        assert((0u32 >> 24) & 0xff == 0) by (bit_vector);
    }
    crate::layout::lemma_get32_bytes(sub, 0, 0);
    assert(sub.subrange(4, 64) =~= crate::codec::zeros(60));
    lemma_trimmed_zeros(60);
}

/// A name of zeros is empty once trimmed.
pub proof fn lemma_trimmed_zeros(n: nat)
    ensures
        trimmed(crate::codec::zeros(n)).len() == 0,
    decreases n,
{
    if n > 0 {
        assert(crate::codec::zeros(n).drop_last() =~= crate::codec::zeros((n - 1) as nat));
        lemma_trimmed_zeros((n - 1) as nat);
    }
}

/// Whether block `x` is a block of the directory `m`: one of its blocks of
/// entries, or its block of indirect pointers.
pub open spec fn owns(disk: Seq<Seq<u8>>, sb: SuperBlock, m: InodeModel, x: u32) -> bool {
    ||| indirect_of(m) == Some(x)
    ||| exists|k: int| 0 <= k < m.blocks && #[trigger] block_of(disk, sb, m, k) == Some(x)
}

/// Whether `s` is what `dir_add_entry` leaves of the directory `m` when it
/// puts `e` into slot `jt` of block `kt`: the slot was empty, or it is the
/// first slot of a block that was appended; the slot holds `e`, every other
/// slot holds what it held, and the directory has grown by one entry.
pub open spec fn placed(
    disk: Seq<Seq<u8>>,
    sb: SuperBlock,
    m: InodeModel,
    e: EntryModel,
    s: crate::inode::InodeStep<()>,
    kt: int,
    jt: int,
) -> bool {
    let m1 = s.inode;
    &&& crate::bitmap::formatted(s.disk, s.sb)
    &&& crate::superblock::same_geometry(s.sb, sb)
    &&& s.sb.free_inodes == sb.free_inodes
    &&& s.disk.len() == disk.len()
    &&& crate::inode::same_identity(m1, m)
    &&& m1.wf()
    &&& m1.size == m.size + 64
    &&& 0 <= jt < 8
    &&& 0 <= kt < m1.blocks
    &&& kt < m.blocks ==> m1.blocks == m.blocks && slot_is_empty(slot(disk, sb, m, kt, jt))
    &&& kt >= m.blocks ==> kt == m.blocks && m1.blocks == m.blocks + 1 && jt == 0 && (forall|
        q: int,
    | 1 <= q < 8 ==> #[trigger] slot(s.disk, s.sb, m1, kt, q) == EntryModel::null())
    &&& forall|k: int| 0 <= k < m1.blocks ==> (#[trigger] block_of(s.disk, s.sb, m1, k)) is Some
    &&& forall|k: int|
        0 <= k < m.blocks ==> #[trigger] block_of(s.disk, s.sb, m1, k) == block_of(disk, sb, m, k)
    &&& forall|k: int, q: int|
        0 <= k < m.blocks && 0 <= q < 8 && !(k == kt && q == jt) ==> #[trigger] slot(
            s.disk,
            s.sb,
            m1,
            k,
            q,
        ) == slot(disk, sb, m, k, q)
    &&& slot(s.disk, s.sb, m1, kt, jt) == e
    &&& forall|x: u32| in_use(disk, sb, x) ==> #[trigger] in_use(s.disk, s.sb, x)
    &&& forall|k: int|
        0 <= k < m1.blocks ==> in_use(s.disk, s.sb, (#[trigger] block_of(s.disk, s.sb, m1, k))->0)
    &&& forall|k: int| m1.blocks <= k < 140 ==> (#[trigger] block_of(s.disk, s.sb, m1, k)) is None
    &&& indirect_of(m1) matches Some(ib) ==> in_use(s.disk, s.sb, ib) && (forall|k: int|
        0 <= k < m1.blocks ==> #[trigger] block_of(s.disk, s.sb, m1, k) != Some(ib))
    &&& kt >= m.blocks ==> !in_use(disk, sb, block_of(s.disk, s.sb, m1, kt)->0)
    &&& forall|x: u32|
        in_use(disk, sb, x) && !owns(disk, sb, m, x) ==> #[trigger] s.disk[x as int]
            == disk[x as int]
    &&& forall|x: u32|
        in_use(s.disk, s.sb, x) && !in_use(disk, sb, x) ==> #[trigger] owns(s.disk, s.sb, m1, x)
    &&& forall|x: u32|
        #[trigger] owns(s.disk, s.sb, m1, x) && !owns(disk, sb, m, x) ==> !in_use(disk, sb, x)
}

/// An insert into an empty slot places the entry there.
proof fn lemma_placed_reuse(disk: Seq<Seq<u8>>, sb: SuperBlock, m: InodeModel, e: EntryModel) -> (t:
    (int, int))
    requires
        crate::bitmap::formatted(disk, sb),
        dir_exact(disk, sb, m),
        e.name.len() == 60,
        spec_dir_scan(disk, sb, m, e.name, true, 0) matches Ok(Some(_)),
        spec_dir_insert(disk, sb, m, e).res is Ok,
    ensures
        placed(disk, sb, m, e, spec_dir_insert(disk, sb, m, e), t.0, t.1),
        t.0 < m.blocks,
{
    reveal(spec_dir_insert);
    let s = spec_dir_insert(disk, sb, m, e);
    let name = e.name;
    let at = lemma_scan_some(disk, sb, m, name, true, 0);
    let (b, j) = spec_dir_scan(disk, sb, m, name, true, 0)->Ok_0->0;
    lemma_scan_slots_found(disk[b as int], name, true, 0);
    let m1 = InodeModel { size: (m.size + 64) as u64, ..m };
    let w = crate::inode::spec_write_inode(disk, sb, m1);
    lemma_write_inode_formatted(disk, sb, m1);
    crate::bitmap::lemma_layout(sb);
    let d2 = s.disk;
    let nb = with_entry(disk[b as int], j, e);
    assert(d2 == w.disk.update(b as int, nb));
    crate::frame::lemma_bmap_lookup_data(disk, sb, m, (at * 512) as u64);
    crate::bitmap::lemma_formatted_update(w.disk, sb, b as int, nb);
    assert(d2[b as int] == nb);
    lemma_blocks_bound(disk, sb, m);
    assert forall|k: int| 0 <= k < 140 implies #[trigger] block_of(d2, sb, m1, k) == block_of(
        disk,
        sb,
        m,
        k,
    ) by {
        match indirect_of(m) {
            Some(ib) => {
                assert(block_of(disk, sb, m, at) != Some(ib));
                assert(sb.is_data_block(ib));
            },
            None => {},
        }
        lemma_block_of_frame(d2, disk, sb, m1, m, k);
    }
    assert forall|k: int, q: int|
        0 <= k < m.blocks && 0 <= q < 8 && !(k == at && q == j) implies #[trigger] slot(
        d2,
        sb,
        m1,
        k,
        q,
    ) == slot(disk, sb, m, k, q) by {
        let bk = block_of(disk, sb, m, k)->0;
        crate::frame::lemma_bmap_lookup_data(disk, sb, m, (k * 512) as u64);
        assert(block_of(disk, sb, m, k) is Some);
        assert(block_of(d2, sb, m1, k) == block_of(disk, sb, m, k));
        assert(sb.is_data_block(bk));
        if k == at {
            assert(bk == b);
            lemma_with_entry(disk[b as int], j, e, q);
        } else {
            if k < at {
                assert(block_of(disk, sb, m, k) != block_of(disk, sb, m, at));
            } else {
                assert(block_of(disk, sb, m, at) != block_of(disk, sb, m, k));
            }
            assert(bk != b);
            assert(w.disk[bk as int] == disk[bk as int]);
            assert(d2[bk as int] == disk[bk as int]);
        }
    }
    lemma_with_entry(disk[b as int], j, e, j);
    assert forall|x: u32| in_use(disk, sb, x) implies #[trigger] in_use(d2, sb, x) by {
        lemma_in_use_frame(d2, disk, sb, x);
    }
    assert forall|x: u32| #[trigger] owns(d2, sb, m1, x) implies owns(disk, sb, m, x) by {
        if indirect_of(m1) != Some(x) {
            let k = choose|k: int| 0 <= k < m1.blocks && #[trigger] block_of(d2, sb, m1, k) == Some(x);
            assert(block_of(disk, sb, m, k) == Some(x));
        }
    }
    (at, j)
}

/// A sound directory has at most 140 blocks.
pub proof fn lemma_blocks_bound(disk: Seq<Seq<u8>>, sb: SuperBlock, m: InodeModel)
    requires
        dir_wf(disk, sb, m),
    ensures
        m.blocks <= 140,
{
    reveal(crate::inode::spec_bmap_lookup);
    if m.blocks > 140 {
        assert(block_of(disk, sb, m, 140) is Some);
    }
}

/// The slots in use of a directory fit in its blocks.
pub proof fn lemma_used_bound(disk: Seq<Seq<u8>>, sb: SuperBlock, m: InodeModel, k: int)
    requires
        0 <= k <= m.blocks,
    ensures
        0 <= used_slots(disk, sb, m, k) <= 8 * (m.blocks - k),
    decreases m.blocks - k,
{
    if k < m.blocks {
        lemma_used_bound(disk, sb, m, k + 1);
        lemma_used_block_bound(disk[block_of(disk, sb, m, k)->0 as int], 0);
    }
}

/// The slots in use of a block are at most eight.
pub proof fn lemma_used_block_bound(block: Seq<u8>, j: int)
    requires
        0 <= j <= 8,
    ensures
        0 <= used_in_block(block, j) <= 8 - j,
    decreases 8 - j,
{
    if j < 8 {
        lemma_used_block_bound(block, j + 1);
    }
}

/// An insert into a block that is appended places the entry in its first
/// slot.
proof fn lemma_placed_append(disk: Seq<Seq<u8>>, sb: SuperBlock, m: InodeModel, e: EntryModel)
    requires
        crate::bitmap::formatted(disk, sb),
        dir_exact(disk, sb, m),
        e.name.len() == 60,
        spec_dir_scan(disk, sb, m, e.name, true, 0) == Ok::<Option<(u32, int)>, FsError>(None),
        spec_dir_insert(disk, sb, m, e).res is Ok,
    ensures
        placed(disk, sb, m, e, spec_dir_insert(disk, sb, m, e), m.blocks as int, 0),
{
    reveal(spec_dir_insert);
    let s = spec_dir_insert(disk, sb, m, e);
    let name = e.name;
    lemma_used_full(disk, sb, m, name, 0);
    lemma_blocks_bound(disk, sb, m);
    let a = crate::inode::spec_bmap(disk, sb, m, m.size, true);
    lemma_bmap_create(disk, sb, m, m.size);
    let bn = a.res->Ok_0;
    let idx = m.size as int / 512;
    assert(idx == m.blocks);
    assert(block_of(disk, sb, m, idx) is None);
    let m1 = InodeModel { size: (m.size + 64) as u64, ..a.inode };
    let w = crate::inode::spec_write_inode(a.disk, a.sb, m1);
    lemma_write_inode_formatted(a.disk, a.sb, m1);
    crate::bitmap::lemma_layout(sb);
    crate::bitmap::lemma_layout(a.sb);
    let d2 = s.disk;
    let nb = with_entry(a.disk[bn as int], 0, e);
    assert(d2 == w.disk.update(bn as int, nb));
    crate::bitmap::lemma_formatted_update(w.disk, a.sb, bn as int, nb);
    assert(d2[bn as int] == nb);
    assert(m1.blocks == idx + 1);
    assert forall|k: int| 0 <= k < 140 implies #[trigger] block_of(d2, a.sb, m1, k) == block_of(
        a.disk,
        a.sb,
        a.inode,
        k,
    ) by {
        match indirect_of(a.inode) {
            Some(ib2) => {
                assert(in_use(a.disk, a.sb, ib2));
                assert(d2[ib2 as int] == a.disk[ib2 as int]);
            },
            None => {},
        }
        lemma_block_of_frame(d2, a.disk, a.sb, m1, a.inode, k);
    }
    assert forall|x: u32| in_use(a.disk, a.sb, x) == in_use(d2, a.sb, x) by {
        lemma_in_use_frame(d2, a.disk, a.sb, x);
    }
    assert forall|k: int, q: int|
        0 <= k < m.blocks && 0 <= q < 8 && !(k == idx && q == 0) implies #[trigger] slot(
        d2,
        a.sb,
        m1,
        k,
        q,
    ) == slot(disk, sb, m, k, q) by {
        let bk = block_of(disk, sb, m, k)->0;
        assert(block_of(d2, a.sb, m1, k) == block_of(a.disk, a.sb, a.inode, k));
        assert(block_of(a.disk, a.sb, a.inode, k) == block_of(disk, sb, m, k));
        assert(in_use(disk, sb, bk));
        assert(Some(bk) != indirect_of(m));
        assert(a.disk[bk as int] == disk[bk as int]);
        assert(d2[bk as int] == a.disk[bk as int]);
    }
    assert forall|q: int| 0 <= q < 8 implies #[trigger] slot(d2, a.sb, m1, idx, q) == (if q == 0 {
        e
    } else {
        EntryModel::null()
    }) by {
        assert(block_of(d2, a.sb, m1, idx) == block_of(a.disk, a.sb, a.inode, idx));
        lemma_with_entry(a.disk[bn as int], 0, e, q);
        lemma_zero_block_empty(q);
    }
    assert forall|k: int| 0 <= k < m1.blocks implies (#[trigger] block_of(d2, a.sb, m1, k)) is Some
        && in_use(d2, a.sb, block_of(d2, a.sb, m1, k)->0) by {
        assert(block_of(d2, a.sb, m1, k) == block_of(a.disk, a.sb, a.inode, k));
        if k < idx {
            assert(block_of(a.disk, a.sb, a.inode, k) == block_of(disk, sb, m, k));
            let bk = block_of(disk, sb, m, k)->0;
            assert(in_use(disk, sb, bk));
            assert(in_use(a.disk, a.sb, bk));
        }
    }
    assert forall|k: int| m1.blocks <= k < 140 implies (#[trigger] block_of(d2, a.sb, m1, k))
        is None by {
        assert(block_of(d2, a.sb, m1, k) == block_of(a.disk, a.sb, a.inode, k));
        assert(block_of(a.disk, a.sb, a.inode, k) == block_of(disk, sb, m, k));
    }
    match indirect_of(m1) {
        Some(ib) => {
            assert(indirect_of(a.inode) == Some(ib));
            assert forall|k: int| 0 <= k < m1.blocks implies #[trigger] block_of(d2, a.sb, m1, k)
                != Some(ib) by {
                assert(block_of(d2, a.sb, m1, k) == block_of(a.disk, a.sb, a.inode, k));
                if k < idx {
                    assert(block_of(a.disk, a.sb, a.inode, k) == block_of(disk, sb, m, k));
                    let bk = block_of(disk, sb, m, k)->0;
                    assert(in_use(disk, sb, bk));
                }
            }
        },
        None => {},
    }
    assert forall|x: u32| in_use(disk, sb, x) implies #[trigger] in_use(d2, a.sb, x) by {
        assert(in_use(a.disk, a.sb, x));
    }
    assert forall|x: u32| in_use(disk, sb, x) && !owns(disk, sb, m, x) implies #[trigger] d2[x as int]
        == disk[x as int] by {
        assert(Some(x) != indirect_of(m));
        assert(a.disk[x as int] == disk[x as int]);
    }
    assert forall|x: u32| in_use(d2, a.sb, x) && !in_use(disk, sb, x) implies #[trigger] owns(
        d2,
        a.sb,
        m1,
        x,
    ) by {
        assert(in_use(a.disk, a.sb, x));
        if x == bn {
            assert(block_of(d2, a.sb, m1, idx) == Some(x));
        }
    }
    assert forall|x: u32| #[trigger] owns(d2, a.sb, m1, x) && !owns(disk, sb, m, x) implies !in_use(
        disk,
        sb,
        x,
    ) by {
        if indirect_of(m1) == Some(x) {
            assert(indirect_of(a.inode) == Some(x));
        } else {
            let k = choose|k: int| 0 <= k < m1.blocks && #[trigger] block_of(d2, a.sb, m1, k) == Some(x);
            assert(block_of(d2, a.sb, m1, k) == block_of(a.disk, a.sb, a.inode, k));
            if k < idx {
                assert(block_of(a.disk, a.sb, a.inode, k) == block_of(disk, sb, m, k));
            }
        }
    }
}

/// Where `dir_add_entry` puts an entry: in a sound directory whose size
/// counts its entries, the entry goes to a slot that was empty or to the
/// first slot of a block that is appended, and no other slot changes. No
/// entry is ever overwritten.
pub proof fn lemma_add_places(disk: Seq<Seq<u8>>, sb: SuperBlock, m: InodeModel, e: EntryModel) -> (t:
    (int, int))
    requires
        crate::bitmap::formatted(disk, sb),
        dir_exact(disk, sb, m),
        e.name.len() == 60,
        spec_dir_add_entry(disk, sb, m, e).res is Ok,
    ensures
        placed(disk, sb, m, e, spec_dir_add_entry(disk, sb, m, e), t.0, t.1),
        spec_dir_scan(disk, sb, m, e.name, false, 0) == Ok::<Option<(u32, int)>, FsError>(None),
        t.0 >= m.blocks ==> spec_dir_scan(disk, sb, m, e.name, true, 0) == Ok::<
            Option<(u32, int)>,
            FsError,
        >(None),
{
    reveal(spec_dir_add_entry);
    reveal(spec_dir_insert);
    match spec_dir_scan(disk, sb, m, e.name, true, 0) {
        Ok(Some(_)) => lemma_placed_reuse(disk, sb, m, e),
        _ => {
            lemma_placed_append(disk, sb, m, e);
            (m.blocks as int, 0)
        },
    }
}

/// Adding an entry keeps every other entry where a lookup finds it: in a
/// sound directory whose size counts its entries, a name that `dir_lookup`
/// found before `dir_add_entry` is found after it, with the same inode.
pub proof fn lemma_lookup_kept_by_add(
    disk: Seq<Seq<u8>>,
    sb: SuperBlock,
    m: InodeModel,
    e: EntryModel,
    name: Seq<u8>,
)
    requires
        crate::bitmap::formatted(disk, sb),
        dir_exact(disk, sb, m),
        e.name.len() == 60,
        spec_dir_add_entry(disk, sb, m, e).res is Ok,
        spec_dir_lookup(disk, sb, m, name) is Ok,
    ensures
        ({
            let s = spec_dir_add_entry(disk, sb, m, e);
            spec_dir_lookup(s.disk, s.sb, s.inode, name) == spec_dir_lookup(disk, sb, m, name)
        }),
{
    let s = spec_dir_add_entry(disk, sb, m, e);
    let t = lemma_add_places(disk, sb, m, e);
    let (kt, jt) = t;
    reveal(spec_dir_lookup);
    let at = lemma_scan_some(disk, sb, m, name, false, 0);
    let (b, j) = spec_dir_scan(disk, sb, m, name, false, 0)->Ok_0->0;
    lemma_scan_slots_found(disk[b as int], name, false, 0);
    lemma_scan_none(disk, sb, m, e.name, false, 0);
    let d2 = s.disk;
    let m1 = s.inode;
    // The entry that was added does not have the name looked up.
    assert(!slot_fits(e, name, false)) by {
        if slot_fits(e, name, false) {
            lemma_names_match_trans(slot(disk, sb, m, at, j).name, e.name, name);
            assert(no_fit(disk[b as int], e.name, false));
            assert(slot_fits(entry_at(disk[b as int], j), e.name, false));
        }
    }
    assert forall|k: int, q: int| 0 <= k <= at && 0 <= q < 8 implies slot_fits(
        #[trigger] slot(d2, s.sb, m1, k, q),
        name,
        false,
    ) == slot_fits(slot(disk, sb, m, k, q), name, false) by {
        if k == kt && q == jt {
        } else {
            assert(slot(d2, s.sb, m1, k, q) == slot(disk, sb, m, k, q));
        }
    }
    assert forall|k: int| 0 <= k < at implies (#[trigger] block_of(d2, s.sb, m1, k)) is Some
        && no_fit(d2[block_of(d2, s.sb, m1, k)->0 as int], name, false) by {
        let bk = block_of(disk, sb, m, k)->0;
        assert(block_of(d2, s.sb, m1, k) == block_of(disk, sb, m, k));
        assert(no_fit(disk[bk as int], name, false));
        assert forall|q: int| 0 <= q < 8 implies !slot_fits(
            #[trigger] entry_at(d2[bk as int], q),
            name,
            false,
        ) by {
            assert(entry_at(d2[bk as int], q) == slot(d2, s.sb, m1, k, q));
            assert(entry_at(disk[bk as int], q) == slot(disk, sb, m, k, q));
        }
    }
    assert(block_of(d2, s.sb, m1, at) == Some(b));
    assert forall|q: int| 0 <= q < j implies !slot_fits(
        #[trigger] entry_at(d2[b as int], q),
        name,
        false,
    ) by {
        assert(entry_at(d2[b as int], q) == slot(d2, s.sb, m1, at, q));
        assert(entry_at(disk[b as int], q) == slot(disk, sb, m, at, q));
    }
    assert(entry_at(d2[b as int], j) == slot(d2, s.sb, m1, at, j));
    assert(entry_at(disk[b as int], j) == slot(disk, sb, m, at, j));
    assert(slot(d2, s.sb, m1, at, j) == slot(disk, sb, m, at, j));
    lemma_scan_slots_first(d2[b as int], name, false, 0, j);
    lemma_scan_reaches(d2, s.sb, m1, name, false, 0, at, b, j);
}

/// Whether `s` is what `dir_rm_entry` leaves of the directory `m` when it
/// takes the entry in slot `jt` of block `kt`: the slot held the first entry
/// of that name and is empty now, every other slot holds what it held, the
/// directory has shrunk by one entry, and the bitmaps are as they were.
pub open spec fn cleared(
    disk: Seq<Seq<u8>>,
    sb: SuperBlock,
    m: InodeModel,
    name: Seq<u8>,
    s: crate::inode::InodeStep<u32>,
    kt: int,
    jt: int,
) -> bool {
    let m1 = s.inode;
    &&& crate::bitmap::formatted(s.disk, s.sb)
    &&& s.sb == sb
    &&& s.disk.len() == disk.len()
    &&& m1 == (InodeModel { size: m1.size, ..m })
    &&& m1.size == m.size - 64
    &&& 0 <= jt < 8
    &&& 0 <= kt < m.blocks
    &&& slot_fits(slot(disk, sb, m, kt, jt), name, false)
    &&& s.res == Ok::<u32, FsError>(slot(disk, sb, m, kt, jt).inode_id)
    &&& !names_match(name, crate::directory::dot())
    &&& !names_match(name, crate::directory::dotdot())
    &&& forall|k: int|
        0 <= k < 140 ==> #[trigger] block_of(s.disk, s.sb, m1, k) == block_of(disk, sb, m, k)
    &&& forall|k: int, q: int|
        0 <= k < m.blocks && 0 <= q < 8 && !(k == kt && q == jt) ==> #[trigger] slot(
            s.disk,
            s.sb,
            m1,
            k,
            q,
        ) == slot(disk, sb, m, k, q)
    &&& slot(s.disk, s.sb, m1, kt, jt) == EntryModel::null()
    &&& forall|x: u32| in_use(disk, sb, x) == #[trigger] in_use(s.disk, s.sb, x)
    &&& forall|x: u32|
        in_use(disk, sb, x) && !owns(disk, sb, m, x) ==> #[trigger] s.disk[x as int]
            == disk[x as int]
}

/// What `dir_rm_entry` takes: in a sound directory, the slot of the first
/// entry of the name is emptied and no other slot changes. The entries `.`
/// and `..` are never taken.
pub proof fn lemma_rm_clears(disk: Seq<Seq<u8>>, sb: SuperBlock, m: InodeModel, name: Seq<u8>) -> (t:
    (int, int))
    requires
        crate::bitmap::formatted(disk, sb),
        dir_wf(disk, sb, m),
        spec_dir_rm_entry(disk, sb, m, name).res is Ok,
    ensures
        cleared(disk, sb, m, name, spec_dir_rm_entry(disk, sb, m, name), t.0, t.1),
{
    reveal(spec_dir_rm_entry);
    let s = spec_dir_rm_entry(disk, sb, m, name);
    let at = lemma_scan_some(disk, sb, m, name, false, 0);
    let (b, j) = spec_dir_scan(disk, sb, m, name, false, 0)->Ok_0->0;
    lemma_scan_slots_found(disk[b as int], name, false, 0);
    let m1 = InodeModel { size: (m.size - 64) as u64, ..m };
    let w = crate::inode::spec_write_inode(disk, sb, m1);
    lemma_write_inode_formatted(disk, sb, m1);
    crate::bitmap::lemma_layout(sb);
    lemma_blocks_bound(disk, sb, m);
    let d2 = s.disk;
    let null = EntryModel::null();
    let nb = with_entry(disk[b as int], j, null);
    assert(d2 == w.disk.update(b as int, nb));
    crate::frame::lemma_bmap_lookup_data(disk, sb, m, (at * 512) as u64);
    crate::bitmap::lemma_formatted_update(w.disk, sb, b as int, nb);
    assert(d2[b as int] == nb);
    assert forall|k: int| 0 <= k < 140 implies #[trigger] block_of(d2, sb, m1, k) == block_of(
        disk,
        sb,
        m,
        k,
    ) by {
        match indirect_of(m) {
            Some(ib) => {
                assert(block_of(disk, sb, m, at) != Some(ib));
                assert(sb.is_data_block(ib));
            },
            None => {},
        }
        lemma_block_of_frame(d2, disk, sb, m1, m, k);
    }
    assert forall|k: int, q: int|
        0 <= k < m.blocks && 0 <= q < 8 && !(k == at && q == j) implies #[trigger] slot(
        d2,
        sb,
        m1,
        k,
        q,
    ) == slot(disk, sb, m, k, q) by {
        let bk = block_of(disk, sb, m, k)->0;
        crate::frame::lemma_bmap_lookup_data(disk, sb, m, (k * 512) as u64);
        assert(block_of(d2, sb, m1, k) == block_of(disk, sb, m, k));
        if k == at {
            lemma_with_entry(disk[b as int], j, null, q);
        } else {
            if k < at {
                assert(block_of(disk, sb, m, k) != block_of(disk, sb, m, at));
            } else {
                assert(block_of(disk, sb, m, at) != block_of(disk, sb, m, k));
            }
            assert(w.disk[bk as int] == disk[bk as int]);
        }
    }
    lemma_with_entry(disk[b as int], j, null, j);
    assert forall|x: u32| in_use(disk, sb, x) == #[trigger] in_use(d2, sb, x) by {
        lemma_in_use_frame(d2, disk, sb, x);
    }
    assert forall|x: u32| in_use(disk, sb, x) && !owns(disk, sb, m, x) implies #[trigger] d2[x as int]
        == disk[x as int] by {
        assert(block_of(disk, sb, m, at) != Some(x));
    }
    (at, j)
}

/// Removing an entry keeps every other entry where a lookup finds it: in a
/// sound directory without two entries of one name, a lookup of another name
/// gives after `dir_rm_entry` what it gave before.
pub proof fn lemma_lookup_kept_by_rm(
    disk: Seq<Seq<u8>>,
    sb: SuperBlock,
    m: InodeModel,
    name: Seq<u8>,
    other: Seq<u8>,
)
    requires
        crate::bitmap::formatted(disk, sb),
        dir_wf(disk, sb, m),
        spec_dir_rm_entry(disk, sb, m, name).res is Ok,
        spec_dir_lookup(disk, sb, m, other) is Ok,
        !names_match(other, name),
    ensures
        ({
            let s = spec_dir_rm_entry(disk, sb, m, name);
            spec_dir_lookup(s.disk, s.sb, s.inode, other) == spec_dir_lookup(disk, sb, m, other)
        }),
{
    let s = spec_dir_rm_entry(disk, sb, m, name);
    let t = lemma_rm_clears(disk, sb, m, name);
    let (kt, jt) = t;
    lemma_blocks_bound(disk, sb, m);
    reveal(spec_dir_lookup);
    let at = lemma_scan_some(disk, sb, m, other, false, 0);
    let (b, j) = spec_dir_scan(disk, sb, m, other, false, 0)->Ok_0->0;
    lemma_scan_slots_found(disk[b as int], other, false, 0);
    let d2 = s.disk;
    let m1 = s.inode;
    lemma_trimmed_zeros(60);
    assert(!slot_fits(EntryModel::null(), other, false));
    // The slot that was emptied did not hold the name looked up.
    assert(!(at == kt && j == jt)) by {
        if at == kt && j == jt {
            lemma_names_match_trans(other, name, slot(disk, sb, m, kt, jt).name);
        }
    }
    assert forall|k: int| 0 <= k < at implies (#[trigger] block_of(d2, s.sb, m1, k)) is Some
        && no_fit(d2[block_of(d2, s.sb, m1, k)->0 as int], other, false) by {
        let bk = block_of(disk, sb, m, k)->0;
        assert(block_of(d2, s.sb, m1, k) == block_of(disk, sb, m, k));
        assert(no_fit(disk[bk as int], other, false));
        assert forall|q: int| 0 <= q < 8 implies !slot_fits(
            #[trigger] entry_at(d2[bk as int], q),
            other,
            false,
        ) by {
            assert(entry_at(d2[bk as int], q) == slot(d2, s.sb, m1, k, q));
            assert(entry_at(disk[bk as int], q) == slot(disk, sb, m, k, q));
        }
    }
    assert(block_of(d2, s.sb, m1, at) == Some(b));
    assert forall|q: int| 0 <= q < j implies !slot_fits(
        #[trigger] entry_at(d2[b as int], q),
        other,
        false,
    ) by {
        assert(entry_at(d2[b as int], q) == slot(d2, s.sb, m1, at, q));
        assert(entry_at(disk[b as int], q) == slot(disk, sb, m, at, q));
    }
    assert(entry_at(d2[b as int], j) == slot(d2, s.sb, m1, at, j));
    assert(entry_at(disk[b as int], j) == slot(disk, sb, m, at, j));
    assert(slot(d2, s.sb, m1, at, j) == slot(disk, sb, m, at, j));
    lemma_scan_slots_first(d2[b as int], other, false, 0, j);
    lemma_scan_reaches(d2, s.sb, m1, other, false, 0, at, b, j);
}

/// The entries `.` and `..` cannot be removed: `dir_rm_entry` refuses their
/// names and changes nothing.
pub proof fn lemma_rm_refuses_dots(disk: Seq<Seq<u8>>, sb: SuperBlock, m: InodeModel, name: Seq<u8>)
    requires
        m.ftype == FileType::Directory,
        names_match(name, crate::directory::dot()) || names_match(
            name,
            crate::directory::dotdot(),
        ),
    ensures
        spec_dir_rm_entry(disk, sb, m, name) == (crate::inode::InodeStep {
            res: Err::<u32, FsError>(FsError::InvalidFileName),
            disk,
            sb,
            inode: m,
        }),
{
    reveal(spec_dir_rm_entry);
}

/// One for a slot in use, nothing for an empty slot.
pub open spec fn used(e: EntryModel) -> int {
    if slot_is_empty(e) {
        0
    } else {
        1
    }
}

/// Two blocks that differ in slot `jt` at most differ in their slots in use
/// by what that slot counts.
pub proof fn lemma_used_block_diff(b1: Seq<u8>, b2: Seq<u8>, jt: int, j: int)
    requires
        0 <= j <= 8,
        forall|q: int|
            0 <= q < 8 && q != jt ==> slot_is_empty(#[trigger] entry_at(b2, q)) == slot_is_empty(
                entry_at(b1, q),
            ),
    ensures
        used_in_block(b2, j) - used_in_block(b1, j) == (if j <= jt < 8 {
            used(entry_at(b2, jt)) - used(entry_at(b1, jt))
        } else {
            0
        }),
    decreases 8 - j,
{
    if j < 8 {
        lemma_used_block_diff(b1, b2, jt, j + 1);
        if j != jt {
            assert(slot_is_empty(entry_at(b2, j)) == slot_is_empty(entry_at(b1, j)));
        }
    }
}

/// Two directories with the same number of blocks whose slots differ in
/// slot `jt` of block `kt` at most differ in their slots in use by what that
/// slot counts.
pub proof fn lemma_used_slots_diff(
    d1: Seq<Seq<u8>>,
    sb1: SuperBlock,
    m1: InodeModel,
    d2: Seq<Seq<u8>>,
    sb2: SuperBlock,
    m2: InodeModel,
    kt: int,
    jt: int,
    k: int,
    upto: int,
)
    requires
        0 <= k <= upto,
        upto <= m1.blocks,
        upto <= m2.blocks,
        0 <= jt < 8,
        forall|i: int, q: int|
            0 <= i < upto && 0 <= q < 8 && !(i == kt && q == jt) ==> slot_is_empty(
                #[trigger] slot(d2, sb2, m2, i, q),
            ) == slot_is_empty(slot(d1, sb1, m1, i, q)),
    ensures
        (used_slots(d2, sb2, m2, k) - used_slots(d2, sb2, m2, upto)) - (used_slots(d1, sb1, m1, k)
            - used_slots(d1, sb1, m1, upto)) == (if k <= kt < upto {
            used(slot(d2, sb2, m2, kt, jt)) - used(slot(d1, sb1, m1, kt, jt))
        } else {
            0
        }),
    decreases upto - k,
{
    if k < upto {
        lemma_used_slots_diff(d1, sb1, m1, d2, sb2, m2, kt, jt, k + 1, upto);
        let b1 = d1[block_of(d1, sb1, m1, k)->0 as int];
        let b2 = d2[block_of(d2, sb2, m2, k)->0 as int];
        assert forall|q: int| 0 <= q < 8 && (q != jt || k != kt) implies slot_is_empty(
            #[trigger] entry_at(b2, q),
        ) == slot_is_empty(entry_at(b1, q)) by {
            assert(entry_at(b2, q) == slot(d2, sb2, m2, k, q));
            assert(entry_at(b1, q) == slot(d1, sb1, m1, k, q));
        }
        if k == kt {
            lemma_used_block_diff(b1, b2, jt, 0);
        } else {
            lemma_used_block_diff(b1, b2, 8, 0);
        }
    }
}

/// Whether an entry is not an empty slot.
pub open spec fn entry_used(e: EntryModel) -> bool {
    !slot_is_empty(e)
}

/// Adding an entry keeps a directory sound: after `dir_add_entry` the
/// directory is sound again and its size counts its entries, so the size
/// stays a multiple of the size of an entry. Where no two entries had one
/// name, none have after.
pub proof fn lemma_add_keeps_sound(disk: Seq<Seq<u8>>, sb: SuperBlock, m: InodeModel, e: EntryModel)
    requires
        crate::bitmap::formatted(disk, sb),
        dir_exact(disk, sb, m),
        e.name.len() == 60,
        entry_used(e),
        spec_dir_add_entry(disk, sb, m, e).res is Ok,
    ensures
        ({
            let s = spec_dir_add_entry(disk, sb, m, e);
            &&& crate::bitmap::formatted(s.disk, s.sb)
            &&& dir_exact(s.disk, s.sb, s.inode)
            &&& s.inode.size == m.size + 64
            &&& s.inode.size % 64 == 0
            &&& names_unique(disk, sb, m) ==> names_unique(s.disk, s.sb, s.inode)
        }),
{
    let s = spec_dir_add_entry(disk, sb, m, e);
    let t = lemma_add_places(disk, sb, m, e);
    let (kt, jt) = t;
    let d2 = s.disk;
    let m1 = s.inode;
    lemma_scan_none(disk, sb, m, e.name, false, 0);
    // The slots in use are one more.
    lemma_trimmed_zeros(60);
    assert(slot_is_empty(EntryModel::null()));
    lemma_used_slots_diff(disk, sb, m, d2, s.sb, m1, kt, jt, 0, m.blocks as int);
    if kt >= m.blocks {
        let nb = d2[block_of(d2, s.sb, m1, kt)->0 as int];
        assert forall|q: int| 0 <= q < 8 && q != 0 implies slot_is_empty(
            #[trigger] entry_at(nb, q),
        ) == slot_is_empty(entry_at(crate::codec::zeros(512), q)) by {
            assert(entry_at(nb, q) == slot(d2, s.sb, m1, kt, q));
            lemma_zero_block_empty(q);
        }
        lemma_used_block_diff(crate::codec::zeros(512), nb, 0, 0);
        lemma_zero_block_empty(0);
        lemma_used_zero_block(0);
        assert(entry_at(nb, 0) == slot(d2, s.sb, m1, kt, 0));
        assert(used_slots(d2, s.sb, m1, m.blocks as int) == used_slots(
            d2,
            s.sb,
            m1,
            m.blocks + 1,
        ) + used_in_block(nb, 0));
    }
    assert(used_slots(d2, s.sb, m1, 0) == used_slots(disk, sb, m, 0) + 1);
    // The blocks are still distinct.
    assert forall|k1: int, k2: int| 0 <= k1 < k2 < m1.blocks implies #[trigger] block_of(
        d2,
        s.sb,
        m1,
        k1,
    ) != #[trigger] block_of(d2, s.sb, m1, k2) by {
        if k2 < m.blocks {
            assert(block_of(d2, s.sb, m1, k1) == block_of(disk, sb, m, k1));
            assert(block_of(d2, s.sb, m1, k2) == block_of(disk, sb, m, k2));
        } else {
            assert(block_of(d2, s.sb, m1, k1) == block_of(disk, sb, m, k1));
            assert(in_use(disk, sb, block_of(disk, sb, m, k1)->0));
        }
    }
    lemma_used_bound(d2, s.sb, m1, 0);
    assert(dir_wf(d2, s.sb, m1));
    if names_unique(disk, sb, m) {
        assert forall|k1: int, j1: int, k2: int, j2: int|
            0 <= k1 < m1.blocks && 0 <= j1 < 8 && 0 <= k2 < m1.blocks && 0 <= j2 < 8 && (
            #[trigger] slot(d2, s.sb, m1, k1, j1)).inode_id != 0 && (#[trigger] slot(
                d2,
                s.sb,
                m1,
                k2,
                j2,
            )).inode_id != 0 && names_match(
                slot(d2, s.sb, m1, k1, j1).name,
                slot(d2, s.sb, m1, k2, j2).name,
            ) implies k1 == k2 && j1 == j2 by {
            lemma_unique_step(disk, sb, m, e, s, kt, jt, k1, j1, k2, j2);
        }
    }
}

/// A zeroed block has no slot in use.
pub proof fn lemma_used_zero_block(j: int)
    requires
        0 <= j <= 8,
    ensures
        used_in_block(crate::codec::zeros(512), j) == 0,
    decreases 8 - j,
{
    if j < 8 {
        lemma_zero_block_empty(j);
        lemma_used_zero_block(j + 1);
    }
}

/// Two entries of one name after an entry was placed are one entry.
proof fn lemma_unique_step(
    disk: Seq<Seq<u8>>,
    sb: SuperBlock,
    m: InodeModel,
    e: EntryModel,
    s: crate::inode::InodeStep<()>,
    kt: int,
    jt: int,
    k1: int,
    j1: int,
    k2: int,
    j2: int,
)
    requires
        placed(disk, sb, m, e, s, kt, jt),
        names_unique(disk, sb, m),
        forall|k: int|
            0 <= k < m.blocks ==> (#[trigger] block_of(disk, sb, m, k)) is Some && no_fit(
                disk[block_of(disk, sb, m, k)->0 as int],
                e.name,
                false,
            ),
        0 <= k1 < s.inode.blocks,
        0 <= j1 < 8,
        0 <= k2 < s.inode.blocks,
        0 <= j2 < 8,
        slot(s.disk, s.sb, s.inode, k1, j1).inode_id != 0,
        slot(s.disk, s.sb, s.inode, k2, j2).inode_id != 0,
        names_match(
            slot(s.disk, s.sb, s.inode, k1, j1).name,
            slot(s.disk, s.sb, s.inode, k2, j2).name,
        ),
    ensures
        k1 == k2 && j1 == j2,
{
    lemma_trimmed_zeros(60);
    let is_t1 = k1 == kt && j1 == jt;
    let is_t2 = k2 == kt && j2 == jt;
    // A slot of the block that was appended, but the first, is empty.
    if k1 >= m.blocks && !is_t1 {
        assert(slot(s.disk, s.sb, s.inode, k1, j1) == EntryModel::null());
    }
    if k2 >= m.blocks && !is_t2 {
        assert(slot(s.disk, s.sb, s.inode, k2, j2) == EntryModel::null());
    }
    if is_t1 && !is_t2 {
        assert(slot(s.disk, s.sb, s.inode, k2, j2) == slot(disk, sb, m, k2, j2));
        let b2 = block_of(disk, sb, m, k2)->0;
        assert(no_fit(disk[b2 as int], e.name, false));
        assert(!slot_fits(entry_at(disk[b2 as int], j2), e.name, false));
    } else if is_t2 && !is_t1 {
        assert(slot(s.disk, s.sb, s.inode, k1, j1) == slot(disk, sb, m, k1, j1));
        let b1 = block_of(disk, sb, m, k1)->0;
        assert(no_fit(disk[b1 as int], e.name, false));
        assert(!slot_fits(entry_at(disk[b1 as int], j1), e.name, false));
    } else if !is_t1 && !is_t2 {
        assert(slot(s.disk, s.sb, s.inode, k1, j1) == slot(disk, sb, m, k1, j1));
        assert(slot(s.disk, s.sb, s.inode, k2, j2) == slot(disk, sb, m, k2, j2));
    }
}

/// Removing an entry keeps a directory sound: after `dir_rm_entry` the
/// directory is sound again and its size counts its entries, so the size
/// stays a multiple of the size of an entry. Where no two entries had one
/// name, none have after.
pub proof fn lemma_rm_keeps_sound(disk: Seq<Seq<u8>>, sb: SuperBlock, m: InodeModel, name: Seq<u8>)
    requires
        crate::bitmap::formatted(disk, sb),
        dir_exact(disk, sb, m),
        spec_dir_rm_entry(disk, sb, m, name).res is Ok,
    ensures
        ({
            let s = spec_dir_rm_entry(disk, sb, m, name);
            &&& crate::bitmap::formatted(s.disk, s.sb)
            &&& dir_exact(s.disk, s.sb, s.inode)
            &&& s.inode.size == m.size - 64
            &&& s.inode.size % 64 == 0
            &&& names_unique(disk, sb, m) ==> names_unique(s.disk, s.sb, s.inode)
        }),
{
    let s = spec_dir_rm_entry(disk, sb, m, name);
    let t = lemma_rm_clears(disk, sb, m, name);
    let (kt, jt) = t;
    let d2 = s.disk;
    let m1 = s.inode;
    lemma_blocks_bound(disk, sb, m);
    lemma_trimmed_zeros(60);
    assert(slot_is_empty(EntryModel::null()));
    lemma_used_slots_diff(disk, sb, m, d2, s.sb, m1, kt, jt, 0, m.blocks as int);
    assert(used_slots(d2, s.sb, m1, 0) == used_slots(disk, sb, m, 0) - 1);
    lemma_used_bound(d2, s.sb, m1, 0);
    assert forall|k: int| 0 <= k < m1.blocks implies (#[trigger] block_of(d2, s.sb, m1, k))
        is Some && in_use(d2, s.sb, block_of(d2, s.sb, m1, k)->0) by {
        assert(block_of(d2, s.sb, m1, k) == block_of(disk, sb, m, k));
        assert(in_use(disk, sb, block_of(disk, sb, m, k)->0));
    }
    assert forall|k1: int, k2: int| 0 <= k1 < k2 < m1.blocks implies #[trigger] block_of(
        d2,
        s.sb,
        m1,
        k1,
    ) != #[trigger] block_of(d2, s.sb, m1, k2) by {
        assert(block_of(d2, s.sb, m1, k1) == block_of(disk, sb, m, k1));
        assert(block_of(d2, s.sb, m1, k2) == block_of(disk, sb, m, k2));
    }
    assert forall|k: int| m1.blocks <= k < 140 implies (#[trigger] block_of(d2, s.sb, m1, k))
        is None by {
        assert(block_of(d2, s.sb, m1, k) == block_of(disk, sb, m, k));
    }
    match indirect_of(m1) {
        Some(ib) => {
            assert(in_use(disk, sb, ib));
            assert forall|k: int| 0 <= k < m1.blocks implies #[trigger] block_of(d2, s.sb, m1, k)
                != Some(ib) by {
                assert(block_of(d2, s.sb, m1, k) == block_of(disk, sb, m, k));
            }
        },
        None => {},
    }
    assert(dir_wf(d2, s.sb, m1));
    if names_unique(disk, sb, m) {
        assert forall|k1: int, j1: int, k2: int, j2: int|
            0 <= k1 < m1.blocks && 0 <= j1 < 8 && 0 <= k2 < m1.blocks && 0 <= j2 < 8 && (
            #[trigger] slot(d2, s.sb, m1, k1, j1)).inode_id != 0 && (#[trigger] slot(
                d2,
                s.sb,
                m1,
                k2,
                j2,
            )).inode_id != 0 && names_match(
                slot(d2, s.sb, m1, k1, j1).name,
                slot(d2, s.sb, m1, k2, j2).name,
            ) implies k1 == k2 && j1 == j2 by {
            if !(k1 == kt && j1 == jt) && !(k2 == kt && j2 == jt) {
                assert(slot(d2, s.sb, m1, k1, j1) == slot(disk, sb, m, k1, j1));
                assert(slot(d2, s.sb, m1, k2, j2) == slot(disk, sb, m, k2, j2));
            }
        }
    }
}

/// A scan of a directory whose blocks can all be read looks at the blocks
/// of the directory and at nothing else.
pub proof fn lemma_scan_frame(
    d1: Seq<Seq<u8>>,
    sb1: SuperBlock,
    m1: InodeModel,
    d2: Seq<Seq<u8>>,
    sb2: SuperBlock,
    m2: InodeModel,
    name: Seq<u8>,
    want_empty: bool,
    i: int,
)
    requires
        0 <= i,
        m1.blocks == m2.blocks,
        forall|k: int|
            i <= k < m1.blocks ==> (#[trigger] block_of(d1, sb1, m1, k)) is Some && block_of(
                d2,
                sb2,
                m2,
                k,
            ) == block_of(d1, sb1, m1, k) && d2[block_of(d1, sb1, m1, k)->0 as int]
                == d1[block_of(d1, sb1, m1, k)->0 as int],
    ensures
        spec_dir_scan(d1, sb1, m1, name, want_empty, i) == spec_dir_scan(
            d2,
            sb2,
            m2,
            name,
            want_empty,
            i,
        ),
    decreases m1.blocks - i,
{
    if i < m1.blocks {
        assert(block_of(d1, sb1, m1, i) is Some);
        assert(block_of(d2, sb2, m2, i) == block_of(d1, sb1, m1, i));
        lemma_scan_frame(d1, sb1, m1, d2, sb2, m2, name, want_empty, i + 1);
    }
}

/// Whether two inodes are the same directory but for their link counts.
pub open spec fn same_dir(m2: InodeModel, m: InodeModel) -> bool {
    m2 == (InodeModel { links_cnt: m2.links_cnt, ..m })
}

/// A sound directory stays sound, and gives the same answers, where its
/// blocks hold what they held and stay marked as used, whatever else
/// changes on the disk and whatever its link count becomes.
pub proof fn lemma_dir_frame(
    d1: Seq<Seq<u8>>,
    sb1: SuperBlock,
    m: InodeModel,
    d2: Seq<Seq<u8>>,
    sb2: SuperBlock,
    m2: InodeModel,
    name: Seq<u8>,
)
    requires
        dir_exact(d1, sb1, m),
        same_dir(m2, m),
        crate::superblock::same_geometry(sb2, sb1),
        forall|x: u32| owns(d1, sb1, m, x) ==> #[trigger] d2[x as int] == d1[x as int],
        forall|x: u32| owns(d1, sb1, m, x) ==> #[trigger] in_use(d2, sb2, x),
    ensures
        dir_exact(d2, sb2, m2),
        names_unique(d1, sb1, m) ==> names_unique(d2, sb2, m2),
        spec_dir_lookup(d2, sb2, m2, name) == spec_dir_lookup(d1, sb1, m, name),
        forall|x: u32| owns(d2, sb2, m2, x) == owns(d1, sb1, m, x),
{
    reveal(spec_dir_lookup);
    lemma_blocks_bound(d1, sb1, m);
    assert forall|k: int| 0 <= k < 140 implies #[trigger] block_of(d2, sb2, m2, k) == block_of(
        d1,
        sb1,
        m,
        k,
    ) by {
        match indirect_of(m) {
            Some(ib) => {
                assert(owns(d1, sb1, m, ib));
            },
            None => {},
        }
        lemma_block_of_geometry(d1, sb1, sb2, m, k);
        lemma_block_of_frame(d2, d1, sb2, m2, m, k);
    }
    assert forall|k: int| 0 <= k < m.blocks implies d2[(#[trigger] block_of(d1, sb1, m, k))->0 as int]
        == d1[block_of(d1, sb1, m, k)->0 as int] by {
        assert(owns(d1, sb1, m, block_of(d1, sb1, m, k)->0));
    }
    assert forall|k: int, q: int| 0 <= k < m.blocks && 0 <= q < 8 implies #[trigger] slot(
        d2,
        sb2,
        m2,
        k,
        q,
    ) == slot(d1, sb1, m, k, q) by {
        assert(block_of(d2, sb2, m2, k) == block_of(d1, sb1, m, k));
    }
    lemma_used_slots_diff(d1, sb1, m, d2, sb2, m2, -1, 0, 0, m.blocks as int);
    assert forall|k: int| 0 <= k < m.blocks implies (#[trigger] block_of(d2, sb2, m2, k)) is Some
        && in_use(d2, sb2, block_of(d2, sb2, m2, k)->0) by {
        assert(block_of(d2, sb2, m2, k) == block_of(d1, sb1, m, k));
        assert(owns(d1, sb1, m, block_of(d1, sb1, m, k)->0));
    }
    assert forall|k1: int, k2: int| 0 <= k1 < k2 < m.blocks implies #[trigger] block_of(
        d2,
        sb2,
        m2,
        k1,
    ) != #[trigger] block_of(d2, sb2, m2, k2) by {
        assert(block_of(d2, sb2, m2, k1) == block_of(d1, sb1, m, k1));
        assert(block_of(d2, sb2, m2, k2) == block_of(d1, sb1, m, k2));
    }
    assert forall|k: int| m.blocks <= k < 140 implies (#[trigger] block_of(d2, sb2, m2, k))
        is None by {
        assert(block_of(d2, sb2, m2, k) == block_of(d1, sb1, m, k));
    }
    match indirect_of(m) {
        Some(ib) => {
            assert(owns(d1, sb1, m, ib));
            assert forall|k: int| 0 <= k < m.blocks implies #[trigger] block_of(d2, sb2, m2, k)
                != Some(ib) by {
                assert(block_of(d2, sb2, m2, k) == block_of(d1, sb1, m, k));
            }
        },
        None => {},
    }
    assert(dir_wf(d2, sb2, m2));
    lemma_scan_frame(d1, sb1, m, d2, sb2, m2, name, false, 0);
    match spec_dir_scan(d1, sb1, m, name, false, 0) {
        Ok(Some((b, j))) => {
            let at = lemma_scan_some(d1, sb1, m, name, false, 0);
            assert(owns(d1, sb1, m, block_of(d1, sb1, m, at)->0));
        },
        _ => {},
    }
    if names_unique(d1, sb1, m) {
        assert forall|k1: int, j1: int, k2: int, j2: int|
            0 <= k1 < m.blocks && 0 <= j1 < 8 && 0 <= k2 < m.blocks && 0 <= j2 < 8 && (
            #[trigger] slot(d2, sb2, m2, k1, j1)).inode_id != 0 && (#[trigger] slot(
                d2,
                sb2,
                m2,
                k2,
                j2,
            )).inode_id != 0 && names_match(
                slot(d2, sb2, m2, k1, j1).name,
                slot(d2, sb2, m2, k2, j2).name,
            ) implies k1 == k2 && j1 == j2 by {
            assert(slot(d2, sb2, m2, k1, j1) == slot(d1, sb1, m, k1, j1));
            assert(slot(d2, sb2, m2, k2, j2) == slot(d1, sb1, m, k2, j2));
        }
    }
    assert forall|x: u32| owns(d2, sb2, m2, x) == owns(d1, sb1, m, x) by {
        if owns(d1, sb1, m, x) && indirect_of(m) != Some(x) {
            let k = choose|k: int| 0 <= k < m.blocks && #[trigger] block_of(d1, sb1, m, k) == Some(x);
            assert(block_of(d2, sb2, m2, k) == Some(x));
        }
        if owns(d2, sb2, m2, x) && indirect_of(m2) != Some(x) {
            let k = choose|k: int|
                0 <= k < m2.blocks && #[trigger] block_of(d2, sb2, m2, k) == Some(x);
            assert(block_of(d1, sb1, m, k) == Some(x));
        }
    }
}

/// The block map does not depend on the free counts.
pub proof fn lemma_block_of_geometry(
    disk: Seq<Seq<u8>>,
    sb1: SuperBlock,
    sb2: SuperBlock,
    m: InodeModel,
    k: int,
)
    requires
        crate::superblock::same_geometry(sb2, sb1),
    ensures
        block_of(disk, sb2, m, k) == block_of(disk, sb1, m, k),
{
    reveal(crate::inode::spec_bmap_lookup);
}

/// Trailing zeros behind a name do not change what it is once trimmed.
pub proof fn lemma_trimmed_padding(name: Seq<u8>, n: nat)
    ensures
        trimmed(name + crate::codec::zeros(n)) == trimmed(name),
    decreases n,
{
    let padded = name + crate::codec::zeros(n);
    if n > 0 {
        assert(padded.drop_last() =~= name + crate::codec::zeros((n - 1) as nat));
        lemma_trimmed_padding(name, (n - 1) as nat);
    } else {
        assert(padded =~= name);
    }
}

/// The entry made of a name has that name.
pub proof fn lemma_named(id: u32, name: Seq<u8>)
    requires
        name.len() <= 60,
    ensures
        EntryModel::named(id, name).inode_id == id,
        EntryModel::named(id, name).name.len() == 60,
        trimmed(EntryModel::named(id, name).name) == trimmed(name),
{
    let e = EntryModel::named(id, name);
    assert(e.name =~= name + crate::codec::zeros((60 - name.len()) as nat));
    lemma_trimmed_padding(name, (60 - name.len()) as nat);
}

/// A scan for a name looks at the name without its trailing zeros.
pub proof fn lemma_scan_name(
    disk: Seq<Seq<u8>>,
    sb: SuperBlock,
    m: InodeModel,
    n1: Seq<u8>,
    n2: Seq<u8>,
    i: int,
)
    requires
        trimmed(n1) == trimmed(n2),
    ensures
        spec_dir_scan(disk, sb, m, n1, false, i) == spec_dir_scan(disk, sb, m, n2, false, i),
    decreases m.blocks - i,
{
    if 0 <= i < m.blocks {
        match crate::inode::spec_bmap_lookup(disk, sb, m, (i * 512) as u64) {
            Ok(Some(b)) => {
                lemma_scan_slots_name(disk[b as int], n1, n2, 0);
            },
            _ => {},
        }
        lemma_scan_name(disk, sb, m, n1, n2, i + 1);
    }
}

/// A scan of a block for a name looks at the name without its trailing
/// zeros.
pub proof fn lemma_scan_slots_name(block: Seq<u8>, n1: Seq<u8>, n2: Seq<u8>, j: int)
    requires
        trimmed(n1) == trimmed(n2),
    ensures
        scan_slots_from(block, n1, false, j) == scan_slots_from(block, n2, false, j),
    decreases 8 - j,
{
    if 0 <= j < 8 {
        lemma_scan_slots_name(block, n1, n2, j + 1);
    }
}

/// A lookup of a name looks at the name without its trailing zeros.
pub proof fn lemma_lookup_name(
    disk: Seq<Seq<u8>>,
    sb: SuperBlock,
    m: InodeModel,
    n1: Seq<u8>,
    n2: Seq<u8>,
)
    requires
        trimmed(n1) == trimmed(n2),
        n1.len() <= 60,
        n2.len() <= 60,
    ensures
        spec_dir_lookup(disk, sb, m, n1) == spec_dir_lookup(disk, sb, m, n2),
{
    reveal(spec_dir_lookup);
    lemma_scan_name(disk, sb, m, n1, n2, 0);
}

/// A directory without a block is sound.
pub proof fn lemma_fresh_dir(disk: Seq<Seq<u8>>, sb: SuperBlock, m: InodeModel)
    requires
        m.ftype == FileType::Directory,
        m.blocks == 0,
        m.size == 0,
        m.payload == crate::structs::PayloadModel::Blocks(crate::structs::BlockPtrModel::empty()),
    ensures
        dir_exact(disk, sb, m),
        names_unique(disk, sb, m),
        forall|x: u32| !owns(disk, sb, m, x),
{
    reveal(crate::inode::spec_bmap_lookup);
    assert(crate::structs::BlockPtrModel::empty().wf());
    assert forall|k: int| 0 <= k < 140 implies (#[trigger] block_of(disk, sb, m, k)) is None by {}
}

/// What the allocation of a data block leaves alone: the inode bitmap.
pub proof fn lemma_alloc_keeps_inode_bitmap(disk: Seq<Seq<u8>>, sb: SuperBlock)
    requires
        crate::bitmap::formatted(disk, sb),
    ensures
        ({
            let a = crate::bitmap::spec_alloc_data_block(disk, sb);
            forall|b: int|
                sb.inode_bitmap_start <= b < sb.inode_table_start ==> a.disk[b] == disk[b]
        }),
{
    reveal(crate::bitmap::spec_alloc_data_block);
    reveal(crate::bitmap::spec_set_first_fit);
    crate::bitmap::lemma_layout(sb);
    let start = sb.data_bitmap_start as int;
    let total = sb.data_blocks();
    crate::bitmap::lemma_first_fit_least(disk, start, total, true, 0);
    match crate::bitmap::first_fit(disk, start, total, true, 0) {
        Some(i) => {
            assert(i / 4096 < sb.data_bitmap_blocks);
        },
        None => {},
    }
}

/// What `bmap` with `create` leaves alone: the inode bitmap.
pub proof fn lemma_bmap_keeps_inode_bitmap(
    disk: Seq<Seq<u8>>,
    sb: SuperBlock,
    m: InodeModel,
    off: u64,
)
    requires
        crate::bitmap::formatted(disk, sb),
        m.wf(),
        indirect_of(m) matches Some(ib) ==> in_use(disk, sb, ib),
        crate::inode::spec_bmap(disk, sb, m, off, true).res is Ok,
    ensures
        ({
            let r = crate::inode::spec_bmap(disk, sb, m, off, true);
            forall|b: int|
                sb.inode_bitmap_start <= b < sb.inode_table_start ==> r.disk[b] == disk[b]
        }),
{
    reveal(crate::inode::spec_bmap);
    reveal(crate::inode::spec_bmap_create);
    reveal(crate::inode::spec_bmap_slot);
    crate::bitmap::lemma_layout(sb);
    let r = crate::inode::spec_bmap(disk, sb, m, off, true);
    let idx = off as int / 512;
    let bp = m.block_ptrs()->0;
    let m1 = crate::inode::extended(m, off);
    let a = crate::bitmap::spec_alloc_data_block(disk, sb);
    lemma_alloc_data_block(disk, sb);
    lemma_alloc_keeps_inode_bitmap(disk, sb);
    if idx < 12 {
        if bp.direct[idx] is None {
            let m2 = crate::inode::with_direct(m1, idx, a.res->Ok_0);
            lemma_write_inode_formatted(a.disk, a.sb, m2);
            crate::bitmap::lemma_layout(a.sb);
        }
    } else {
        match bp.indirect {
            Some(ib) => {
                if crate::codec::get32(disk[ib as int], 4 * (idx - 12)) == 0 {
                    lemma_write_inode_formatted(a.disk, a.sb, m1);
                    crate::bitmap::lemma_layout(a.sb);
                }
            },
            None => {
                let ib2 = a.res->Ok_0;
                let m2 = crate::inode::with_indirect(m1, ib2);
                crate::bitmap::lemma_layout(a.sb);
                let a2 = crate::bitmap::spec_alloc_data_block(a.disk, a.sb);
                lemma_alloc_data_block(a.disk, a.sb);
                lemma_alloc_keeps_inode_bitmap(a.disk, a.sb);
                if crate::codec::get32(a.disk[ib2 as int], 4 * (idx - 12)) == 0 {
                    lemma_write_inode_formatted(a2.disk, a2.sb, m2);
                    crate::bitmap::lemma_layout(a2.sb);
                }
            },
        }
    }
}

/// What `dir_add_entry` leaves alone: the inode bitmap.
pub proof fn lemma_add_keeps_inode_bitmap(
    disk: Seq<Seq<u8>>,
    sb: SuperBlock,
    m: InodeModel,
    e: EntryModel,
)
    requires
        crate::bitmap::formatted(disk, sb),
        dir_exact(disk, sb, m),
        spec_dir_add_entry(disk, sb, m, e).res is Ok,
    ensures
        ({
            let s = spec_dir_add_entry(disk, sb, m, e);
            forall|b: int|
                sb.inode_bitmap_start <= b < sb.inode_table_start ==> s.disk[b] == disk[b]
        }),
{
    reveal(spec_dir_add_entry);
    reveal(spec_dir_insert);
    crate::bitmap::lemma_layout(sb);
    let s = spec_dir_add_entry(disk, sb, m, e);
    match spec_dir_scan(disk, sb, m, e.name, true, 0) {
        Ok(Some((b, j))) => {
            let at = lemma_scan_some(disk, sb, m, e.name, true, 0);
            crate::frame::lemma_bmap_lookup_data(disk, sb, m, (at * 512) as u64);
            let m1 = InodeModel { size: (m.size + 64) as u64, ..m };
            lemma_write_inode_formatted(disk, sb, m1);
        },
        _ => {
            let a = crate::inode::spec_bmap(disk, sb, m, m.size, true);
            lemma_bmap_create(disk, sb, m, m.size);
            lemma_bmap_keeps_inode_bitmap(disk, sb, m, m.size);
            let m1 = InodeModel { size: (m.size + 64) as u64, ..a.inode };
            lemma_write_inode_formatted(a.disk, a.sb, m1);
            crate::bitmap::lemma_layout(a.sb);
        },
    }
}

/// A block of a sound directory is marked as used.
pub proof fn lemma_owns_in_use(disk: Seq<Seq<u8>>, sb: SuperBlock, m: InodeModel, x: u32)
    requires
        dir_exact(disk, sb, m),
        owns(disk, sb, m, x),
    ensures
        in_use(disk, sb, x),
{
    if indirect_of(m) != Some(x) {
        let k = choose|k: int| 0 <= k < m.blocks && #[trigger] block_of(disk, sb, m, k) == Some(x);
        assert(in_use(disk, sb, block_of(disk, sb, m, k)->0));
    }
}

} // verus!
