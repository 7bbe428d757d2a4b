//! What holds of every directory of a file system after every operation
//! that succeeds: its size counts its entries, no two of its entries have
//! one name, and it holds `.` for itself and `..`.

use vstd::prelude::*;
use crate::alloc_laws::{consistent, current, record, refers};
use crate::dir_laws::{
    block_of, dir_exact, in_use, lemma_blocks_bound, lemma_dir_frame, lemma_owns_in_use,
    lemma_scan_slots_found, lemma_scan_some, lemma_used_block_bound, lemma_used_bound,
    names_unique, owns, slot, used_in_block, used_slots,
};
use crate::directory::{dot, dotdot, entry_at, slot_is_empty, spec_dir_lookup, spec_dir_scan};
use crate::error::FsError;
use crate::inode::spec_get_inode;
use crate::inode_laws::inode_used;
use crate::structs::{FileType, InodeModel, SuperBlock};

verus! {

/// Whether a directory is in order: it is sound, its size counts its
/// entries, no two of its entries have one name, `.` names the directory
/// itself, and `..` is there.
pub open spec fn dir_sound(disk: Seq<Seq<u8>>, sb: SuperBlock, d: InodeModel) -> bool {
    &&& dir_exact(disk, sb, d)
    &&& names_unique(disk, sb, d)
    &&& spec_dir_lookup(disk, sb, d, dot()) == Ok::<u32, FsError>(d.id)
    &&& spec_dir_lookup(disk, sb, d, dotdot()) is Ok
}

/// Whether every directory in use is in order, but for the one that is
/// being made.
pub open spec fn dirs_sound_but(disk: Seq<Seq<u8>>, sb: SuperBlock, skip: Option<u32>) -> bool {
    forall|id: u32| #[trigger]
        inode_used(disk, sb, id) && Some(id) != skip && record(disk, sb, id).ftype
            == FileType::Directory ==> dir_sound(disk, sb, record(disk, sb, id))
}

/// Whether every directory in use is in order.
pub open spec fn dirs_sound(disk: Seq<Seq<u8>>, sb: SuperBlock) -> bool {
    dirs_sound_but(disk, sb, None)
}

/// A directory in order stays in order where its blocks hold what they
/// held and stay marked as used, whatever its link count becomes.
pub proof fn lemma_dir_kept(
    d1: Seq<Seq<u8>>,
    sb1: SuperBlock,
    m: InodeModel,
    d2: Seq<Seq<u8>>,
    sb2: SuperBlock,
    m2: InodeModel,
)
    requires
        dir_sound(d1, sb1, m),
        crate::dir_laws::same_dir(m2, m),
        crate::superblock::same_geometry(sb2, sb1),
        forall|x: u32| owns(d1, sb1, m, x) ==> #[trigger] d2[x as int] == d1[x as int],
        forall|x: u32| owns(d1, sb1, m, x) ==> #[trigger] in_use(d2, sb2, x),
    ensures
        dir_sound(d2, sb2, m2),
{
    lemma_dir_frame(d1, sb1, m, d2, sb2, m2, dot());
    lemma_dir_frame(d1, sb1, m, d2, sb2, m2, dotdot());
}

/// Whether every block that was marked as used, but for the blocks of
/// inode `a`, holds what it held and is still marked as used.
pub open spec fn kept_but(
    d1: Seq<Seq<u8>>,
    sb1: SuperBlock,
    d2: Seq<Seq<u8>>,
    sb2: SuperBlock,
    a: u32,
) -> bool {
    forall|x: u32| #[trigger]
        in_use(d1, sb1, x) && !(inode_used(d1, sb1, a) && refers(d1, sb1, record(d1, sb1, a), x))
            ==> d2[x as int] == d1[x as int] && in_use(d2, sb2, x)
}

/// A block of a directory in use other than inode `a` is kept where the
/// blocks of every inode but `a` are kept.
proof fn lemma_other_kept(
    d1: Seq<Seq<u8>>,
    sb1: SuperBlock,
    d2: Seq<Seq<u8>>,
    sb2: SuperBlock,
    a: u32,
    id: u32,
    x: u32,
)
    requires
        consistent(d1, sb1),
        kept_but(d1, sb1, d2, sb2, a),
        id != a,
        inode_used(d1, sb1, id),
        dir_exact(d1, sb1, record(d1, sb1, id)),
        owns(d1, sb1, record(d1, sb1, id), x),
    ensures
        d2[x as int] == d1[x as int],
        in_use(d2, sb2, x),
{
    let q = record(d1, sb1, id);
    lemma_blocks_bound(d1, sb1, q);
    assert(refers(d1, sb1, q, x));
    lemma_owns_in_use(d1, sb1, q, x);
    if inode_used(d1, sb1, a) {
        assert(!refers(d1, sb1, record(d1, sb1, a), x));
    }
    assert(in_use(d1, sb1, x));
}

/// The directories in order stay in order through a step that changes the
/// record of one inode and keeps the blocks of every other inode in use.
pub proof fn lemma_others(
    d1: Seq<Seq<u8>>,
    sb1: SuperBlock,
    d2: Seq<Seq<u8>>,
    sb2: SuperBlock,
    skip: Option<u32>,
    a: u32,
)
    requires
        consistent(d1, sb1),
        dirs_sound_but(d1, sb1, skip),
        crate::superblock::same_geometry(sb2, sb1),
        forall|x: u32| x != a ==> #[trigger] spec_get_inode(d2, sb2, x) == spec_get_inode(d1, sb1, x),
        forall|x: u32| x != a && #[trigger] inode_used(d2, sb2, x) ==> inode_used(d1, sb1, x),
        kept_but(d1, sb1, d2, sb2, a),
        Some(a) != skip && inode_used(d2, sb2, a) && record(d2, sb2, a).ftype == FileType::Directory
            ==> dir_sound(d2, sb2, record(d2, sb2, a)),
    ensures
        dirs_sound_but(d2, sb2, skip),
{
    assert forall|id: u32| #[trigger]
        inode_used(d2, sb2, id) && Some(id) != skip && record(d2, sb2, id).ftype
            == FileType::Directory implies dir_sound(d2, sb2, record(d2, sb2, id)) by {
        if id != a {
            let q = record(d1, sb1, id);
            assert(spec_get_inode(d2, sb2, id) == spec_get_inode(d1, sb1, id));
            assert(inode_used(d1, sb1, id));
            assert(dir_sound(d1, sb1, q));
            lemma_blocks_bound(d1, sb1, q);
            assert forall|x: u32| owns(d1, sb1, q, x) implies #[trigger] d2[x as int]
                == d1[x as int] by {
                lemma_other_kept(d1, sb1, d2, sb2, a, id, x);
            }
            assert forall|x: u32| owns(d1, sb1, q, x) implies #[trigger] in_use(d2, sb2, x) by {
                lemma_other_kept(d1, sb1, d2, sb2, a, id, x);
            }
            lemma_dir_kept(d1, sb1, q, d2, sb2, q);
        }
    }
}

/// The allocation of an inode keeps the directories in order: all of them
/// but the new inode, where it is a directory.
pub proof fn lemma_alloc_step(disk: Seq<Seq<u8>>, sb: SuperBlock, ftype: FileType, mode: crate::structs::Mode)
    requires
        consistent(disk, sb),
        dirs_sound(disk, sb),
        crate::inode::spec_alloc_inode(disk, sb, ftype, mode).res is Ok,
    ensures
        ({
            let a = crate::inode::spec_alloc_inode(disk, sb, ftype, mode);
            &&& dirs_sound_but(a.disk, a.sb, Some(a.res->Ok_0.id))
            &&& ftype != FileType::Directory ==> dirs_sound(a.disk, a.sb)
        }),
{
    let a = crate::inode::spec_alloc_inode(disk, sb, ftype, mode);
    crate::inode_laws::lemma_alloc_inode(disk, sb, ftype, mode);
    crate::bitmap::lemma_layout(sb);
    let m = a.res->Ok_0;
    assert forall|x: u32| #[trigger] in_use(disk, sb, x) implies a.disk[x as int] == disk[x as int]
        && in_use(a.disk, a.sb, x) by {}
    assert forall|x: u32| x != m.id implies #[trigger] spec_get_inode(a.disk, a.sb, x)
        == spec_get_inode(disk, sb, x) by {}
    assert forall|x: u32| x != m.id && #[trigger] inode_used(a.disk, a.sb, x) implies inode_used(
        disk,
        sb,
        x,
    ) by {}
    lemma_others(disk, sb, a.disk, a.sb, Some(m.id), m.id);
    if ftype != FileType::Directory {
        lemma_others(disk, sb, a.disk, a.sb, None, m.id);
    }
}

/// Writing the record of an inode in use, with the block pointers that it
/// has on disk, keeps the directories in order; a directory is written as
/// it is on disk but for its link count.
pub proof fn lemma_write_step(disk: Seq<Seq<u8>>, sb: SuperBlock, m2: InodeModel, skip: Option<u32>)
    requires
        consistent(disk, sb),
        dirs_sound_but(disk, sb, skip),
        inode_used(disk, sb, m2.id),
        record(disk, sb, m2.id).block_ptrs() == m2.block_ptrs(),
        m2.wf(),
        Some(m2.id) != skip && m2.ftype == FileType::Directory ==> crate::dir_laws::same_dir(
            m2,
            record(disk, sb, m2.id),
        ),
    ensures
        dirs_sound_but(
            crate::inode::spec_write_inode(disk, sb, m2).disk,
            crate::inode::spec_write_inode(disk, sb, m2).sb,
            skip,
        ),
        forall|x: u32| #[trigger]
            inode_used(
                crate::inode::spec_write_inode(disk, sb, m2).disk,
                crate::inode::spec_write_inode(disk, sb, m2).sb,
                x,
            ) == inode_used(disk, sb, x),
{
    let w = crate::inode::spec_write_inode(disk, sb, m2);
    crate::alloc_laws::lemma_write_record_keeps(disk, sb, m2);
    crate::dir_laws::lemma_write_inode_formatted(disk, sb, m2);
    crate::bitmap::lemma_layout(sb);
    assert forall|x: u32| #[trigger] in_use(disk, sb, x) implies w.disk[x as int] == disk[x as int]
        && in_use(w.disk, w.sb, x) by {}
    if Some(m2.id) != skip && m2.ftype == FileType::Directory {
        let rec = record(disk, sb, m2.id);
        assert(dir_sound(disk, sb, rec));
        assert forall|x: u32| owns(disk, sb, rec, x) implies #[trigger] w.disk[x as int]
            == disk[x as int] by {
            lemma_owns_in_use(disk, sb, rec, x);
        }
        assert forall|x: u32| owns(disk, sb, rec, x) implies #[trigger] in_use(w.disk, w.sb, x) by {
            lemma_owns_in_use(disk, sb, rec, x);
        }
        lemma_dir_kept(disk, sb, rec, w.disk, w.sb, m2);
    }
    lemma_others(disk, sb, w.disk, w.sb, skip, m2.id);
}

/// Writing the record of an inode that is not in use keeps the directories
/// in order.
pub proof fn lemma_write_unused_step(
    disk: Seq<Seq<u8>>,
    sb: SuperBlock,
    m2: InodeModel,
    skip: Option<u32>,
)
    requires
        consistent(disk, sb),
        dirs_sound_but(disk, sb, skip),
        !inode_used(disk, sb, m2.id),
        m2.id < sb.num_inodes,
        m2.wf(),
    ensures
        dirs_sound_but(
            crate::inode::spec_write_inode(disk, sb, m2).disk,
            crate::inode::spec_write_inode(disk, sb, m2).sb,
            skip,
        ),
        forall|x: u32| #[trigger]
            inode_used(
                crate::inode::spec_write_inode(disk, sb, m2).disk,
                crate::inode::spec_write_inode(disk, sb, m2).sb,
                x,
            ) == inode_used(disk, sb, x),
{
    let w = crate::inode::spec_write_inode(disk, sb, m2);
    crate::account_laws::lemma_write_unused_keeps(disk, sb, m2);
    crate::dir_laws::lemma_write_inode_formatted(disk, sb, m2);
    crate::bitmap::lemma_layout(sb);
    assert forall|x: u32| #[trigger] in_use(disk, sb, x) implies w.disk[x as int] == disk[x as int]
        && in_use(w.disk, w.sb, x) by {}
    lemma_others(disk, sb, w.disk, w.sb, skip, m2.id);
}

/// What an inode in memory points to is what its record points to, where
/// they have the same block pointers; and a sound directory points to the
/// blocks that it owns.
proof fn lemma_owns_refers(disk: Seq<Seq<u8>>, sb: SuperBlock, m: InodeModel, x: u32)
    requires
        consistent(disk, sb),
        current(disk, sb, m),
        crate::dir_laws::dir_wf(disk, sb, m),
        owns(disk, sb, m, x),
    ensures
        refers(disk, sb, record(disk, sb, m.id), x),
{
    lemma_blocks_bound(disk, sb, m);
    assert(refers(disk, sb, m, x));
    crate::alloc_laws::lemma_file_wf_ptrs(disk, sb, record(disk, sb, m.id), m);
}

/// Adding an entry to a directory in order keeps the directories in order.
pub proof fn lemma_add_step(
    disk: Seq<Seq<u8>>,
    sb: SuperBlock,
    m: InodeModel,
    e: crate::structs::EntryModel,
    skip: Option<u32>,
)
    requires
        consistent(disk, sb),
        current(disk, sb, m),
        dirs_sound_but(disk, sb, skip),
        dir_exact(disk, sb, m),
        Some(m.id) != skip ==> dir_sound(disk, sb, m),
        e.name.len() == 60,
        crate::dir_laws::entry_used(e),
        crate::directory::spec_dir_add_entry(disk, sb, m, e).res is Ok,
    ensures
        ({
            let s = crate::directory::spec_dir_add_entry(disk, sb, m, e);
            &&& dirs_sound_but(s.disk, s.sb, skip)
            &&& dir_exact(s.disk, s.sb, s.inode)
            &&& Some(m.id) != skip ==> dir_sound(s.disk, s.sb, s.inode)
            &&& forall|x: u32| #[trigger] inode_used(s.disk, s.sb, x) == inode_used(disk, sb, x)
        }),
{
    let s = crate::directory::spec_dir_add_entry(disk, sb, m, e);
    crate::alloc_laws::lemma_add_keeps_consistent(disk, sb, m, e);
    let t = crate::dir_laws::lemma_add_places(disk, sb, m, e);
    crate::dir_laws::lemma_add_keeps_sound(disk, sb, m, e);
    if Some(m.id) != skip {
        crate::dir_laws::lemma_lookup_kept_by_add(disk, sb, m, e, dot());
        crate::dir_laws::lemma_lookup_kept_by_add(disk, sb, m, e, dotdot());
    }
    assert forall|x: u32| #[trigger]
        in_use(disk, sb, x) && !(inode_used(disk, sb, m.id) && refers(
            disk,
            sb,
            record(disk, sb, m.id),
            x,
        )) implies s.disk[x as int] == disk[x as int] && in_use(s.disk, s.sb, x) by {
        if owns(disk, sb, m, x) {
            lemma_owns_refers(disk, sb, m, x);
        }
    }
    lemma_others(disk, sb, s.disk, s.sb, skip, m.id);
}

/// Removing an entry from a directory in order keeps the directories in
/// order.
pub proof fn lemma_rm_step(
    disk: Seq<Seq<u8>>,
    sb: SuperBlock,
    m: InodeModel,
    name: Seq<u8>,
    skip: Option<u32>,
)
    requires
        consistent(disk, sb),
        current(disk, sb, m),
        dirs_sound_but(disk, sb, skip),
        dir_sound(disk, sb, m),
        crate::directory::spec_dir_rm_entry(disk, sb, m, name).res is Ok,
    ensures
        ({
            let s = crate::directory::spec_dir_rm_entry(disk, sb, m, name);
            &&& dirs_sound_but(s.disk, s.sb, skip)
            &&& dir_sound(s.disk, s.sb, s.inode)
            &&& s.inode.size == m.size - 64
            &&& forall|x: u32| #[trigger] inode_used(s.disk, s.sb, x) == inode_used(disk, sb, x)
        }),
{
    let s = crate::directory::spec_dir_rm_entry(disk, sb, m, name);
    crate::alloc_laws::lemma_rm_keeps_consistent(disk, sb, m, name);
    let t = crate::dir_laws::lemma_rm_clears(disk, sb, m, name);
    crate::dir_laws::lemma_rm_keeps_sound(disk, sb, m, name);
    crate::tree_laws::lemma_dots();
    crate::dir_laws::lemma_lookup_kept_by_rm(disk, sb, m, name, dot());
    crate::dir_laws::lemma_lookup_kept_by_rm(disk, sb, m, name, dotdot());
    assert forall|x: u32| #[trigger]
        in_use(disk, sb, x) && !(inode_used(disk, sb, m.id) && refers(
            disk,
            sb,
            record(disk, sb, m.id),
            x,
        )) implies s.disk[x as int] == disk[x as int] && in_use(s.disk, s.sb, x) by {
        if owns(disk, sb, m, x) {
            lemma_owns_refers(disk, sb, m, x);
        }
    }
    lemma_others(disk, sb, s.disk, s.sb, skip, m.id);
}

/// Freeing an inode in use keeps the directories in order.
pub proof fn lemma_free_step(disk: Seq<Seq<u8>>, sb: SuperBlock, id: u32, skip: Option<u32>)
    requires
        consistent(disk, sb),
        dirs_sound_but(disk, sb, skip),
        inode_used(disk, sb, id),
        crate::inode::spec_free_inode(disk, sb, id).res is Ok,
    ensures
        dirs_sound_but(
            crate::inode::spec_free_inode(disk, sb, id).disk,
            crate::inode::spec_free_inode(disk, sb, id).sb,
            skip,
        ),
        forall|x: u32| #[trigger]
            inode_used(
                crate::inode::spec_free_inode(disk, sb, id).disk,
                crate::inode::spec_free_inode(disk, sb, id).sb,
                x,
            ) == (inode_used(disk, sb, x) && x != id),
{
    let f = crate::inode::spec_free_inode(disk, sb, id);
    crate::alloc_laws::lemma_free_inode_keeps(disk, sb, id);
    crate::bitmap::lemma_layout(sb);
    assert forall|x: u32| #[trigger]
        in_use(disk, sb, x) && !(inode_used(disk, sb, id) && refers(
            disk,
            sb,
            record(disk, sb, id),
            x,
        )) implies f.disk[x as int] == disk[x as int] && in_use(f.disk, f.sb, x) by {
        assert(in_use(f.disk, f.sb, x));
    }
    lemma_others(disk, sb, f.disk, f.sb, skip, id);
}

/// Freeing an inode that is not in use and has an inert record keeps the
/// directories in order.
pub proof fn lemma_free_unused_step(disk: Seq<Seq<u8>>, sb: SuperBlock, id: u32, skip: Option<u32>)
    requires
        consistent(disk, sb),
        dirs_sound_but(disk, sb, skip),
        !inode_used(disk, sb, id),
        spec_get_inode(disk, sb, id) matches Ok(m) && crate::account_laws::inert(m),
        crate::inode::spec_free_inode(disk, sb, id).res is Ok,
    ensures
        dirs_sound_but(
            crate::inode::spec_free_inode(disk, sb, id).disk,
            crate::inode::spec_free_inode(disk, sb, id).sb,
            skip,
        ),
        forall|x: u32| #[trigger]
            inode_used(
                crate::inode::spec_free_inode(disk, sb, id).disk,
                crate::inode::spec_free_inode(disk, sb, id).sb,
                x,
            ) == (inode_used(disk, sb, x) && x != id),
{
    let f = crate::inode::spec_free_inode(disk, sb, id);
    crate::account_laws::lemma_free_unused_keeps(disk, sb, id);
    lemma_others(disk, sb, f.disk, f.sb, skip, id);
}

/// A slot in use counts among the slots in use of its block.
proof fn lemma_used_in_block_from(block: Seq<u8>, j: int, at: int)
    requires
        0 <= j <= at < 8,
        !slot_is_empty(entry_at(block, at)),
    ensures
        used_in_block(block, j) >= 1 + used_in_block(block, at + 1),
        used_in_block(block, at + 1) >= 0,
    decreases at - j,
{
    lemma_used_block_bound(block, at + 1);
    if j < at {
        lemma_used_in_block_from(block, j + 1, at);
    }
}

/// The slots in use of a block count among the slots in use of its
/// directory.
proof fn lemma_used_slots_from(disk: Seq<Seq<u8>>, sb: SuperBlock, m: InodeModel, k: int, at: int)
    requires
        0 <= k <= at < m.blocks,
    ensures
        used_slots(disk, sb, m, k) >= used_in_block(disk[block_of(disk, sb, m, at)->0 as int], 0)
            + used_slots(disk, sb, m, at + 1),
        used_slots(disk, sb, m, at + 1) >= 0,
    decreases at - k,
{
    lemma_used_bound(disk, sb, m, at + 1);
    if k < at {
        lemma_used_slots_from(disk, sb, m, k + 1, at);
        lemma_used_block_bound(disk[block_of(disk, sb, m, k)->0 as int], 0);
    }
}

/// A directory with two slots in use has at least two slots in use.
proof fn lemma_two_used(
    disk: Seq<Seq<u8>>,
    sb: SuperBlock,
    m: InodeModel,
    k1: int,
    j1: int,
    k2: int,
    j2: int,
)
    requires
        0 <= k1 < m.blocks,
        0 <= k2 < m.blocks,
        0 <= j1 < 8,
        0 <= j2 < 8,
        k1 < k2 || (k1 == k2 && j1 < j2),
        !slot_is_empty(slot(disk, sb, m, k1, j1)),
        !slot_is_empty(slot(disk, sb, m, k2, j2)),
    ensures
        used_slots(disk, sb, m, 0) >= 2,
{
    let b1 = disk[block_of(disk, sb, m, k1)->0 as int];
    let b2 = disk[block_of(disk, sb, m, k2)->0 as int];
    lemma_used_slots_from(disk, sb, m, 0, k1);
    lemma_used_in_block_from(b1, 0, j1);
    if k1 == k2 {
        lemma_used_in_block_from(b1, j1 + 1, j2);
    } else {
        lemma_used_slots_from(disk, sb, m, k1 + 1, k2);
        lemma_used_in_block_from(b2, 0, j2);
    }
}

/// Where a lookup finds a name: in a slot in use of the directory that
/// bears the name.
proof fn lemma_lookup_slot(disk: Seq<Seq<u8>>, sb: SuperBlock, m: InodeModel, name: Seq<u8>) -> (t: (
    int,
    int,
))
    requires
        spec_dir_lookup(disk, sb, m, name) is Ok,
    ensures
        0 <= t.0 < m.blocks,
        0 <= t.1 < 8,
        slot(disk, sb, m, t.0, t.1).inode_id != 0,
        slot(disk, sb, m, t.0, t.1).inode_id == spec_dir_lookup(disk, sb, m, name)->Ok_0,
        crate::directory::names_match(slot(disk, sb, m, t.0, t.1).name, name),
{
    reveal(spec_dir_lookup);
    let at = lemma_scan_some(disk, sb, m, name, false, 0);
    let (b, j) = spec_dir_scan(disk, sb, m, name, false, 0)->Ok_0->0;
    lemma_scan_slots_found(disk[b as int], name, false, 0);
    (at, j)
}

/// A lookup never gives inode 0.
pub proof fn lemma_lookup_nonzero(disk: Seq<Seq<u8>>, sb: SuperBlock, m: InodeModel, name: Seq<u8>)
    ensures
        spec_dir_lookup(disk, sb, m, name) != Ok::<u32, FsError>(0),
{
    if spec_dir_lookup(disk, sb, m, name) is Ok {
        let t = lemma_lookup_slot(disk, sb, m, name);
    }
}

/// A directory in order has at least its two entries `.` and `..`.
pub proof fn lemma_dots_counted(disk: Seq<Seq<u8>>, sb: SuperBlock, m: InodeModel)
    requires
        dir_sound(disk, sb, m),
    ensures
        m.size >= 128,
{
    crate::tree_laws::lemma_dots();
    let t1 = lemma_lookup_slot(disk, sb, m, dot());
    let t2 = lemma_lookup_slot(disk, sb, m, dotdot());
    if t1.0 < t2.0 || (t1.0 == t2.0 && t1.1 < t2.1) {
        lemma_two_used(disk, sb, m, t1.0, t1.1, t2.0, t2.1);
    } else {
        assert(t1 != t2) by {
            if t1 == t2 {
                let e = slot(disk, sb, m, t1.0, t1.1);
                assert(crate::directory::trimmed(e.name) == crate::directory::trimmed(dot()));
                assert(crate::directory::trimmed(e.name) == crate::directory::trimmed(dotdot()));
            }
        }
        lemma_two_used(disk, sb, m, t2.0, t2.1, t1.0, t1.1);
    }
}

/// A walk from an inode that is not inode 0 never reaches inode 0.
pub proof fn lemma_walk_nonzero(
    disk: Seq<Seq<u8>>,
    sb: SuperBlock,
    comps: Seq<Seq<u8>>,
    k: int,
    parent: u32,
    cur: u32,
)
    requires
        parent != 0,
        cur != 0,
    ensures
        crate::path::spec_walk(disk, sb, comps, k, parent, cur) matches Ok((a, b)) ==> a != 0 && b
            != 0,
    decreases comps.len() - k,
{
    if 0 <= k < comps.len() {
        match spec_get_inode(disk, sb, cur) {
            Ok(d) => {
                lemma_lookup_nonzero(disk, sb, d, comps[k]);
                match spec_dir_lookup(disk, sb, d, comps[k]) {
                    Ok(next) => {
                        lemma_walk_nonzero(disk, sb, comps, k + 1, cur, next);
                    },
                    Err(_) => {},
                }
            },
            Err(_) => {},
        }
    }
}

/// What a path names is never inode 0, nor is the directory that holds it.
pub proof fn lemma_resolve_nonzero(disk: Seq<Seq<u8>>, sb: SuperBlock, path: Seq<u8>, keep_last: bool)
    ensures
        crate::path::spec_resolve(disk, sb, path, keep_last) matches Ok((a, b)) ==> a != 0 && b != 0,
{
    match crate::path::spec_canonicalize(disk, sb, path, keep_last) {
        Ok(comps) => {
            lemma_walk_nonzero(disk, sb, comps, 0, 1, 1);
        },
        Err(_) => {},
    }
}

/// The block by block part of a write to a file leaves alone every block
/// that was marked as used and that the file did not point to.
proof fn lemma_fwrite_from_rest(
    disk: Seq<Seq<u8>>,
    sb: SuperBlock,
    m: InodeModel,
    offset: int,
    data: Seq<u8>,
    done: int,
    x: u32,
)
    requires
        consistent(disk, sb),
        current(disk, sb, m),
        0 <= offset,
        0 <= done <= data.len(),
        offset + done <= u64::MAX,
        crate::file::spec_fwrite_from(disk, sb, m, offset, data, done).res is Ok,
        in_use(disk, sb, x),
        !refers(disk, sb, m, x),
    ensures
        ({
            let s = crate::file::spec_fwrite_from(disk, sb, m, offset, data, done);
            &&& s.disk[x as int] == disk[x as int]
            &&& in_use(s.disk, s.sb, x)
        }),
    decreases data.len() - done,
{
    if done < data.len() {
        let cur = offset + done;
        let off = (cur / 512 * 512) as u64;
        let idx = cur / 512;
        let a = crate::inode::spec_bmap(disk, sb, m, off, true);
        crate::alloc_laws::lemma_file_wf_ptrs(disk, sb, record(disk, sb, m.id), m);
        crate::dir_laws::lemma_bmap_create(disk, sb, m, off);
        crate::alloc_laws::lemma_bmap_keeps(disk, sb, m, off);
        crate::alloc_laws::lemma_mapped_file_wf(disk, sb, m, off, a);
        assert(off as int / 512 == idx);
        let b = a.res->Ok_0;
        let len = crate::file::chunk_len(cur, data.len() as int, done);
        let nb = crate::codec::splice(a.disk[b as int], cur % 512, data.subrange(done, done + len));
        crate::bitmap::lemma_layout(a.sb);
        crate::alloc_laws::lemma_data_write_keeps(a.disk, a.sb, a.inode, idx, nb);
        let d2 = a.disk.update(b as int, nb);
        assert(crate::dir_laws::indirect_of(m) != Some(x));
        assert(a.disk[x as int] == disk[x as int]);
        assert(in_use(a.disk, a.sb, x));
        assert(refers(a.disk, a.sb, a.inode, b));
        assert(x != b);
        crate::dir_laws::lemma_in_use_frame(d2, a.disk, a.sb, x);
        assert forall|k: int| 0 <= k < 140 implies #[trigger] block_of(d2, a.sb, a.inode, k)
            == block_of(a.disk, a.sb, a.inode, k) by {
            crate::dir_laws::lemma_block_of_frame(d2, a.disk, a.sb, a.inode, a.inode, k);
        }
        crate::alloc_laws::lemma_refers_same(a.disk, a.sb, a.inode, d2, a.sb, a.inode, x);
        assert(cur + len <= 71680);
        lemma_fwrite_from_rest(d2, a.sb, a.inode, offset, data, done + len, x);
    }
}

/// The block by block part of a write to a file keeps the type of the
/// file.
proof fn lemma_fwrite_type(
    disk: Seq<Seq<u8>>,
    sb: SuperBlock,
    m: InodeModel,
    offset: int,
    data: Seq<u8>,
    done: int,
)
    requires
        consistent(disk, sb),
        current(disk, sb, m),
        0 <= offset,
        0 <= done <= data.len(),
        offset + done <= u64::MAX,
        crate::file::spec_fwrite_from(disk, sb, m, offset, data, done).res is Ok,
    ensures
        crate::file::spec_fwrite_from(disk, sb, m, offset, data, done).inode.ftype == m.ftype,
    decreases data.len() - done,
{
    if done < data.len() {
        let cur = offset + done;
        let off = (cur / 512 * 512) as u64;
        let idx = cur / 512;
        let a = crate::inode::spec_bmap(disk, sb, m, off, true);
        crate::alloc_laws::lemma_file_wf_ptrs(disk, sb, record(disk, sb, m.id), m);
        crate::dir_laws::lemma_bmap_create(disk, sb, m, off);
        crate::alloc_laws::lemma_bmap_keeps(disk, sb, m, off);
        assert(off as int / 512 == idx);
        let b = a.res->Ok_0;
        let len = crate::file::chunk_len(cur, data.len() as int, done);
        let nb = crate::codec::splice(a.disk[b as int], cur % 512, data.subrange(done, done + len));
        crate::bitmap::lemma_layout(a.sb);
        crate::alloc_laws::lemma_data_write_keeps(a.disk, a.sb, a.inode, idx, nb);
        let d2 = a.disk.update(b as int, nb);
        assert(cur + len <= 71680);
        lemma_fwrite_type(d2, a.sb, a.inode, offset, data, done + len);
    }
}

/// A write to a file in use leaves alone every block that was marked as
/// used and that the file did not point to.
pub proof fn lemma_fwrite_kept(
    disk: Seq<Seq<u8>>,
    sb: SuperBlock,
    m: InodeModel,
    offset: int,
    data: Seq<u8>,
)
    requires
        consistent(disk, sb),
        current(disk, sb, m),
        0 <= offset <= u64::MAX,
        crate::file::spec_fwrite(disk, sb, m, offset, data).res is Ok,
    ensures
        kept_but(
            disk,
            sb,
            crate::file::spec_fwrite(disk, sb, m, offset, data).disk,
            crate::file::spec_fwrite(disk, sb, m, offset, data).sb,
            m.id,
        ),
{
    reveal(crate::file::spec_fwrite);
    let r = crate::file::spec_fwrite(disk, sb, m, offset, data);
    if data.len() > 0 {
        let s = crate::file::spec_fwrite_from(disk, sb, m, offset, data, 0);
        crate::alloc_laws::lemma_fwrite_from_keeps(disk, sb, m, offset, data, 0);
        let m1 = if offset + data.len() > s.inode.size {
            InodeModel { size: (offset + data.len()) as u64, ..s.inode }
        } else {
            s.inode
        };
        crate::dir_laws::lemma_write_inode_formatted(s.disk, s.sb, m1);
        crate::bitmap::lemma_layout(s.sb);
        crate::alloc_laws::lemma_file_wf_ptrs(disk, sb, record(disk, sb, m.id), m);
        assert forall|x: u32| #[trigger]
            in_use(disk, sb, x) && !(inode_used(disk, sb, m.id) && refers(
                disk,
                sb,
                record(disk, sb, m.id),
                x,
            )) implies r.disk[x as int] == disk[x as int] && in_use(r.disk, r.sb, x) by {
            lemma_fwrite_from_rest(disk, sb, m, offset, data, 0, x);
        }
    }
}

/// A write to one file keeps every byte of every other file: the record of
/// another inode in use is as it was, and so is each byte of its blocks.
pub proof fn lemma_fwrite_keeps_others(
    disk: Seq<Seq<u8>>,
    sb: SuperBlock,
    m: InodeModel,
    offset: int,
    data: Seq<u8>,
    other: u32,
    p: int,
)
    requires
        consistent(disk, sb),
        current(disk, sb, m),
        0 <= offset <= u64::MAX,
        crate::file::spec_fwrite(disk, sb, m, offset, data).res is Ok,
        inode_used(disk, sb, other),
        other != m.id,
        record(disk, sb, other).block_ptrs() is Some,
        0 <= p < 71680,
    ensures
        ({
            let s = crate::file::spec_fwrite(disk, sb, m, offset, data);
            &&& spec_get_inode(s.disk, s.sb, other) == spec_get_inode(disk, sb, other)
            &&& crate::file_laws::byte_at(s.disk, s.sb, record(disk, sb, other), p)
                == crate::file_laws::byte_at(disk, sb, record(disk, sb, other), p)
        }),
{
    let r = crate::file::spec_fwrite(disk, sb, m, offset, data);
    let q = record(disk, sb, other);
    crate::alloc_laws::lemma_fwrite_keeps(disk, sb, m, offset, data);
    lemma_fwrite_kept(disk, sb, m, offset, data);
    assert(crate::file_laws::file_wf(disk, sb, q));
    match crate::dir_laws::indirect_of(q) {
        Some(ib) => {
            assert(refers(disk, sb, q, ib));
            assert(!refers(disk, sb, record(disk, sb, m.id), ib));
            assert(in_use(disk, sb, ib));
        },
        None => {},
    }
    crate::dir_laws::lemma_block_of_frame(r.disk, disk, sb, q, q, p / 512);
    crate::dir_laws::lemma_block_of_geometry(r.disk, r.sb, sb, q, p / 512);
    match block_of(disk, sb, q, p / 512) {
        Some(b) => {
            assert(refers(disk, sb, q, b));
            assert(!refers(disk, sb, record(disk, sb, m.id), b));
            assert(in_use(disk, sb, b));
        },
        None => {},
    }
}

/// A write to a regular file in use keeps the directories in order.
pub proof fn lemma_fwrite_step(
    disk: Seq<Seq<u8>>,
    sb: SuperBlock,
    m: InodeModel,
    offset: int,
    data: Seq<u8>,
    skip: Option<u32>,
)
    requires
        consistent(disk, sb),
        current(disk, sb, m),
        dirs_sound_but(disk, sb, skip),
        0 <= offset <= u64::MAX,
        crate::file::spec_fwrite(disk, sb, m, offset, data).res is Ok,
    ensures
        dirs_sound_but(
            crate::file::spec_fwrite(disk, sb, m, offset, data).disk,
            crate::file::spec_fwrite(disk, sb, m, offset, data).sb,
            skip,
        ),
{
    reveal(crate::file::spec_fwrite);
    let r = crate::file::spec_fwrite(disk, sb, m, offset, data);
    crate::alloc_laws::lemma_fwrite_keeps(disk, sb, m, offset, data);
    lemma_fwrite_kept(disk, sb, m, offset, data);
    if data.len() > 0 {
        assert(record(r.disk, r.sb, m.id).ftype == FileType::Regular) by {
            lemma_fwrite_type(disk, sb, m, offset, data, 0);
        }
        lemma_others(disk, sb, r.disk, r.sb, skip, m.id);
    }
}

} // verus!
