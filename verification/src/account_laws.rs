//! What holds of the blocks and the inodes of a file system after every
//! operation that succeeds: the data bitmap and the block pointers of the
//! inodes in use agree.
//!
//! Every block that an inode in use points to is marked as used, and every
//! block marked as used is pointed to once. `format` makes a disk of which
//! this holds, and `creat`, `remove`, `fwrite`, `link` and `symlink` keep it.

use vstd::prelude::*;
use crate::alloc_laws::{
    consistent, current, lemma_add_keeps_consistent, lemma_alloc_inode_keeps,
    lemma_consistent_frame, lemma_free_blocks, lemma_free_inode_id, lemma_free_inode_keeps,
    lemma_fwrite_keeps, lemma_get_wf, lemma_refers_in_use, lemma_rm_keeps_consistent,
    lemma_write_record_keeps, live, others_kept, record, refers,
};
use crate::dir_laws::{in_use, indirect_of, lemma_write_inode_formatted};
use crate::error::FsError;
use crate::inode::{spec_get_inode, spec_write_inode};
use crate::inode_laws::{inode_used, lemma_alloc_inode, lemma_get_frame, lemma_write_get};
use crate::structs::{BlockPtrModel, EntryModel, FileType, InodeModel, Mode, PayloadModel, SuperBlock};

verus! {

/// Whether a record is inert: the record of a file without a block that
/// nobody may read or write. A slot that was freed holds such a record.
pub open spec fn inert(m: InodeModel) -> bool {
    &&& m.ftype == FileType::Regular
    &&& m.mode == Mode::NoAccess
    &&& m.payload == PayloadModel::Blocks(BlockPtrModel::empty())
}

/// Whether the inode table is tidy: each valid record lies in the slot of
/// its id, and the record of an inode that is not in use is inert.
pub open spec fn tidy(disk: Seq<Seq<u8>>, sb: SuperBlock) -> bool {
    forall|id: u32|
        (#[trigger] spec_get_inode(disk, sb, id)) matches Ok(m) ==> m.id == id && (inode_used(
            disk,
            sb,
            id,
        ) || inert(m))
}

/// Whether the blocks and the inodes are accounted for: the data bitmap and
/// the block pointers of the inodes in use agree, and the inode table is
/// tidy.
pub open spec fn accounted(disk: Seq<Seq<u8>>, sb: SuperBlock) -> bool {
    consistent(disk, sb) && tidy(disk, sb)
}

/// Writing the record of an inode that is not in use keeps the data bitmap
/// and the block pointers in agreement.
pub proof fn lemma_write_unused_keeps(disk: Seq<Seq<u8>>, sb: SuperBlock, m2: InodeModel)
    requires
        consistent(disk, sb),
        !inode_used(disk, sb, m2.id),
        m2.id < sb.num_inodes,
        m2.wf(),
    ensures
        spec_write_inode(disk, sb, m2).res is Ok,
        spec_write_inode(disk, sb, m2).sb == sb,
        consistent(spec_write_inode(disk, sb, m2).disk, sb),
        others_kept(disk, sb, spec_write_inode(disk, sb, m2).disk, sb, m2.id),
        spec_get_inode(spec_write_inode(disk, sb, m2).disk, sb, m2.id) == Ok::<
            InodeModel,
            FsError,
        >(m2),
{
    let w = spec_write_inode(disk, sb, m2);
    lemma_write_inode_formatted(disk, sb, m2);
    crate::bitmap::lemma_layout(sb);
    lemma_write_get(disk, sb, m2, m2.id);
    assert forall|id: u32| #[trigger] inode_used(w.disk, sb, id) == inode_used(disk, sb, id) by {
        crate::tree_laws::lemma_inode_used_frame(disk, sb, w.disk, sb, id);
    }
    assert forall|id: u32| #[trigger]
        inode_used(disk, sb, id) implies spec_get_inode(w.disk, sb, id) is Ok && record(
        w.disk,
        sb,
        id,
    ).block_ptrs() == record(disk, sb, id).block_ptrs() && (indirect_of(
        record(disk, sb, id),
    ) matches Some(ib) ==> w.disk[ib as int] == disk[ib as int]) by {
        lemma_write_get(disk, sb, m2, id);
        match indirect_of(record(disk, sb, id)) {
            Some(ib) => {
                assert(refers(disk, sb, record(disk, sb, id), ib));
                lemma_refers_in_use(disk, sb, record(disk, sb, id), ib);
            },
            None => {},
        }
    }
    lemma_consistent_frame(disk, sb, w.disk, sb);
    assert forall|x: u32| x != m2.id implies #[trigger] spec_get_inode(w.disk, sb, x)
        == spec_get_inode(disk, sb, x) by {
        lemma_write_get(disk, sb, m2, x);
    }
}

/// Freeing an inode that is not in use and has an inert record changes its
/// record and nothing else that matters: the data bitmap and the block
/// pointers stay in agreement.
pub proof fn lemma_free_unused_keeps(disk: Seq<Seq<u8>>, sb: SuperBlock, id: u32)
    requires
        consistent(disk, sb),
        !inode_used(disk, sb, id),
        spec_get_inode(disk, sb, id) matches Ok(m) && inert(m),
        crate::inode::spec_free_inode(disk, sb, id).res is Ok,
    ensures
        ({
            let f = crate::inode::spec_free_inode(disk, sb, id);
            &&& consistent(f.disk, f.sb)
            &&& crate::superblock::same_geometry(f.sb, sb)
            &&& others_kept(disk, sb, f.disk, f.sb, id)
            &&& spec_get_inode(f.disk, f.sb, id) == Ok::<InodeModel, FsError>(InodeModel::cleared(id))
            &&& forall|x: u32| #[trigger] in_use(f.disk, f.sb, x) == in_use(disk, sb, x)
            &&& forall|x: int| sb.data_start <= x < sb.num_blocks ==> f.disk[x] == disk[x]
        }),
{
    reveal(crate::inode::spec_free_inode);
    reveal(crate::inode::spec_release_blocks);
    crate::bitmap::lemma_layout(sb);
    let f = crate::inode::spec_free_inode(disk, sb, id);
    let m = record(disk, sb, id);
    let bp = BlockPtrModel::empty();
    assert(m.block_ptrs() == Some(bp));
    let dc = crate::inode::direct_codes(bp);
    let s1 = crate::inode::spec_free_blocks(disk, sb, dc, 0);
    lemma_free_blocks(disk, sb, dc, 0);
    assert forall|x: u32| !crate::alloc_laws::named_from(dc, 0, x) by {}
    crate::bitmap::lemma_layout(s1.sb);
    let s2 = crate::bitmap::spec_free_inode_id(s1.disk, s1.sb, id);
    lemma_free_inode_id(s1.disk, s1.sb, id);
    crate::bitmap::lemma_layout(s2.sb);
    let cleared = InodeModel::cleared(id);
    assert(bp.wf());
    lemma_write_inode_formatted(s2.disk, s2.sb, cleared);
    let s3 = spec_write_inode(s2.disk, s2.sb, cleared);
    assert(f.disk == s3.disk && f.sb == s3.sb);
    lemma_write_get(s2.disk, s2.sb, cleared, id);
    assert forall|x: u32| #[trigger] inode_used(f.disk, f.sb, x) == inode_used(disk, sb, x) by {
        crate::tree_laws::lemma_inode_used_frame(disk, sb, s1.disk, s1.sb, x);
        crate::tree_laws::lemma_inode_used_frame(s2.disk, s2.sb, f.disk, f.sb, x);
    }
    assert forall|x: u32| #[trigger] in_use(f.disk, f.sb, x) == in_use(disk, sb, x) by {
        assert(in_use(s3.disk, s3.sb, x) == in_use(s2.disk, s2.sb, x));
        assert(in_use(s2.disk, s2.sb, x) == in_use(s1.disk, s1.sb, x));
        assert(in_use(s1.disk, s1.sb, x) == (in_use(disk, sb, x) && !crate::alloc_laws::named_from(
            dc,
            0,
            x,
        )));
    }
    assert forall|x: u32| x != id implies #[trigger] spec_get_inode(f.disk, f.sb, x)
        == spec_get_inode(disk, sb, x) by {
        lemma_get_frame(disk, sb, s1.disk, s1.sb, x);
        lemma_get_frame(s1.disk, s1.sb, s2.disk, s2.sb, x);
        lemma_write_get(s2.disk, s2.sb, cleared, x);
    }
    assert forall|x: u32| #[trigger]
        inode_used(disk, sb, x) implies spec_get_inode(f.disk, f.sb, x) is Ok && record(
        f.disk,
        f.sb,
        x,
    ).block_ptrs() == record(disk, sb, x).block_ptrs() && (indirect_of(
        record(disk, sb, x),
    ) matches Some(ib) ==> f.disk[ib as int] == disk[ib as int]) by {
        match indirect_of(record(disk, sb, x)) {
            Some(ib) => {
                assert(refers(disk, sb, record(disk, sb, x), ib));
                lemma_refers_in_use(disk, sb, record(disk, sb, x), ib);
            },
            None => {},
        }
    }
    lemma_consistent_frame(disk, sb, f.disk, f.sb);
}

/// Where the blocks and the inodes are accounted for, what a path names is
/// an inode in use, in memory as
/// it is on disk, or an inode that is not in use with an inert record.
pub proof fn lemma_found(disk: Seq<Seq<u8>>, sb: SuperBlock, id: u32, m: InodeModel)
    requires
        accounted(disk, sb),
        spec_get_inode(disk, sb, id) == Ok::<InodeModel, FsError>(m),
    ensures
        m.id == id,
        m.wf(),
        id < sb.num_inodes,
        inode_used(disk, sb, id) ==> live(disk, sb, id, m),
        !inode_used(disk, sb, id) ==> inert(m),
{
    lemma_get_wf(disk, sb, id);
    reveal(spec_get_inode);
}

/// Where the blocks and the inodes are accounted for, the directory that
/// takes or gives a name is an
/// inode in use.
pub proof fn lemma_parent_live(disk: Seq<Seq<u8>>, sb: SuperBlock, path: Seq<u8>)
    requires
        accounted(disk, sb),
        crate::fs::spec_parent(disk, sb, path) is Ok,
    ensures
        ({
            let (p, name) = crate::fs::spec_parent(disk, sb, path)->Ok_0;
            &&& live(disk, sb, p.id, p)
            &&& current(disk, sb, p)
            &&& p.ftype == FileType::Directory
        }),
{
    let (dir, name) = crate::path::spec_split(path)->Ok_0;
    let (_, id) = crate::path::spec_resolve(disk, sb, dir, false)->Ok_0;
    let p = spec_get_inode(disk, sb, id)->Ok_0;
    lemma_found(disk, sb, id, p);
}

/// Whether the second inode table is the first but for the slots of `a`
/// and `b`, which hold what a tidy table may hold.
pub open spec fn touched(
    d1: Seq<Seq<u8>>,
    sb1: SuperBlock,
    d2: Seq<Seq<u8>>,
    sb2: SuperBlock,
    a: u32,
    b: u32,
) -> bool {
    &&& forall|x: u32|
        x != a && x != b ==> #[trigger] spec_get_inode(d2, sb2, x) == spec_get_inode(d1, sb1, x)
    &&& forall|x: u32|
        x != a && x != b ==> #[trigger] inode_used(d2, sb2, x) == inode_used(d1, sb1, x)
    &&& spec_get_inode(d2, sb2, a) matches Ok(m) ==> m.id == a && (inode_used(d2, sb2, a) || inert(
        m,
    ))
    &&& spec_get_inode(d2, sb2, b) matches Ok(m) ==> m.id == b && (inode_used(d2, sb2, b) || inert(
        m,
    ))
}

/// A tidy inode table stays tidy where two slots change to what a tidy
/// table may hold.
pub proof fn lemma_tidy_touched(
    d1: Seq<Seq<u8>>,
    sb1: SuperBlock,
    d2: Seq<Seq<u8>>,
    sb2: SuperBlock,
    a: u32,
    b: u32,
)
    requires
        tidy(d1, sb1),
        touched(d1, sb1, d2, sb2, a, b),
    ensures
        tidy(d2, sb2),
{
    assert forall|id: u32| (#[trigger] spec_get_inode(d2, sb2, id)) is Ok implies record(
        d2,
        sb2,
        id,
    ).id == id && (inode_used(d2, sb2, id) || inert(record(d2, sb2, id))) by {
        if id != a && id != b {
            assert(spec_get_inode(d2, sb2, id) == spec_get_inode(d1, sb1, id));
            assert(inode_used(d2, sb2, id) == inode_used(d1, sb1, id));
        }
    }
}

/// Creating a regular file in a directory keeps the blocks and the inodes
/// accounted for.
pub proof fn lemma_creat_regular_accounted(
    disk: Seq<Seq<u8>>,
    sb: SuperBlock,
    p: InodeModel,
    name: Seq<u8>,
    mode: Mode,
)
    requires
        accounted(disk, sb),
        live(disk, sb, p.id, p),
        p.ftype == FileType::Directory,
        crate::fs::spec_creat_regular(disk, sb, p, name, mode).res is Ok,
    ensures
        accounted(
            crate::fs::spec_creat_regular(disk, sb, p, name, mode).disk,
            crate::fs::spec_creat_regular(disk, sb, p, name, mode).sb,
        ),
{
    let r = crate::fs::spec_creat_regular(disk, sb, p, name, mode);
    let a = crate::inode::spec_alloc_inode(disk, sb, FileType::Regular, mode);
    lemma_alloc_inode_keeps(disk, sb, FileType::Regular, mode);
    lemma_alloc_inode(disk, sb, FileType::Regular, mode);
    let n0 = a.res->Ok_0;
    lemma_get_wf(disk, sb, p.id);
    assert(current(a.disk, a.sb, p));
    let e = EntryModel::named(n0.id, name);
    let s1 = crate::directory::spec_dir_add_entry(a.disk, a.sb, p, e);
    lemma_add_keeps_consistent(a.disk, a.sb, p, e);
    lemma_write_record_keeps(s1.disk, s1.sb, s1.inode);
    let w1 = spec_write_inode(s1.disk, s1.sb, s1.inode);
    let n1 = InodeModel { links_cnt: 1, ..n0 };
    lemma_write_record_keeps(w1.disk, w1.sb, n1);
    assert(touched(disk, sb, r.disk, r.sb, n0.id, p.id));
    lemma_tidy_touched(disk, sb, r.disk, r.sb, n0.id, p.id);
}

/// Making a directory in a directory keeps the blocks and the inodes
/// accounted for.
pub proof fn lemma_mkdir_accounted(disk: Seq<Seq<u8>>, sb: SuperBlock, p: InodeModel, name: Seq<u8>)
    requires
        accounted(disk, sb),
        live(disk, sb, p.id, p),
        crate::directory::spec_mkdir(disk, sb, p, name).res is Ok,
    ensures
        accounted(
            crate::directory::spec_mkdir(disk, sb, p, name).disk,
            crate::directory::spec_mkdir(disk, sb, p, name).sb,
        ),
{
    reveal(crate::directory::spec_mkdir);
    reveal(crate::directory::spec_mkdir_link);
    let r = crate::directory::spec_mkdir(disk, sb, p, name);
    let a = crate::inode::spec_alloc_inode(disk, sb, FileType::Directory, Mode::RW);
    lemma_alloc_inode_keeps(disk, sb, FileType::Directory, Mode::RW);
    lemma_alloc_inode(disk, sb, FileType::Directory, Mode::RW);
    let d0 = a.res->Ok_0;
    lemma_get_wf(disk, sb, p.id);
    assert(current(a.disk, a.sb, p));
    let e1 = EntryModel::named(d0.id, name);
    let s1 = crate::directory::spec_dir_add_entry(a.disk, a.sb, p, e1);
    lemma_add_keeps_consistent(a.disk, a.sb, p, e1);
    let d1 = InodeModel { links_cnt: (d0.links_cnt + 1) as u32, ..d0 };
    assert(BlockPtrModel::empty().wf());
    assert(current(s1.disk, s1.sb, d1));
    let e2 = EntryModel::named(d0.id, crate::directory::dot());
    let s2 = crate::directory::spec_dir_add_entry(s1.disk, s1.sb, d1, e2);
    lemma_add_keeps_consistent(s1.disk, s1.sb, d1, e2);
    let d2 = InodeModel { links_cnt: (d1.links_cnt + 1) as u32, ..s2.inode };
    assert(current(s2.disk, s2.sb, d2));
    let e3 = EntryModel::named(p.id, crate::directory::dotdot());
    let s3 = crate::directory::spec_dir_add_entry(s2.disk, s2.sb, d2, e3);
    lemma_add_keeps_consistent(s2.disk, s2.sb, d2, e3);
    let linked = InodeModel { links_cnt: (p.links_cnt + 1) as u32, ..s1.inode };
    assert(current(s3.disk, s3.sb, s1.inode));
    lemma_write_record_keeps(s3.disk, s3.sb, linked);
    let w1 = spec_write_inode(s3.disk, s3.sb, linked);
    lemma_write_record_keeps(w1.disk, w1.sb, s3.inode);
    assert(touched(disk, sb, r.disk, r.sb, d0.id, p.id));
    lemma_tidy_touched(disk, sb, r.disk, r.sb, d0.id, p.id);
}

/// `creat` keeps the blocks and the inodes accounted for: after it
/// succeeded every block that an inode in use points to is marked as used,
/// and every block marked as used is pointed to once.
pub proof fn lemma_creat_accounted(
    disk: Seq<Seq<u8>>,
    sb: SuperBlock,
    path: Seq<u8>,
    file_type: FileType,
    mode: Mode,
)
    requires
        accounted(disk, sb),
        crate::fs::spec_creat(disk, sb, path, file_type, mode).res is Ok,
    ensures
        accounted(
            crate::fs::spec_creat(disk, sb, path, file_type, mode).disk,
            crate::fs::spec_creat(disk, sb, path, file_type, mode).sb,
        ),
{
    reveal(crate::fs::spec_creat);
    lemma_parent_live(disk, sb, path);
    let (p, name) = crate::fs::spec_parent(disk, sb, path)->Ok_0;
    match file_type {
        FileType::Regular => {
            lemma_creat_regular_accounted(disk, sb, p, name, mode);
        },
        FileType::Directory => {
            lemma_mkdir_accounted(disk, sb, p, name);
        },
        _ => {},
    }
}

/// `fwrite` by a path keeps the blocks and the inodes accounted for.
pub proof fn lemma_fwrite_accounted(
    disk: Seq<Seq<u8>>,
    sb: SuperBlock,
    path: Seq<u8>,
    offset: int,
    data: Seq<u8>,
)
    requires
        accounted(disk, sb),
        0 <= offset <= u64::MAX,
        crate::fs::spec_fs_fwrite(disk, sb, path, offset, data).res is Ok,
    ensures
        accounted(
            crate::fs::spec_fs_fwrite(disk, sb, path, offset, data).disk,
            crate::fs::spec_fs_fwrite(disk, sb, path, offset, data).sb,
        ),
{
    reveal(crate::fs::spec_fs_fwrite);
    let r = crate::fs::spec_fs_fwrite(disk, sb, path, offset, data);
    let (id, m) = crate::fs::spec_find(disk, sb, path, false)->Ok_0;
    lemma_found(disk, sb, id, m);
    // A record that is inert cannot be written to.
    assert(inode_used(disk, sb, id));
    assert(m.ftype == FileType::Regular) by {
        reveal(crate::file::spec_fwrite);
    }
    assert(current(disk, sb, m));
    lemma_fwrite_keeps(disk, sb, m, offset, data);
    assert(touched(disk, sb, r.disk, r.sb, id, id));
    lemma_tidy_touched(disk, sb, r.disk, r.sb, id, id);
}

/// `link` keeps the blocks and the inodes accounted for.
pub proof fn lemma_link_accounted(disk: Seq<Seq<u8>>, sb: SuperBlock, target: Seq<u8>, link_path: Seq<u8>)
    requires
        accounted(disk, sb),
        crate::fs::spec_link(disk, sb, target, link_path).res is Ok,
    ensures
        accounted(
            crate::fs::spec_link(disk, sb, target, link_path).disk,
            crate::fs::spec_link(disk, sb, target, link_path).sb,
        ),
{
    reveal(crate::fs::spec_link);
    let r = crate::fs::spec_link(disk, sb, target, link_path);
    lemma_parent_live(disk, sb, link_path);
    let (p, name) = crate::fs::spec_parent(disk, sb, link_path)->Ok_0;
    let (id, t) = crate::fs::spec_find(disk, sb, target, false)->Ok_0;
    lemma_found(disk, sb, id, t);
    let e = EntryModel::named(id, name);
    let s = crate::directory::spec_dir_add_entry(disk, sb, p, e);
    lemma_add_keeps_consistent(disk, sb, p, e);
    let t1 = InodeModel { links_cnt: (t.links_cnt + 1) as u32, ..t };
    if inode_used(disk, sb, id) {
        assert(record(s.disk, s.sb, t.id).block_ptrs() == t.block_ptrs());
        lemma_write_record_keeps(s.disk, s.sb, t1);
    } else {
        lemma_write_unused_keeps(s.disk, s.sb, t1);
    }
    assert(touched(disk, sb, r.disk, r.sb, id, p.id));
    lemma_tidy_touched(disk, sb, r.disk, r.sb, id, p.id);
}

/// `symlink` keeps the blocks and the inodes accounted for.
pub proof fn lemma_symlink_accounted(
    disk: Seq<Seq<u8>>,
    sb: SuperBlock,
    target: Seq<u8>,
    link_path: Seq<u8>,
)
    requires
        accounted(disk, sb),
        crate::fs::spec_symlink(disk, sb, target, link_path).res is Ok,
    ensures
        accounted(
            crate::fs::spec_symlink(disk, sb, target, link_path).disk,
            crate::fs::spec_symlink(disk, sb, target, link_path).sb,
        ),
{
    reveal(crate::fs::spec_symlink);
    let r = crate::fs::spec_symlink(disk, sb, target, link_path);
    lemma_parent_live(disk, sb, link_path);
    let (p, name) = crate::fs::spec_parent(disk, sb, link_path)->Ok_0;
    let a = crate::inode::spec_alloc_inode(disk, sb, FileType::Symlink, Mode::Read);
    lemma_alloc_inode_keeps(disk, sb, FileType::Symlink, Mode::Read);
    lemma_alloc_inode(disk, sb, FileType::Symlink, Mode::Read);
    let n0 = a.res->Ok_0;
    assert(current(a.disk, a.sb, p));
    let e = EntryModel::named(n0.id, name);
    let s = crate::directory::spec_dir_add_entry(a.disk, a.sb, p, e);
    lemma_add_keeps_consistent(a.disk, a.sb, p, e);
    let n1 = InodeModel {
        links_cnt: 1,
        payload: PayloadModel::Path(crate::fs::padded(target)),
        ..n0
    };
    assert(n1.wf());
    assert(record(s.disk, s.sb, n0.id) == n0);
    lemma_write_record_keeps(s.disk, s.sb, n1);
    assert(touched(disk, sb, r.disk, r.sb, n0.id, p.id));
    lemma_tidy_touched(disk, sb, r.disk, r.sb, n0.id, p.id);
}

/// Taking an entry from a directory, and the link that it stands for from
/// its inode, keeps the blocks and the inodes accounted for.
pub proof fn lemma_unlink_accounted(
    disk: Seq<Seq<u8>>,
    sb: SuperBlock,
    p: InodeModel,
    name: Seq<u8>,
    f: InodeModel,
    file_type: FileType,
)
    requires
        accounted(disk, sb),
        live(disk, sb, p.id, p),
        p.ftype == FileType::Directory,
        spec_get_inode(disk, sb, f.id) == Ok::<InodeModel, FsError>(f),
        crate::fs::spec_unlink(disk, sb, p, name, f, file_type).res is Ok,
    ensures
        accounted(
            crate::fs::spec_unlink(disk, sb, p, name, f, file_type).disk,
            crate::fs::spec_unlink(disk, sb, p, name, f, file_type).sb,
        ),
{
    let r = crate::fs::spec_unlink(disk, sb, p, name, f, file_type);
    lemma_get_wf(disk, sb, p.id);
    lemma_found(disk, sb, f.id, f);
    let s = crate::directory::spec_dir_rm_entry(disk, sb, p, name);
    lemma_rm_keeps_consistent(disk, sb, p, name);
    let taken = crate::fs::links_taken(file_type);
    let f1 = InodeModel { links_cnt: (f.links_cnt - taken) as u32, ..f };
    assert(BlockPtrModel::empty().wf());
    if inode_used(disk, sb, f.id) {
        assert(record(s.disk, s.sb, f.id).block_ptrs() == f.block_ptrs()) by {
            if f.id == p.id {
                assert(f == p);
            }
        }
        if file_type == FileType::Directory {
            let parent = InodeModel { links_cnt: (s.inode.links_cnt - 1) as u32, ..s.inode };
            lemma_write_record_keeps(s.disk, s.sb, parent);
            let w = spec_write_inode(s.disk, s.sb, parent);
            assert(record(w.disk, w.sb, f.id).block_ptrs() == f.block_ptrs());
            if f1.links_cnt == 0 {
                lemma_free_inode_keeps(w.disk, w.sb, f1.id);
            } else {
                lemma_write_record_keeps(w.disk, w.sb, f1);
            }
        } else {
            if f1.links_cnt == 0 {
                lemma_free_inode_keeps(s.disk, s.sb, f1.id);
            } else {
                lemma_write_record_keeps(s.disk, s.sb, f1);
            }
        }
    } else {
        // The record is inert: it is the record of a regular file.
        assert(file_type == FileType::Regular);
        if f1.links_cnt == 0 {
            lemma_free_unused_keeps(s.disk, s.sb, f1.id);
        } else {
            lemma_write_unused_keeps(s.disk, s.sb, f1);
        }
    }
    assert(touched(disk, sb, r.disk, r.sb, f.id, p.id));
    lemma_tidy_touched(disk, sb, r.disk, r.sb, f.id, p.id);
}

/// `remove` keeps the blocks and the inodes accounted for: after it
/// succeeded every block that an inode in use points to is marked as used,
/// and every block marked as used is pointed to once.
pub proof fn lemma_remove_accounted(disk: Seq<Seq<u8>>, sb: SuperBlock, path: Seq<u8>, file_type: FileType)
    requires
        accounted(disk, sb),
        crate::fs::spec_remove(disk, sb, path, file_type).res is Ok,
    ensures
        accounted(
            crate::fs::spec_remove(disk, sb, path, file_type).disk,
            crate::fs::spec_remove(disk, sb, path, file_type).sb,
        ),
{
    reveal(crate::fs::spec_remove);
    lemma_parent_live(disk, sb, path);
    let (p, name) = crate::fs::spec_parent(disk, sb, path)->Ok_0;
    let (id, f) = crate::fs::spec_find(disk, sb, path, file_type == FileType::Symlink)->Ok_0;
    lemma_found(disk, sb, id, f);
    lemma_unlink_accounted(disk, sb, p, name, f, file_type);
}

/// No slot of a zeroed inode table holds a valid record.
proof fn lemma_zeroed_records(disk: Seq<Seq<u8>>, sb: SuperBlock, id: u32)
    requires
        sb.wf(),
        sb.num_blocks <= disk.len(),
    ensures
        spec_get_inode(crate::fs::zeroed(disk, sb), sb, id) is Err,
{
    reveal(spec_get_inode);
    crate::bitmap::lemma_layout(sb);
    if id < sb.num_inodes {
        crate::inode::lemma_inode_slot(sb, id);
    }
}

/// On a disk whose bitmaps and inode table are zeroed the blocks and the
/// inodes are accounted for: none is in use.
pub proof fn lemma_zeroed_accounted(disk: Seq<Seq<u8>>, sb: SuperBlock)
    requires
        sb.wf(),
        sb == SuperBlock::layout(sb.num_blocks, sb.num_inodes),
        sb.num_blocks <= disk.len(),
        crate::block_dev::blocks_sized(disk),
    ensures
        accounted(crate::fs::zeroed(disk, sb), sb),
{
    let z = crate::fs::zeroed(disk, sb);
    crate::fs::lemma_zeroed_formatted(disk, sb);
    assert forall|x: u32| (#[trigger] spec_get_inode(z, sb, x)) is Err by {
        lemma_zeroed_records(disk, sb, x);
    }
    assert forall|x: u32| !#[trigger] in_use(z, sb, x) by {
        crate::alloc_laws::lemma_zeroed_blocks(disk, sb, x);
    }
    assert forall|x: u32| !#[trigger] inode_used(z, sb, x) by {
        crate::tree_laws::lemma_zeroed_inodes(disk, sb, x);
    }
    assert(consistent(z, sb));
    assert(tidy(z, sb));
}

/// `format` makes a file system whose blocks and inodes are accounted for:
/// the one block that is marked as used is the block of the root directory,
/// and the inode table holds the records of inode 0 and of the root and no
/// other.
pub proof fn lemma_format_accounted(disk: Seq<Seq<u8>>, num_blocks: u32, num_inodes: u32)
    requires
        crate::block_dev::blocks_sized(disk),
        crate::fs::spec_format(disk, num_blocks, num_inodes) is Ok,
    ensures
        accounted(
            crate::fs::spec_format(disk, num_blocks, num_inodes)->Ok_0.0,
            crate::fs::spec_format(disk, num_blocks, num_inodes)->Ok_0.1,
        ),
{
    reveal(crate::fs::spec_format);
    let sb0 = SuperBlock::layout(num_blocks, num_inodes);
    let z = crate::fs::zeroed(disk, sb0);
    lemma_zeroed_accounted(disk, sb0);
    let a0 = crate::inode::spec_alloc_inode(z, sb0, FileType::Special, Mode::NoAccess);
    lemma_alloc_inode_keeps(z, sb0, FileType::Special, Mode::NoAccess);
    lemma_alloc_inode(z, sb0, FileType::Special, Mode::NoAccess);
    let m0 = a0.res->Ok_0;
    let a1 = crate::inode::spec_alloc_inode(a0.disk, a0.sb, FileType::Directory, Mode::RW);
    lemma_alloc_inode_keeps(a0.disk, a0.sb, FileType::Directory, Mode::RW);
    lemma_alloc_inode(a0.disk, a0.sb, FileType::Directory, Mode::RW);
    let root = a1.res->Ok_0;
    assert(BlockPtrModel::empty().wf());
    assert(touched(z, sb0, a1.disk, a1.sb, m0.id, root.id));
    lemma_tidy_touched(z, sb0, a1.disk, a1.sb, m0.id, root.id);
    lemma_format_root_accounted(a1.disk, a1.sb, root);
}

/// The part of `format` that follows the allocation of the root inode
/// keeps the blocks and the inodes accounted for.
proof fn lemma_format_root_accounted(disk: Seq<Seq<u8>>, sb: SuperBlock, root: InodeModel)
    requires
        accounted(disk, sb),
        current(disk, sb, root),
        crate::fs::spec_format_root(disk, sb, root) is Ok,
    ensures
        accounted(
            crate::fs::spec_format_root(disk, sb, root)->Ok_0.0,
            crate::fs::spec_format_root(disk, sb, root)->Ok_0.1,
        ),
{
    let (d, sb2) = crate::fs::spec_format_root(disk, sb, root)->Ok_0;
    let e1 = EntryModel::named(crate::config::ROOT_INODE_ID, crate::directory::dot());
    let s1 = crate::directory::spec_dir_add_entry(disk, sb, root, e1);
    lemma_add_keeps_consistent(disk, sb, root, e1);
    let e2 = EntryModel::named(crate::config::ROOT_INODE_ID, crate::directory::dotdot());
    let s2 = crate::directory::spec_dir_add_entry(s1.disk, s1.sb, s1.inode, e2);
    lemma_add_keeps_consistent(s1.disk, s1.sb, s1.inode, e2);
    let r2 = InodeModel { links_cnt: 2, ..s2.inode };
    lemma_write_record_keeps(s2.disk, s2.sb, r2);
    let w = spec_write_inode(s2.disk, s2.sb, r2);
    crate::alloc_laws::lemma_write_superblock_keeps(w.disk, w.sb);
    crate::bitmap::lemma_layout(w.sb);
    let block = crate::layout::encode_sb(w.sb);
    assert(d == w.disk.update(0, block));
    assert forall|x: u32|
        #[trigger] spec_get_inode(d, sb2, x) == spec_get_inode(w.disk, w.sb, x) && inode_used(
            d,
            sb2,
            x,
        ) == inode_used(w.disk, w.sb, x) by {
        lemma_get_frame(w.disk, w.sb, d, sb2, x);
        crate::tree_laws::lemma_inode_used_frame(w.disk, w.sb, d, sb2, x);
    }
    assert(touched(disk, sb, d, sb2, root.id, root.id));
    lemma_tidy_touched(disk, sb, d, sb2, root.id, root.id);
}

/// Writing the superblock, as `unmount` does, keeps the blocks and the
/// inodes accounted for.
pub proof fn lemma_unmount_accounted(disk: Seq<Seq<u8>>, sb: SuperBlock)
    requires
        accounted(disk, sb),
    ensures
        accounted(disk.update(0, crate::layout::encode_sb(sb)), sb),
{
    let d = disk.update(0, crate::layout::encode_sb(sb));
    crate::alloc_laws::lemma_write_superblock_keeps(disk, sb);
    crate::bitmap::lemma_layout(sb);
    assert forall|x: u32|
        #[trigger] spec_get_inode(d, sb, x) == spec_get_inode(disk, sb, x) && inode_used(d, sb, x)
            == inode_used(disk, sb, x) by {
        lemma_get_frame(disk, sb, d, sb, x);
        crate::tree_laws::lemma_inode_used_frame(disk, sb, d, sb, x);
    }
    assert(touched(disk, sb, d, sb, 0, 0));
    lemma_tidy_touched(disk, sb, d, sb, 0, 0);
}

} // verus!
