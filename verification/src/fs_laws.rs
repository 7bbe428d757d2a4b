//! What holds of a file system after every operation that succeeds.
//!
//! The data bitmap and the block pointers of the inodes in use agree: every
//! block that an inode in use points to is marked as used, and every block
//! marked as used is pointed to once. Every directory in use is in order:
//! its size counts its entries, no two of its entries have one name, and it
//! holds `.` for itself and `..`. `format` makes a disk of which this holds,
//! and `creat`, `remove`, `fwrite`, `link`, `symlink` and `unmount` keep it.

use vstd::prelude::*;
use crate::account_laws::{accounted, lemma_found, lemma_parent_live};
use crate::alloc_laws::{
    consistent, current, lemma_add_keeps_consistent, lemma_alloc_inode_keeps, lemma_get_wf,
    lemma_rm_keeps_consistent, lemma_write_record_keeps, live, record,
};
use crate::dir_laws::{dir_exact, lemma_named, lemma_owns_in_use, owns};
use crate::directory::{dot, dotdot};
use crate::dirs_laws::{
    dir_sound, dirs_sound, dirs_sound_but, lemma_add_step, lemma_alloc_step, lemma_dir_kept,
    lemma_dots_counted, lemma_free_step, lemma_free_unused_step, lemma_fwrite_step,
    lemma_others, lemma_resolve_nonzero, lemma_rm_step, lemma_write_step,
    lemma_write_unused_step,
};
use crate::error::FsError;
use crate::inode::{spec_get_inode, spec_write_inode};
use crate::inode_laws::{inode_used, lemma_alloc_inode, lemma_get_frame};
use crate::structs::{BlockPtrModel, EntryModel, FileType, InodeModel, Mode, PayloadModel, SuperBlock};

verus! {

/// Whether a file system is sound: the data bitmap and the block pointers
/// of the inodes in use agree, the inode table is tidy, every directory in
/// use is in order, and inode 0 is taken.
pub open spec fn sound(disk: Seq<Seq<u8>>, sb: SuperBlock) -> bool {
    &&& accounted(disk, sb)
    &&& dirs_sound(disk, sb)
    &&& inode_used(disk, sb, 0)
}

/// Every directory of a sound file system has a size that is a multiple of
/// the size of an entry and counts at least two entries, holds `.` for
/// itself, and holds `..`.
pub proof fn lemma_sound_directory(disk: Seq<Seq<u8>>, sb: SuperBlock, id: u32)
    requires
        sound(disk, sb),
        inode_used(disk, sb, id),
        record(disk, sb, id).ftype == FileType::Directory,
    ensures
        spec_get_inode(disk, sb, id) is Ok,
        record(disk, sb, id).id == id,
        record(disk, sb, id).size % 64 == 0,
        record(disk, sb, id).size >= 128,
        crate::directory::spec_dir_lookup(disk, sb, record(disk, sb, id), dot()) == Ok::<
            u32,
            FsError,
        >(id),
        crate::directory::spec_dir_lookup(disk, sb, record(disk, sb, id), dotdot()) is Ok,
{
    let d = record(disk, sb, id);
    assert(dir_sound(disk, sb, d));
    lemma_dots_counted(disk, sb, d);
}

/// The directory that takes or gives a name in a sound file system is a
/// directory in order that is not inode 0.
pub proof fn lemma_parent_sound(disk: Seq<Seq<u8>>, sb: SuperBlock, path: Seq<u8>)
    requires
        sound(disk, sb),
        crate::fs::spec_parent(disk, sb, path) is Ok,
    ensures
        ({
            let (p, name) = crate::fs::spec_parent(disk, sb, path)->Ok_0;
            &&& live(disk, sb, p.id, p)
            &&& current(disk, sb, p)
            &&& p.ftype == FileType::Directory
            &&& p.id != 0
            &&& dir_sound(disk, sb, p)
        }),
{
    lemma_parent_live(disk, sb, path);
    let (dir, name) = crate::path::spec_split(path)->Ok_0;
    lemma_resolve_nonzero(disk, sb, dir, false);
    let (p, _) = crate::fs::spec_parent(disk, sb, path)->Ok_0;
    assert(inode_used(disk, sb, p.id));
}

/// Creating a regular file in a directory of a sound file system keeps
/// the directories in order.
proof fn lemma_creat_regular_dirs(
    disk: Seq<Seq<u8>>,
    sb: SuperBlock,
    p: InodeModel,
    name: Seq<u8>,
    mode: Mode,
)
    requires
        sound(disk, sb),
        live(disk, sb, p.id, p),
        p.ftype == FileType::Directory,
        crate::fs::spec_creat_regular(disk, sb, p, name, mode).res is Ok,
    ensures
        dirs_sound(
            crate::fs::spec_creat_regular(disk, sb, p, name, mode).disk,
            crate::fs::spec_creat_regular(disk, sb, p, name, mode).sb,
        ),
        inode_used(
            crate::fs::spec_creat_regular(disk, sb, p, name, mode).disk,
            crate::fs::spec_creat_regular(disk, sb, p, name, mode).sb,
            0,
        ),
{
    let r = crate::fs::spec_creat_regular(disk, sb, p, name, mode);
    let a = crate::inode::spec_alloc_inode(disk, sb, FileType::Regular, mode);
    lemma_alloc_inode_keeps(disk, sb, FileType::Regular, mode);
    lemma_alloc_inode(disk, sb, FileType::Regular, mode);
    lemma_alloc_step(disk, sb, FileType::Regular, mode);
    let n0 = a.res->Ok_0;
    lemma_get_wf(disk, sb, p.id);
    assert(current(a.disk, a.sb, p));
    assert(inode_used(a.disk, a.sb, p.id));
    assert(dir_sound(a.disk, a.sb, p));
    let e = EntryModel::named(n0.id, name);
    lemma_named(n0.id, name);
    let s1 = crate::directory::spec_dir_add_entry(a.disk, a.sb, p, e);
    lemma_add_keeps_consistent(a.disk, a.sb, p, e);
    lemma_add_step(a.disk, a.sb, p, e, None);
    lemma_write_record_keeps(s1.disk, s1.sb, s1.inode);
    lemma_write_step(s1.disk, s1.sb, s1.inode, None);
    let w1 = spec_write_inode(s1.disk, s1.sb, s1.inode);
    let n1 = InodeModel { links_cnt: 1, ..n0 };
    lemma_write_record_keeps(w1.disk, w1.sb, n1);
    lemma_write_step(w1.disk, w1.sb, n1, None);
    assert(inode_used(a.disk, a.sb, 0));
}

/// Making a directory in a directory of a sound file system keeps the
/// directories in order, the new one among them.
proof fn lemma_mkdir_dirs(disk: Seq<Seq<u8>>, sb: SuperBlock, p: InodeModel, name: Seq<u8>)
    requires
        sound(disk, sb),
        live(disk, sb, p.id, p),
        p.id != 0,
        crate::directory::spec_mkdir(disk, sb, p, name).res is Ok,
    ensures
        dirs_sound(
            crate::directory::spec_mkdir(disk, sb, p, name).disk,
            crate::directory::spec_mkdir(disk, sb, p, name).sb,
        ),
        inode_used(
            crate::directory::spec_mkdir(disk, sb, p, name).disk,
            crate::directory::spec_mkdir(disk, sb, p, name).sb,
            0,
        ),
{
    reveal(crate::directory::spec_mkdir);
    let r = crate::directory::spec_mkdir(disk, sb, p, name);
    assert(dir_sound(disk, sb, p));
    crate::tree_laws::lemma_mkdir(disk, sb, p, name);
    lemma_mkdir_others(disk, sb, p, name);
    let id = r.res->Ok_0;
    assert forall|x: u32| #[trigger]
        inode_used(r.disk, r.sb, x) && Some(x) != None::<u32> && record(r.disk, r.sb, x).ftype
            == FileType::Directory implies dir_sound(r.disk, r.sb, record(r.disk, r.sb, x)) by {
        if x == id {
        } else {
            assert(Some(x) != Some(id));
        }
    }
}

/// Making a directory in a directory of a sound file system keeps every
/// directory but the new one in order.
proof fn lemma_mkdir_others(disk: Seq<Seq<u8>>, sb: SuperBlock, p: InodeModel, name: Seq<u8>)
    requires
        sound(disk, sb),
        live(disk, sb, p.id, p),
        p.id != 0,
        crate::directory::spec_mkdir(disk, sb, p, name).res is Ok,
    ensures
        dirs_sound_but(
            crate::directory::spec_mkdir(disk, sb, p, name).disk,
            crate::directory::spec_mkdir(disk, sb, p, name).sb,
            Some(crate::directory::spec_mkdir(disk, sb, p, name).res->Ok_0),
        ),
{
    reveal(crate::directory::spec_mkdir);
    reveal(crate::directory::spec_mkdir_link);
    crate::tree_laws::lemma_dots();
    let r = crate::directory::spec_mkdir(disk, sb, p, name);
    let a = crate::inode::spec_alloc_inode(disk, sb, FileType::Directory, Mode::RW);
    lemma_alloc_inode_keeps(disk, sb, FileType::Directory, Mode::RW);
    lemma_alloc_inode(disk, sb, FileType::Directory, Mode::RW);
    lemma_alloc_step(disk, sb, FileType::Directory, Mode::RW);
    let d0 = a.res->Ok_0;
    let skip = Some(d0.id);
    lemma_get_wf(disk, sb, p.id);
    assert(current(a.disk, a.sb, p));
    assert(inode_used(a.disk, a.sb, p.id));
    assert(dir_sound(a.disk, a.sb, p));
    let e1 = EntryModel::named(d0.id, name);
    lemma_named(d0.id, name);
    let s1 = crate::directory::spec_dir_add_entry(a.disk, a.sb, p, e1);
    lemma_add_keeps_consistent(a.disk, a.sb, p, e1);
    lemma_add_step(a.disk, a.sb, p, e1, skip);
    let d1 = InodeModel { links_cnt: (d0.links_cnt + 1) as u32, ..d0 };
    assert(BlockPtrModel::empty().wf());
    assert(current(s1.disk, s1.sb, d1));
    let e2 = EntryModel::named(d0.id, dot());
    lemma_named(d0.id, dot());
    crate::dir_laws::lemma_fresh_dir(s1.disk, s1.sb, d1);
    let s2 = crate::directory::spec_dir_add_entry(s1.disk, s1.sb, d1, e2);
    lemma_add_keeps_consistent(s1.disk, s1.sb, d1, e2);
    lemma_add_step(s1.disk, s1.sb, d1, e2, skip);
    let d2 = InodeModel { links_cnt: (d1.links_cnt + 1) as u32, ..s2.inode };
    assert(current(s2.disk, s2.sb, d2));
    lemma_relinked(s2.disk, s2.sb, s2.inode, d2);
    let e3 = EntryModel::named(p.id, dotdot());
    lemma_named(p.id, dotdot());
    let s3 = crate::directory::spec_dir_add_entry(s2.disk, s2.sb, d2, e3);
    lemma_add_keeps_consistent(s2.disk, s2.sb, d2, e3);
    lemma_add_step(s2.disk, s2.sb, d2, e3, skip);
    let linked = InodeModel { links_cnt: (p.links_cnt + 1) as u32, ..s1.inode };
    assert(current(s3.disk, s3.sb, s1.inode));
    lemma_write_record_keeps(s3.disk, s3.sb, linked);
    lemma_write_step(s3.disk, s3.sb, linked, skip);
    let w1 = spec_write_inode(s3.disk, s3.sb, linked);
    lemma_write_record_keeps(w1.disk, w1.sb, s3.inode);
    lemma_write_step(w1.disk, w1.sb, s3.inode, skip);
}

/// A sound directory is sound whatever its link count.
proof fn lemma_relinked(disk: Seq<Seq<u8>>, sb: SuperBlock, m: InodeModel, m2: InodeModel)
    requires
        dir_exact(disk, sb, m),
        crate::dir_laws::same_dir(m2, m),
    ensures
        dir_exact(disk, sb, m2),
{
    assert forall|x: u32| owns(disk, sb, m, x) implies #[trigger] crate::dir_laws::in_use(
        disk,
        sb,
        x,
    ) by {
        lemma_owns_in_use(disk, sb, m, x);
    }
    crate::dir_laws::lemma_dir_frame(disk, sb, m, disk, sb, m2, dot());
}

/// `creat` keeps a sound file system sound: after it succeeded every block
/// that an inode in use points to is marked as used, every block marked as
/// used is pointed to once, and every directory has a size that counts its
/// entries and holds `.` and `..`.
pub proof fn lemma_creat_sound(
    disk: Seq<Seq<u8>>,
    sb: SuperBlock,
    path: Seq<u8>,
    file_type: FileType,
    mode: Mode,
)
    requires
        sound(disk, sb),
        crate::fs::spec_creat(disk, sb, path, file_type, mode).res is Ok,
    ensures
        sound(
            crate::fs::spec_creat(disk, sb, path, file_type, mode).disk,
            crate::fs::spec_creat(disk, sb, path, file_type, mode).sb,
        ),
{
    crate::account_laws::lemma_creat_accounted(disk, sb, path, file_type, mode);
    reveal(crate::fs::spec_creat);
    lemma_parent_sound(disk, sb, path);
    let (p, name) = crate::fs::spec_parent(disk, sb, path)->Ok_0;
    match file_type {
        FileType::Regular => {
            lemma_creat_regular_dirs(disk, sb, p, name, mode);
        },
        FileType::Directory => {
            lemma_mkdir_dirs(disk, sb, p, name);
        },
        _ => {},
    }
}

/// `fwrite` by a path keeps a sound file system sound.
pub proof fn lemma_fwrite_sound(
    disk: Seq<Seq<u8>>,
    sb: SuperBlock,
    path: Seq<u8>,
    offset: int,
    data: Seq<u8>,
)
    requires
        sound(disk, sb),
        0 <= offset <= u64::MAX,
        crate::fs::spec_fs_fwrite(disk, sb, path, offset, data).res is Ok,
    ensures
        sound(
            crate::fs::spec_fs_fwrite(disk, sb, path, offset, data).disk,
            crate::fs::spec_fs_fwrite(disk, sb, path, offset, data).sb,
        ),
{
    crate::account_laws::lemma_fwrite_accounted(disk, sb, path, offset, data);
    reveal(crate::fs::spec_fs_fwrite);
    let (id, m) = crate::fs::spec_find(disk, sb, path, false)->Ok_0;
    lemma_found(disk, sb, id, m);
    assert(inode_used(disk, sb, id));
    assert(m.ftype == FileType::Regular) by {
        reveal(crate::file::spec_fwrite);
    }
    assert(current(disk, sb, m));
    crate::alloc_laws::lemma_fwrite_keeps(disk, sb, m, offset, data);
    lemma_fwrite_step(disk, sb, m, offset, data, None);
}

/// `link` keeps a sound file system sound.
pub proof fn lemma_link_sound(disk: Seq<Seq<u8>>, sb: SuperBlock, target: Seq<u8>, link_path: Seq<u8>)
    requires
        sound(disk, sb),
        crate::fs::spec_link(disk, sb, target, link_path).res is Ok,
    ensures
        sound(
            crate::fs::spec_link(disk, sb, target, link_path).disk,
            crate::fs::spec_link(disk, sb, target, link_path).sb,
        ),
{
    crate::account_laws::lemma_link_accounted(disk, sb, target, link_path);
    reveal(crate::fs::spec_link);
    lemma_parent_sound(disk, sb, link_path);
    let (p, name) = crate::fs::spec_parent(disk, sb, link_path)->Ok_0;
    let (id, t) = crate::fs::spec_find(disk, sb, target, false)->Ok_0;
    lemma_found(disk, sb, id, t);
    lemma_resolve_nonzero(disk, sb, target, false);
    let e = EntryModel::named(id, name);
    lemma_named(id, name);
    let s = crate::directory::spec_dir_add_entry(disk, sb, p, e);
    lemma_add_keeps_consistent(disk, sb, p, e);
    lemma_add_step(disk, sb, p, e, None);
    let t1 = InodeModel { links_cnt: (t.links_cnt + 1) as u32, ..t };
    if inode_used(disk, sb, id) {
        assert(record(s.disk, s.sb, t.id).block_ptrs() == t.block_ptrs());
        lemma_write_step(s.disk, s.sb, t1, None);
    } else {
        lemma_write_unused_step(s.disk, s.sb, t1, None);
    }
}

/// `symlink` keeps a sound file system sound.
pub proof fn lemma_symlink_sound(
    disk: Seq<Seq<u8>>,
    sb: SuperBlock,
    target: Seq<u8>,
    link_path: Seq<u8>,
)
    requires
        sound(disk, sb),
        crate::fs::spec_symlink(disk, sb, target, link_path).res is Ok,
    ensures
        sound(
            crate::fs::spec_symlink(disk, sb, target, link_path).disk,
            crate::fs::spec_symlink(disk, sb, target, link_path).sb,
        ),
{
    crate::account_laws::lemma_symlink_accounted(disk, sb, target, link_path);
    reveal(crate::fs::spec_symlink);
    lemma_parent_sound(disk, sb, link_path);
    let (p, name) = crate::fs::spec_parent(disk, sb, link_path)->Ok_0;
    let a = crate::inode::spec_alloc_inode(disk, sb, FileType::Symlink, Mode::Read);
    lemma_alloc_inode_keeps(disk, sb, FileType::Symlink, Mode::Read);
    lemma_alloc_inode(disk, sb, FileType::Symlink, Mode::Read);
    lemma_alloc_step(disk, sb, FileType::Symlink, Mode::Read);
    let n0 = a.res->Ok_0;
    assert(current(a.disk, a.sb, p));
    assert(inode_used(a.disk, a.sb, p.id));
    assert(dir_sound(a.disk, a.sb, p));
    let e = EntryModel::named(n0.id, name);
    lemma_named(n0.id, name);
    let s = crate::directory::spec_dir_add_entry(a.disk, a.sb, p, e);
    lemma_add_keeps_consistent(a.disk, a.sb, p, e);
    lemma_add_step(a.disk, a.sb, p, e, None);
    let n1 = InodeModel {
        links_cnt: 1,
        payload: PayloadModel::Path(crate::fs::padded(target)),
        ..n0
    };
    assert(n1.wf());
    assert(record(s.disk, s.sb, n0.id) == n0);
    lemma_write_step(s.disk, s.sb, n1, None);
    assert(inode_used(a.disk, a.sb, 0));
}

/// Taking an entry from a directory of a sound file system, and the link
/// that it stands for from its inode, keeps the directories in order.
proof fn lemma_unlink_dirs(
    disk: Seq<Seq<u8>>,
    sb: SuperBlock,
    p: InodeModel,
    name: Seq<u8>,
    f: InodeModel,
    file_type: FileType,
)
    requires
        sound(disk, sb),
        live(disk, sb, p.id, p),
        p.ftype == FileType::Directory,
        f.id != 0,
        spec_get_inode(disk, sb, f.id) == Ok::<InodeModel, FsError>(f),
        crate::fs::spec_unlink(disk, sb, p, name, f, file_type).res is Ok,
    ensures
        dirs_sound(
            crate::fs::spec_unlink(disk, sb, p, name, f, file_type).disk,
            crate::fs::spec_unlink(disk, sb, p, name, f, file_type).sb,
        ),
        inode_used(
            crate::fs::spec_unlink(disk, sb, p, name, f, file_type).disk,
            crate::fs::spec_unlink(disk, sb, p, name, f, file_type).sb,
            0,
        ),
{
    let r = crate::fs::spec_unlink(disk, sb, p, name, f, file_type);
    lemma_get_wf(disk, sb, p.id);
    lemma_found(disk, sb, f.id, f);
    assert(inode_used(disk, sb, p.id));
    assert(dir_sound(disk, sb, p));
    let s = crate::directory::spec_dir_rm_entry(disk, sb, p, name);
    lemma_rm_keeps_consistent(disk, sb, p, name);
    lemma_rm_step(disk, sb, p, name, None);
    let taken = crate::fs::links_taken(file_type);
    let f1 = InodeModel { links_cnt: (f.links_cnt - taken) as u32, ..f };
    assert(BlockPtrModel::empty().wf());
    if inode_used(disk, sb, f.id) {
        if file_type == FileType::Directory {
            // The directory that loses the entry is not the one removed:
            // it holds the entry besides `.` and `..`.
            assert(f.id != p.id) by {
                if f.id == p.id {
                    assert(f == p);
                    lemma_dots_counted(s.disk, s.sb, s.inode);
                }
            }
            let parent = InodeModel { links_cnt: (s.inode.links_cnt - 1) as u32, ..s.inode };
            lemma_write_record_keeps(s.disk, s.sb, parent);
            lemma_write_step(s.disk, s.sb, parent, None);
            let w = spec_write_inode(s.disk, s.sb, parent);
            assert(spec_get_inode(w.disk, w.sb, f.id) == Ok::<InodeModel, FsError>(f));
            if f1.links_cnt == 0 {
                crate::alloc_laws::lemma_free_inode_keeps(w.disk, w.sb, f1.id);
                lemma_free_step(w.disk, w.sb, f1.id, None);
            } else {
                lemma_write_step(w.disk, w.sb, f1, None);
            }
        } else {
            assert(record(s.disk, s.sb, f.id).block_ptrs() == f.block_ptrs()) by {
                if f.id == p.id {
                    assert(f == p);
                }
            }
            if f1.links_cnt == 0 {
                crate::alloc_laws::lemma_free_inode_keeps(s.disk, s.sb, f1.id);
                lemma_free_step(s.disk, s.sb, f1.id, None);
            } else {
                lemma_write_step(s.disk, s.sb, f1, None);
            }
        }
    } else {
        assert(file_type == FileType::Regular);
        if f1.links_cnt == 0 {
            crate::account_laws::lemma_free_unused_keeps(s.disk, s.sb, f1.id);
            lemma_free_unused_step(s.disk, s.sb, f1.id, None);
        } else {
            crate::account_laws::lemma_write_unused_keeps(s.disk, s.sb, f1);
            lemma_write_unused_step(s.disk, s.sb, f1, None);
        }
    }
}

/// `remove` keeps a sound file system sound: after it succeeded every
/// block that an inode in use points to is marked as used, every block
/// marked as used is pointed to once, and every directory has a size that
/// counts its entries and holds `.` and `..`.
pub proof fn lemma_remove_sound(disk: Seq<Seq<u8>>, sb: SuperBlock, path: Seq<u8>, file_type: FileType)
    requires
        sound(disk, sb),
        crate::fs::spec_remove(disk, sb, path, file_type).res is Ok,
    ensures
        sound(
            crate::fs::spec_remove(disk, sb, path, file_type).disk,
            crate::fs::spec_remove(disk, sb, path, file_type).sb,
        ),
{
    crate::account_laws::lemma_remove_accounted(disk, sb, path, file_type);
    reveal(crate::fs::spec_remove);
    lemma_parent_sound(disk, sb, path);
    let (p, name) = crate::fs::spec_parent(disk, sb, path)->Ok_0;
    let (id, f) = crate::fs::spec_find(disk, sb, path, file_type == FileType::Symlink)->Ok_0;
    lemma_found(disk, sb, id, f);
    lemma_resolve_nonzero(disk, sb, path, file_type == FileType::Symlink);
    lemma_unlink_dirs(disk, sb, p, name, f, file_type);
}

/// A change that leaves the inode table, the bitmaps and the blocks marked
/// as used alone keeps the directories in order.
proof fn lemma_frame_step(
    d1: Seq<Seq<u8>>,
    sb1: SuperBlock,
    d2: Seq<Seq<u8>>,
    sb2: SuperBlock,
    skip: Option<u32>,
)
    requires
        consistent(d1, sb1),
        dirs_sound_but(d1, sb1, skip),
        crate::superblock::same_geometry(sb2, sb1),
        forall|x: u32| #[trigger] spec_get_inode(d2, sb2, x) == spec_get_inode(d1, sb1, x),
        forall|x: u32| #[trigger] inode_used(d2, sb2, x) == inode_used(d1, sb1, x),
        forall|x: u32| #[trigger]
            crate::dir_laws::in_use(d1, sb1, x) ==> d2[x as int] == d1[x as int]
                && crate::dir_laws::in_use(d2, sb2, x),
    ensures
        dirs_sound_but(d2, sb2, skip),
{
    if Some(0u32) != skip && inode_used(d2, sb2, 0) && record(d2, sb2, 0).ftype
        == FileType::Directory {
        let rec = record(d1, sb1, 0);
        assert(inode_used(d1, sb1, 0));
        assert(dir_sound(d1, sb1, rec));
        assert forall|x: u32| owns(d1, sb1, rec, x) implies #[trigger] d2[x as int]
            == d1[x as int] by {
            lemma_owns_in_use(d1, sb1, rec, x);
        }
        assert forall|x: u32| owns(d1, sb1, rec, x) implies #[trigger] crate::dir_laws::in_use(
            d2,
            sb2,
            x,
        ) by {
            lemma_owns_in_use(d1, sb1, rec, x);
        }
        lemma_dir_kept(d1, sb1, rec, d2, sb2, rec);
    }
    lemma_others(d1, sb1, d2, sb2, skip, 0);
}

/// Writing the superblock keeps the directories in order.
proof fn lemma_superblock_step(disk: Seq<Seq<u8>>, sb: SuperBlock, skip: Option<u32>)
    requires
        consistent(disk, sb),
        dirs_sound_but(disk, sb, skip),
    ensures
        dirs_sound_but(disk.update(0, crate::layout::encode_sb(sb)), sb, skip),
        forall|x: u32| #[trigger]
            inode_used(disk.update(0, crate::layout::encode_sb(sb)), sb, x) == inode_used(
                disk,
                sb,
                x,
            ),
        forall|x: u32| #[trigger]
            spec_get_inode(disk.update(0, crate::layout::encode_sb(sb)), sb, x) == spec_get_inode(
                disk,
                sb,
                x,
            ),
{
    let d = disk.update(0, crate::layout::encode_sb(sb));
    crate::bitmap::lemma_layout(sb);
    assert forall|x: u32|
        #[trigger] spec_get_inode(d, sb, x) == spec_get_inode(disk, sb, x) by {
        lemma_get_frame(disk, sb, d, sb, x);
    }
    assert forall|x: u32| #[trigger] inode_used(d, sb, x) == inode_used(disk, sb, x) by {
        crate::tree_laws::lemma_inode_used_frame(disk, sb, d, sb, x);
    }
    assert forall|x: u32| #[trigger] crate::dir_laws::in_use(disk, sb, x) implies d[x as int]
        == disk[x as int] && crate::dir_laws::in_use(d, sb, x) by {
        crate::dir_laws::lemma_in_use_frame(d, disk, sb, x);
    }
    lemma_frame_step(disk, sb, d, sb, skip);
}

/// Writing the superblock, as `unmount` does, keeps a sound file system
/// sound.
pub proof fn lemma_unmount_sound(disk: Seq<Seq<u8>>, sb: SuperBlock)
    requires
        sound(disk, sb),
    ensures
        sound(disk.update(0, crate::layout::encode_sb(sb)), sb),
{
    crate::account_laws::lemma_unmount_accounted(disk, sb);
    lemma_superblock_step(disk, sb, None);
}

/// The part of `format` that follows the allocation of the root inode
/// keeps every directory but the root in order.
proof fn lemma_format_root_dirs(disk: Seq<Seq<u8>>, sb: SuperBlock, root: InodeModel)
    requires
        consistent(disk, sb),
        dirs_sound_but(disk, sb, Some(root.id)),
        current(disk, sb, root),
        root == InodeModel::fresh(FileType::Directory, Mode::RW, 1),
        crate::fs::spec_format_root(disk, sb, root) is Ok,
    ensures
        dirs_sound_but(
            crate::fs::spec_format_root(disk, sb, root)->Ok_0.0,
            crate::fs::spec_format_root(disk, sb, root)->Ok_0.1,
            Some(root.id),
        ),
{
    crate::tree_laws::lemma_dots();
    let skip = Some(root.id);
    let (d, sb2) = crate::fs::spec_format_root(disk, sb, root)->Ok_0;
    let e1 = EntryModel::named(crate::config::ROOT_INODE_ID, dot());
    lemma_named(crate::config::ROOT_INODE_ID, dot());
    crate::dir_laws::lemma_fresh_dir(disk, sb, root);
    let s1 = crate::directory::spec_dir_add_entry(disk, sb, root, e1);
    lemma_add_keeps_consistent(disk, sb, root, e1);
    lemma_add_step(disk, sb, root, e1, skip);
    let e2 = EntryModel::named(crate::config::ROOT_INODE_ID, dotdot());
    lemma_named(crate::config::ROOT_INODE_ID, dotdot());
    let s2 = crate::directory::spec_dir_add_entry(s1.disk, s1.sb, s1.inode, e2);
    lemma_add_keeps_consistent(s1.disk, s1.sb, s1.inode, e2);
    lemma_add_step(s1.disk, s1.sb, s1.inode, e2, skip);
    let r2 = InodeModel { links_cnt: 2, ..s2.inode };
    lemma_write_record_keeps(s2.disk, s2.sb, r2);
    lemma_write_step(s2.disk, s2.sb, r2, skip);
    let w = spec_write_inode(s2.disk, s2.sb, r2);
    lemma_superblock_step(w.disk, w.sb, skip);
    assert(d == w.disk.update(0, crate::layout::encode_sb(w.sb)));
}

/// `format` makes a sound file system: the one block that is marked as
/// used is the block of the root directory, the inode table holds the
/// records of inode 0 and of the root and no other, and the root holds `.`
/// and `..`.
pub proof fn lemma_format_sound(disk: Seq<Seq<u8>>, num_blocks: u32, num_inodes: u32)
    requires
        crate::block_dev::blocks_sized(disk),
        crate::fs::spec_format(disk, num_blocks, num_inodes) is Ok,
    ensures
        sound(
            crate::fs::spec_format(disk, num_blocks, num_inodes)->Ok_0.0,
            crate::fs::spec_format(disk, num_blocks, num_inodes)->Ok_0.1,
        ),
{
    crate::account_laws::lemma_format_accounted(disk, num_blocks, num_inodes);
    crate::tree_laws::lemma_format(disk, num_blocks, num_inodes);
    lemma_format_others(disk, num_blocks, num_inodes);
    let (d, sb) = crate::fs::spec_format(disk, num_blocks, num_inodes)->Ok_0;
    assert forall|x: u32| #[trigger]
        inode_used(d, sb, x) && Some(x) != None::<u32> && record(d, sb, x).ftype
            == FileType::Directory implies dir_sound(d, sb, record(d, sb, x)) by {
        if x != 1 {
            assert(Some(x) != Some(1u32));
        }
    }
}

/// `format` leaves no directory but the root.
proof fn lemma_format_others(disk: Seq<Seq<u8>>, num_blocks: u32, num_inodes: u32)
    requires
        crate::block_dev::blocks_sized(disk),
        crate::fs::spec_format(disk, num_blocks, num_inodes) is Ok,
    ensures
        dirs_sound_but(
            crate::fs::spec_format(disk, num_blocks, num_inodes)->Ok_0.0,
            crate::fs::spec_format(disk, num_blocks, num_inodes)->Ok_0.1,
            Some(1u32),
        ),
{
    reveal(crate::fs::spec_format);
    let sb0 = SuperBlock::layout(num_blocks, num_inodes);
    let z = crate::fs::zeroed(disk, sb0);
    crate::account_laws::lemma_zeroed_accounted(disk, sb0);
    assert forall|x: u32| !#[trigger] inode_used(z, sb0, x) by {
        crate::tree_laws::lemma_zeroed_inodes(disk, sb0, x);
    }
    assert(dirs_sound(z, sb0));
    let a0 = crate::inode::spec_alloc_inode(z, sb0, FileType::Special, Mode::NoAccess);
    lemma_alloc_inode_keeps(z, sb0, FileType::Special, Mode::NoAccess);
    lemma_alloc_inode(z, sb0, FileType::Special, Mode::NoAccess);
    lemma_alloc_step(z, sb0, FileType::Special, Mode::NoAccess);
    let m0 = a0.res->Ok_0;
    assert(m0.id == 0) by {
        if m0.id > 0 {
            assert(inode_used(z, sb0, 0));
        }
    }
    let a1 = crate::inode::spec_alloc_inode(a0.disk, a0.sb, FileType::Directory, Mode::RW);
    lemma_alloc_inode_keeps(a0.disk, a0.sb, FileType::Directory, Mode::RW);
    lemma_alloc_inode(a0.disk, a0.sb, FileType::Directory, Mode::RW);
    lemma_alloc_step(a0.disk, a0.sb, FileType::Directory, Mode::RW);
    let root = a1.res->Ok_0;
    assert(inode_used(a0.disk, a0.sb, 0));
    assert(!inode_used(a0.disk, a0.sb, 1)) by {
        assert(inode_used(a0.disk, a0.sb, 1) == (1 == m0.id || inode_used(z, sb0, 1)));
    }
    assert(root.id == 1) by {
        if root.id > 1 {
            assert(inode_used(a0.disk, a0.sb, 1));
        }
    }
    assert(BlockPtrModel::empty().wf());
    lemma_format_root_dirs(a1.disk, a1.sb, root);
}

} // verus!
