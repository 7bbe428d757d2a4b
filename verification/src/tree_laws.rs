//! What holds of the directories that `mkdir` and `format` make: they hold
//! their entries `.` and `..`.

use vstd::prelude::*;
use crate::dir_laws::{
    dir_exact, in_use, lemma_add_keeps_inode_bitmap, lemma_add_keeps_sound, lemma_add_places,
    lemma_dir_frame, lemma_fresh_dir, lemma_lookup_after_add, lemma_lookup_kept_by_add,
    lemma_lookup_name, lemma_named, lemma_owns_in_use, lemma_write_inode_formatted,
    names_unique, owns, same_dir,
};
use crate::directory::{dot, dotdot, spec_dir_add_entry, spec_dir_lookup, spec_mkdir, trimmed};
use crate::error::FsError;
use crate::inode::{spec_get_inode, spec_write_inode};
use crate::inode_laws::{inode_used, lemma_alloc_inode, lemma_write_get};
use crate::structs::{EntryModel, FileType, InodeModel, Mode, SuperBlock};

verus! {

/// Whether `d` is a directory as `mkdir` and `format` make it: sound, with
/// its two entries `.` for itself and `..` for `parent`, and nothing else.
pub open spec fn new_dir(disk: Seq<Seq<u8>>, sb: SuperBlock, d: InodeModel, parent: u32) -> bool {
    &&& d.ftype == FileType::Directory
    &&& d.size == 128
    &&& d.blocks == 1
    &&& dir_exact(disk, sb, d)
    &&& names_unique(disk, sb, d)
    &&& spec_dir_lookup(disk, sb, d, dot()) == Ok::<u32, FsError>(d.id)
    &&& spec_dir_lookup(disk, sb, d, dotdot()) == Ok::<u32, FsError>(parent)
}

/// The names `.` and `..` are not empty.
pub proof fn lemma_dots()
    ensures
        trimmed(dot()) == dot(),
        trimmed(dotdot()) == dotdot(),
        dot().len() == 1,
        dotdot().len() == 2,
{
    reveal_with_fuel(trimmed, 2);
}

/// A directory that was just allocated holds `.` and `..` once they were
/// added to it, and the rest of the disk is as the two additions of entries
/// leave what they do not own.
proof fn lemma_add_dots(
    disk: Seq<Seq<u8>>,
    sb: SuperBlock,
    d1: InodeModel,
    links: u32,
    parent: u32,
    other: InodeModel,
    other_name: Seq<u8>,
)
    requires
        crate::bitmap::formatted(disk, sb),
        d1.ftype == FileType::Directory,
        d1.blocks == 0,
        d1.size == 0,
        d1.payload == crate::structs::PayloadModel::Blocks(crate::structs::BlockPtrModel::empty()),
        d1.id != 0,
        parent != 0,
        dir_exact(disk, sb, other),
        spec_dir_add_entry(disk, sb, d1, EntryModel::named(d1.id, dot())).res is Ok,
        ({
            let s2 = spec_dir_add_entry(disk, sb, d1, EntryModel::named(d1.id, dot()));
            spec_dir_add_entry(
                s2.disk,
                s2.sb,
                InodeModel { links_cnt: links, ..s2.inode },
                EntryModel::named(parent, dotdot()),
            ).res is Ok
        }),
    ensures
        ({
            let s2 = spec_dir_add_entry(disk, sb, d1, EntryModel::named(d1.id, dot()));
            let d2 = InodeModel { links_cnt: links, ..s2.inode };
            let s3 = spec_dir_add_entry(s2.disk, s2.sb, d2, EntryModel::named(parent, dotdot()));
            &&& crate::bitmap::formatted(s3.disk, s3.sb)
            &&& crate::superblock::same_geometry(s3.sb, sb)
            &&& s3.inode.id == d1.id
            &&& s3.inode.links_cnt == links
            &&& s3.inode.wf()
            &&& s3.sb.free_inodes == sb.free_inodes
            &&& new_dir(s3.disk, s3.sb, s3.inode, parent)
            &&& dir_exact(s3.disk, s3.sb, other)
            &&& names_unique(disk, sb, other) ==> names_unique(s3.disk, s3.sb, other)
            &&& spec_dir_lookup(s3.disk, s3.sb, other, other_name) == spec_dir_lookup(
                disk,
                sb,
                other,
                other_name,
            )
            &&& forall|x: u32| owns(s3.disk, s3.sb, other, x) == owns(disk, sb, other, x)
        }),
{
    lemma_dots();
    let e2 = EntryModel::named(d1.id, dot());
    let e3 = EntryModel::named(parent, dotdot());
    lemma_named(d1.id, dot());
    lemma_named(parent, dotdot());
    lemma_fresh_dir(disk, sb, d1);
    let s2 = spec_dir_add_entry(disk, sb, d1, e2);
    let t2 = lemma_add_places(disk, sb, d1, e2);
    lemma_add_keeps_sound(disk, sb, d1, e2);
    lemma_lookup_after_add(disk, sb, d1, e2);
    let d2 = InodeModel { links_cnt: links, ..s2.inode };
    // The other directory is as it was after the first addition.
    assert forall|x: u32| owns(disk, sb, other, x) implies #[trigger] s2.disk[x as int]
        == disk[x as int] by {
        lemma_owns_in_use(disk, sb, other, x);
    }
    assert forall|x: u32| owns(disk, sb, other, x) implies #[trigger] in_use(s2.disk, s2.sb, x) by {
        lemma_owns_in_use(disk, sb, other, x);
    }
    lemma_dir_frame(disk, sb, other, s2.disk, s2.sb, other, other_name);
    // The new directory with its link counted.
    assert forall|x: u32| owns(s2.disk, s2.sb, s2.inode, x) implies #[trigger] s2.disk[x as int]
        == s2.disk[x as int] by {}
    assert forall|x: u32| owns(s2.disk, s2.sb, s2.inode, x) implies #[trigger] in_use(
        s2.disk,
        s2.sb,
        x,
    ) by {
        lemma_owns_in_use(s2.disk, s2.sb, s2.inode, x);
    }
    lemma_dir_frame(s2.disk, s2.sb, s2.inode, s2.disk, s2.sb, d2, e2.name);
    let s3 = spec_dir_add_entry(s2.disk, s2.sb, d2, e3);
    let t3 = lemma_add_places(s2.disk, s2.sb, d2, e3);
    lemma_add_keeps_sound(s2.disk, s2.sb, d2, e3);
    lemma_lookup_after_add(s2.disk, s2.sb, d2, e3);
    lemma_lookup_kept_by_add(s2.disk, s2.sb, d2, e3, e2.name);
    lemma_lookup_name(s3.disk, s3.sb, s3.inode, e2.name, dot());
    lemma_lookup_name(s3.disk, s3.sb, s3.inode, e3.name, dotdot());
    // The first addition appended a block, the second used its second slot.
    assert(t2.0 == 0);
    assert(s2.inode.blocks == 1);
    assert(s3.inode.blocks == 1) by {
        if t3.0 >= d2.blocks {
            // No slot was empty, but the second slot of the block is.
            crate::dir_laws::lemma_scan_none(s2.disk, s2.sb, d2, e3.name, true, 0);
            crate::dir_laws::lemma_trimmed_zeros(60);
            let b = crate::dir_laws::block_of(s2.disk, s2.sb, d2, 0)->0;
            assert(crate::dir_laws::no_fit(s2.disk[b as int], e3.name, true));
            assert(crate::dir_laws::slot(s2.disk, s2.sb, s2.inode, 0, 1) == EntryModel::null());
            assert(crate::dir_laws::block_of(s2.disk, s2.sb, d2, 0) == crate::dir_laws::block_of(
                s2.disk,
                s2.sb,
                s2.inode,
                0,
            )) by {
                crate::dir_laws::lemma_block_of_frame(s2.disk, s2.disk, s2.sb, d2, s2.inode, 0);
            }
            assert(crate::directory::slot_fits(
                crate::directory::entry_at(s2.disk[b as int], 1),
                e3.name,
                true,
            ));
        }
    }
    // The other directory is as it was after the second addition.
    assert forall|x: u32| owns(s2.disk, s2.sb, other, x) implies #[trigger] s3.disk[x as int]
        == s2.disk[x as int] by {
        lemma_owns_in_use(s2.disk, s2.sb, other, x);
        assert(owns(disk, sb, other, x));
        lemma_owns_in_use(disk, sb, other, x);
        if owns(s2.disk, s2.sb, d2, x) {
            assert(owns(s2.disk, s2.sb, s2.inode, x));
            assert(!owns(disk, sb, d1, x));
        }
    }
    assert forall|x: u32| owns(s2.disk, s2.sb, other, x) implies #[trigger] in_use(
        s3.disk,
        s3.sb,
        x,
    ) by {
        lemma_owns_in_use(s2.disk, s2.sb, other, x);
    }
    lemma_dir_frame(s2.disk, s2.sb, other, s3.disk, s3.sb, other, other_name);
    assert forall|x: u32| owns(s3.disk, s3.sb, other, x) == owns(disk, sb, other, x) by {
        assert(owns(s3.disk, s3.sb, other, x) == owns(s2.disk, s2.sb, other, x));
    }
}

/// A write to the inode table keeps a sound directory and its answers.
proof fn lemma_dir_after_write(
    disk: Seq<Seq<u8>>,
    sb: SuperBlock,
    w: InodeModel,
    m: InodeModel,
    m2: InodeModel,
    name: Seq<u8>,
)
    requires
        crate::bitmap::formatted(disk, sb),
        dir_exact(disk, sb, m),
        same_dir(m2, m),
    ensures
        ({
            let r = spec_write_inode(disk, sb, w);
            &&& dir_exact(r.disk, r.sb, m2)
            &&& names_unique(disk, sb, m) ==> names_unique(r.disk, r.sb, m2)
            &&& spec_dir_lookup(r.disk, r.sb, m2, name) == spec_dir_lookup(disk, sb, m, name)
        }),
{
    let r = spec_write_inode(disk, sb, w);
    lemma_write_inode_formatted(disk, sb, w);
    crate::bitmap::lemma_layout(sb);
    assert forall|x: u32| owns(disk, sb, m, x) implies #[trigger] r.disk[x as int]
        == disk[x as int] by {
        lemma_owns_in_use(disk, sb, m, x);
    }
    assert forall|x: u32| owns(disk, sb, m, x) implies #[trigger] in_use(r.disk, r.sb, x) by {
        lemma_owns_in_use(disk, sb, m, x);
    }
    lemma_dir_frame(disk, sb, m, r.disk, r.sb, m2, name);
}

/// The first half of `mkdir`: an inode is allocated and entered in the
/// parent.
proof fn lemma_mkdir_entry(disk: Seq<Seq<u8>>, sb: SuperBlock, p: InodeModel, name: Seq<u8>)
    requires
        crate::bitmap::formatted(disk, sb),
        dir_exact(disk, sb, p),
        inode_used(disk, sb, 0),
        inode_used(disk, sb, p.id),
        name.len() <= 60,
        crate::inode::spec_alloc_inode(disk, sb, FileType::Directory, Mode::RW).res is Ok,
        ({
            let a = crate::inode::spec_alloc_inode(disk, sb, FileType::Directory, Mode::RW);
            spec_dir_add_entry(
                a.disk,
                a.sb,
                p,
                EntryModel::named(a.res->Ok_0.id, name),
            ).res is Ok
        }),
    ensures
        ({
            let a = crate::inode::spec_alloc_inode(disk, sb, FileType::Directory, Mode::RW);
            let d0 = a.res->Ok_0;
            let s1 = spec_dir_add_entry(a.disk, a.sb, p, EntryModel::named(d0.id, name));
            &&& d0 == InodeModel::fresh(FileType::Directory, Mode::RW, d0.id)
            &&& d0.id != 0
            &&& d0.id != p.id
            &&& d0.id < sb.num_inodes
            &&& !inode_used(disk, sb, d0.id)
            &&& forall|x: u32| #[trigger]
                inode_used(s1.disk, s1.sb, x) == (x == d0.id || inode_used(disk, sb, x))
            &&& crate::bitmap::formatted(s1.disk, s1.sb)
            &&& crate::superblock::same_geometry(s1.sb, sb)
            &&& dir_exact(s1.disk, s1.sb, s1.inode)
            &&& names_unique(disk, sb, p) ==> names_unique(s1.disk, s1.sb, s1.inode)
            &&& crate::inode::same_identity(s1.inode, p)
            &&& s1.inode.size == p.size + 64
            &&& trimmed(name).len() > 0 ==> spec_dir_lookup(s1.disk, s1.sb, s1.inode, name) == Ok::<
                u32,
                FsError,
            >(d0.id)
        }),
{
    let a = crate::inode::spec_alloc_inode(disk, sb, FileType::Directory, Mode::RW);
    lemma_alloc_inode(disk, sb, FileType::Directory, Mode::RW);
    crate::bitmap::lemma_layout(sb);
    let d0 = a.res->Ok_0;
    let id = d0.id;
    assert forall|x: u32| owns(disk, sb, p, x) implies #[trigger] a.disk[x as int]
        == disk[x as int] by {
        lemma_owns_in_use(disk, sb, p, x);
    }
    assert forall|x: u32| owns(disk, sb, p, x) implies #[trigger] in_use(a.disk, a.sb, x) by {
        lemma_owns_in_use(disk, sb, p, x);
    }
    lemma_dir_frame(disk, sb, p, a.disk, a.sb, p, name);
    let e1 = EntryModel::named(id, name);
    lemma_named(id, name);
    let s1 = spec_dir_add_entry(a.disk, a.sb, p, e1);
    lemma_add_keeps_sound(a.disk, a.sb, p, e1);
    if trimmed(name).len() > 0 {
        lemma_lookup_after_add(a.disk, a.sb, p, e1);
        lemma_lookup_name(s1.disk, s1.sb, s1.inode, e1.name, name);
    }
    lemma_add_frame(a.disk, a.sb, p, e1);
    assert forall|x: u32| #[trigger]
        inode_used(s1.disk, s1.sb, x) == (x == d0.id || inode_used(disk, sb, x)) by {
        lemma_inode_used_frame(a.disk, a.sb, s1.disk, s1.sb, x);
    }
}

/// What `dir_add_entry` leaves alone: the inode bitmap and the inode
/// itself but for its size, its block count and its block pointers.
pub proof fn lemma_add_frame(disk: Seq<Seq<u8>>, sb: SuperBlock, m: InodeModel, e: EntryModel)
    requires
        crate::bitmap::formatted(disk, sb),
        dir_exact(disk, sb, m),
        e.name.len() == 60,
        spec_dir_add_entry(disk, sb, m, e).res is Ok,
    ensures
        ({
            let s = spec_dir_add_entry(disk, sb, m, e);
            &&& crate::superblock::same_geometry(s.sb, sb)
            &&& crate::inode::same_identity(s.inode, m)
            &&& forall|b: int|
                sb.inode_bitmap_start <= b < sb.inode_table_start ==> s.disk[b] == disk[b]
        }),
{
    let t = lemma_add_places(disk, sb, m, e);
    lemma_add_keeps_inode_bitmap(disk, sb, m, e);
}

/// The last half of `mkdir`: the two inodes are written.
proof fn lemma_mkdir_writes(
    disk: Seq<Seq<u8>>,
    sb: SuperBlock,
    parent_in: InodeModel,
    parent_out: InodeModel,
    d: InodeModel,
    parent: u32,
    name: Seq<u8>,
)
    requires
        crate::bitmap::formatted(disk, sb),
        dir_exact(disk, sb, parent_in),
        same_dir(parent_out, parent_in),
        parent_out.wf(),
        parent_out.id < sb.num_inodes,
        d.id < sb.num_inodes,
        d.wf(),
        parent_out.id != d.id,
        new_dir(disk, sb, d, parent),
    ensures
        ({
            let w1 = spec_write_inode(disk, sb, parent_out);
            let w2 = spec_write_inode(w1.disk, w1.sb, d);
            &&& w1.res is Ok
            &&& w2.res is Ok
            &&& w2.sb == sb
            &&& crate::bitmap::formatted(w2.disk, w2.sb)
            &&& spec_get_inode(w2.disk, w2.sb, d.id) == Ok::<InodeModel, FsError>(d)
            &&& spec_get_inode(w2.disk, w2.sb, parent_out.id) == Ok::<InodeModel, FsError>(parent_out)
            &&& new_dir(w2.disk, w2.sb, d, parent)
            &&& dir_exact(w2.disk, w2.sb, parent_out)
            &&& names_unique(disk, sb, parent_in) ==> names_unique(w2.disk, w2.sb, parent_out)
            &&& spec_dir_lookup(w2.disk, w2.sb, parent_out, name) == spec_dir_lookup(disk, sb, parent_in, name)
            &&& forall|x: u32| #[trigger] inode_used(w2.disk, w2.sb, x) == inode_used(disk, sb, x)
        }),
{
    let w1 = spec_write_inode(disk, sb, parent_out);
    lemma_write_inode_formatted(disk, sb, parent_out);
    let w2 = spec_write_inode(w1.disk, w1.sb, d);
    lemma_write_inode_formatted(w1.disk, w1.sb, d);
    lemma_write_get(disk, sb, parent_out, parent_out.id);
    lemma_write_get(w1.disk, w1.sb, d, parent_out.id);
    lemma_write_get(w1.disk, w1.sb, d, d.id);
    lemma_dir_after_write(disk, sb, parent_out, d, d, dot());
    lemma_dir_after_write(disk, sb, parent_out, d, d, dotdot());
    lemma_dir_after_write(w1.disk, w1.sb, d, d, d, dot());
    lemma_dir_after_write(w1.disk, w1.sb, d, d, d, dotdot());
    lemma_dir_after_write(disk, sb, parent_out, parent_in, parent_out, name);
    lemma_dir_after_write(w1.disk, w1.sb, d, parent_out, parent_out, name);
    crate::bitmap::lemma_layout(sb);
    assert forall|x: u32| #[trigger] inode_used(w2.disk, w2.sb, x) == inode_used(disk, sb, x) by {
        lemma_inode_used_frame(disk, sb, w2.disk, w2.sb, x);
    }
}

/// What `mkdir` makes: in a sound parent directory of a file system whose
/// inode 0 is taken, the new directory gets an inode that was free; it is
/// sound, has two links and holds `.` for itself and `..` for its parent; the
/// parent is sound, has one more link and one more entry, and a lookup of
/// the name in it gives the new directory, unless the name is made of zero
/// bytes alone; both inodes are on disk as they are in memory.
pub proof fn lemma_mkdir(disk: Seq<Seq<u8>>, sb: SuperBlock, p: InodeModel, name: Seq<u8>)
    requires
        crate::bitmap::formatted(disk, sb),
        dir_exact(disk, sb, p),
        inode_used(disk, sb, 0),
        inode_used(disk, sb, p.id),
        p.id != 0,
        spec_mkdir(disk, sb, p, name).res is Ok,
    ensures
        ({
            let s = spec_mkdir(disk, sb, p, name);
            let id = s.res->Ok_0;
            &&& crate::bitmap::formatted(s.disk, s.sb)
            &&& crate::superblock::same_geometry(s.sb, sb)
            &&& id != 0
            &&& !inode_used(disk, sb, id)
            &&& forall|x: u32| #[trigger]
                inode_used(s.disk, s.sb, x) == (x == id || inode_used(disk, sb, x))
            &&& spec_get_inode(s.disk, s.sb, id) matches Ok(d) && d.id == id && d.links_cnt == 2
                && new_dir(s.disk, s.sb, d, p.id)
            &&& spec_get_inode(s.disk, s.sb, p.id) == Ok::<InodeModel, FsError>(s.inode)
            &&& dir_exact(s.disk, s.sb, s.inode)
            &&& names_unique(disk, sb, p) ==> names_unique(s.disk, s.sb, s.inode)
            &&& s.inode.links_cnt == p.links_cnt + 1
            &&& s.inode.size == p.size + 64
            &&& s.inode.size % 64 == 0
            &&& trimmed(name).len() > 0 ==> spec_dir_lookup(s.disk, s.sb, s.inode, name) == Ok::<
                u32,
                FsError,
            >(id)
        }),
{
    reveal(spec_mkdir);
    reveal(crate::directory::spec_mkdir_link);
    let s = spec_mkdir(disk, sb, p, name);
    let a = crate::inode::spec_alloc_inode(disk, sb, FileType::Directory, Mode::RW);
    let d0 = a.res->Ok_0;
    let id = d0.id;
    let e1 = EntryModel::named(id, name);
    let s1 = spec_dir_add_entry(a.disk, a.sb, p, e1);
    lemma_mkdir_entry(disk, sb, p, name);
    let d1 = InodeModel { links_cnt: (d0.links_cnt + 1) as u32, ..d0 };
    let e2 = EntryModel::named(id, dot());
    let s2 = spec_dir_add_entry(s1.disk, s1.sb, d1, e2);
    let links = (d1.links_cnt + 1) as u32;
    let d2 = InodeModel { links_cnt: links, ..s2.inode };
    let s3 = spec_dir_add_entry(s2.disk, s2.sb, d2, EntryModel::named(p.id, dotdot()));
    lemma_add_dots(s1.disk, s1.sb, d1, links, p.id, s1.inode, name);
    lemma_dots_frame(s1.disk, s1.sb, d1, links, p.id);
    let parent_out = InodeModel { links_cnt: (p.links_cnt + 1) as u32, ..s1.inode };
    lemma_mkdir_writes(s3.disk, s3.sb, s1.inode, parent_out, s3.inode, p.id, name);
    assert(dir_exact(disk, sb, p) ==> p.size % 64 == 0);
}

/// The two additions of `.` and `..` leave the inode bitmap alone.
proof fn lemma_dots_frame(
    disk: Seq<Seq<u8>>,
    sb: SuperBlock,
    d1: InodeModel,
    links: u32,
    parent: u32,
)
    requires
        crate::bitmap::formatted(disk, sb),
        d1.ftype == FileType::Directory,
        d1.blocks == 0,
        d1.size == 0,
        d1.payload == crate::structs::PayloadModel::Blocks(crate::structs::BlockPtrModel::empty()),
        spec_dir_add_entry(disk, sb, d1, EntryModel::named(d1.id, dot())).res is Ok,
        ({
            let s2 = spec_dir_add_entry(disk, sb, d1, EntryModel::named(d1.id, dot()));
            spec_dir_add_entry(
                s2.disk,
                s2.sb,
                InodeModel { links_cnt: links, ..s2.inode },
                EntryModel::named(parent, dotdot()),
            ).res is Ok
        }),
    ensures
        ({
            let s2 = spec_dir_add_entry(disk, sb, d1, EntryModel::named(d1.id, dot()));
            let d2 = InodeModel { links_cnt: links, ..s2.inode };
            let s3 = spec_dir_add_entry(s2.disk, s2.sb, d2, EntryModel::named(parent, dotdot()));
            forall|x: u32| #[trigger] inode_used(s3.disk, s3.sb, x) == inode_used(disk, sb, x)
        }),
{
    lemma_dots();
    let e2 = EntryModel::named(d1.id, dot());
    let e3 = EntryModel::named(parent, dotdot());
    lemma_named(d1.id, dot());
    lemma_named(parent, dotdot());
    lemma_fresh_dir(disk, sb, d1);
    let s2 = spec_dir_add_entry(disk, sb, d1, e2);
    lemma_add_keeps_sound(disk, sb, d1, e2);
    lemma_add_frame(disk, sb, d1, e2);
    let d2 = InodeModel { links_cnt: links, ..s2.inode };
    assert forall|x: u32| owns(s2.disk, s2.sb, s2.inode, x) implies #[trigger] s2.disk[x as int]
        == s2.disk[x as int] by {}
    assert forall|x: u32| owns(s2.disk, s2.sb, s2.inode, x) implies #[trigger] in_use(
        s2.disk,
        s2.sb,
        x,
    ) by {
        lemma_owns_in_use(s2.disk, s2.sb, s2.inode, x);
    }
    lemma_dir_frame(s2.disk, s2.sb, s2.inode, s2.disk, s2.sb, d2, e2.name);
    let s3 = spec_dir_add_entry(s2.disk, s2.sb, d2, e3);
    lemma_add_frame(s2.disk, s2.sb, d2, e3);
    crate::bitmap::lemma_layout(sb);
    crate::bitmap::lemma_layout(s2.sb);
    assert forall|x: u32| #[trigger] inode_used(s3.disk, s3.sb, x) == inode_used(disk, sb, x) by {
        lemma_inode_used_frame(disk, sb, s2.disk, s2.sb, x);
        lemma_inode_used_frame(s2.disk, s2.sb, s3.disk, s3.sb, x);
    }
}

/// The marks of the inodes depend on the inode bitmap alone.
pub proof fn lemma_inode_used_frame(
    d1: Seq<Seq<u8>>,
    sb1: SuperBlock,
    d2: Seq<Seq<u8>>,
    sb2: SuperBlock,
    id: u32,
)
    requires
        sb1.wf(),
        crate::superblock::same_geometry(sb2, sb1),
        forall|b: int| sb1.inode_bitmap_start <= b < sb1.inode_table_start ==> d2[b] == d1[b],
    ensures
        inode_used(d2, sb2, id) == inode_used(d1, sb1, id),
{
    crate::bitmap::lemma_layout(sb1);
    if id < sb1.num_inodes {
        assert(id as int / 4096 < sb1.inode_bitmap_blocks);
    }
}

/// On a disk whose bitmaps are zeroed no inode is in use.
pub proof fn lemma_zeroed_inodes(disk: Seq<Seq<u8>>, sb: SuperBlock, id: u32)
    requires
        sb.wf(),
        sb.num_blocks <= disk.len(),
    ensures
        !inode_used(crate::fs::zeroed(disk, sb), sb, id),
{
    if id < sb.num_inodes {
        let z = crate::fs::zeroed(disk, sb);
        let i = id as int;
        let b = sb.inode_bitmap_start + i / 4096;
        assert(1 <= b < sb.data_start) by {
            crate::bitmap::lemma_layout(sb);
        }
        assert(z[b] == crate::codec::zeros(512));
        crate::bitmap::lemma_zero_bit(z, sb.inode_bitmap_start as int, i);
    }
}

/// What `format` makes of the root once its inode is allocated: a sound
/// directory on disk that holds `.` and `..` for itself, with two links, and
/// a superblock on disk that `mount` accepts.
proof fn lemma_format_root(disk: Seq<Seq<u8>>, sb: SuperBlock, root: InodeModel)
    requires
        crate::bitmap::formatted(disk, sb),
        root == InodeModel::fresh(FileType::Directory, Mode::RW, 1),
        1 < sb.num_inodes,
        crate::fs::spec_format_root(disk, sb, root) is Ok,
    ensures
        ({
            let (d, sb2) = crate::fs::spec_format_root(disk, sb, root)->Ok_0;
            &&& crate::bitmap::formatted(d, sb2)
            &&& crate::superblock::same_geometry(sb2, sb)
            &&& sb2.free_inodes == sb.free_inodes
            &&& crate::fs::spec_mount(d) == Ok::<SuperBlock, FsError>(sb2)
            &&& forall|x: u32| #[trigger] inode_used(d, sb2, x) == inode_used(disk, sb, x)
            &&& spec_get_inode(d, sb2, 1) matches Ok(r) && r.id == 1 && r.links_cnt == 2
                && new_dir(d, sb2, r, 1)
        }),
{
    let e1 = EntryModel::named(1, dot());
    let s1 = spec_dir_add_entry(disk, sb, root, e1);
    lemma_fresh_dir(disk, sb, root);
    lemma_dots();
    lemma_named(1, dot());
    lemma_add_frame(disk, sb, root, e1);
    assert(s1.inode == (InodeModel { links_cnt: 0, ..s1.inode }));
    let s2 = spec_dir_add_entry(s1.disk, s1.sb, s1.inode, EntryModel::named(1, dotdot()));
    assert(s2.res is Ok);
    lemma_add_dots(disk, sb, root, 0, 1, root, dot());
    lemma_dots_frame(disk, sb, root, 0, 1);
    let r2 = InodeModel { links_cnt: 2, ..s2.inode };
    let w = spec_write_inode(s2.disk, s2.sb, r2);
    lemma_write_inode_formatted(s2.disk, s2.sb, r2);
    lemma_write_get(s2.disk, s2.sb, r2, 1);
    lemma_dir_after_write(s2.disk, s2.sb, r2, s2.inode, r2, dot());
    lemma_dir_after_write(s2.disk, s2.sb, r2, s2.inode, r2, dotdot());
    crate::bitmap::lemma_layout(s2.sb);
    let ws = crate::superblock::spec_write_superblock(w.disk, w.sb);
    let block = crate::layout::encode_sb(w.sb);
    crate::layout::lemma_sb_roundtrip(w.sb);
    assert(ws.disk == w.disk.update(0, block));
    crate::bitmap::lemma_formatted_update(w.disk, w.sb, 0, block);
    crate::inode_laws::lemma_get_frame(w.disk, w.sb, ws.disk, ws.sb, 1);
    assert forall|x: u32| owns(w.disk, w.sb, r2, x) implies #[trigger] ws.disk[x as int]
        == w.disk[x as int] by {
        lemma_owns_in_use(w.disk, w.sb, r2, x);
    }
    assert forall|x: u32| in_use(w.disk, w.sb, x) implies #[trigger] in_use(ws.disk, ws.sb, x) by {
        crate::dir_laws::lemma_in_use_frame(ws.disk, w.disk, w.sb, x);
    }
    lemma_dir_frame(w.disk, w.sb, r2, ws.disk, ws.sb, r2, dot());
    lemma_dir_frame(w.disk, w.sb, r2, ws.disk, ws.sb, r2, dotdot());
    assert forall|x: u32| #[trigger] inode_used(ws.disk, ws.sb, x) == inode_used(disk, sb, x) by {
        lemma_inode_used_frame(s2.disk, s2.sb, ws.disk, ws.sb, x);
    }
}

/// What `format` makes: a formatted disk that `mount` accepts with the
/// superblock that `format` returns; inode 0 and inode 1 are in use and no
/// other; inode 1 is the root, a sound directory with two links that holds
/// `.` and `..` for itself.
pub proof fn lemma_format(disk: Seq<Seq<u8>>, num_blocks: u32, num_inodes: u32)
    requires
        crate::block_dev::blocks_sized(disk),
        crate::fs::spec_format(disk, num_blocks, num_inodes) is Ok,
    ensures
        ({
            let (d, sb) = crate::fs::spec_format(disk, num_blocks, num_inodes)->Ok_0;
            &&& crate::bitmap::formatted(d, sb)
            &&& crate::superblock::same_geometry(sb, SuperBlock::layout(num_blocks, num_inodes))
            &&& sb.free_inodes == num_inodes - 2
            &&& crate::fs::spec_mount(d) == Ok::<SuperBlock, FsError>(sb)
            &&& forall|x: u32| #[trigger] inode_used(d, sb, x) == (x == 0 || x == 1)
            &&& spec_get_inode(d, sb, 1) matches Ok(r) && r.id == 1 && r.links_cnt == 2
                && new_dir(d, sb, r, 1)
        }),
{
    reveal(crate::fs::spec_format);
    let sb0 = SuperBlock::layout(num_blocks, num_inodes);
    let z = crate::fs::zeroed(disk, sb0);
    crate::fs::lemma_zeroed_formatted(disk, sb0);
    assert forall|x: u32| !inode_used(z, sb0, x) by {
        lemma_zeroed_inodes(disk, sb0, x);
    }
    let a0 = crate::inode::spec_alloc_inode(z, sb0, FileType::Special, Mode::NoAccess);
    lemma_alloc_inode(z, sb0, FileType::Special, Mode::NoAccess);
    let m0 = a0.res->Ok_0;
    assert(m0.id == 0) by {
        if m0.id > 0 {
            assert(inode_used(z, sb0, 0));
        }
    }
    let a1 = crate::inode::spec_alloc_inode(a0.disk, a0.sb, FileType::Directory, Mode::RW);
    lemma_alloc_inode(a0.disk, a0.sb, FileType::Directory, Mode::RW);
    let root = a1.res->Ok_0;
    assert(a1.res is Ok);
    assert(inode_used(a0.disk, a0.sb, 0));
    assert(!inode_used(a0.disk, a0.sb, 1)) by {
        assert(inode_used(a0.disk, a0.sb, 1) == (1 == m0.id || inode_used(z, sb0, 1)));
    }
    assert(root.id == 1) by {
        if root.id > 1 {
            assert(inode_used(a0.disk, a0.sb, 1));
        }
    }
    lemma_format_root(a1.disk, a1.sb, root);
    let (d, sb) = crate::fs::spec_format(disk, num_blocks, num_inodes)->Ok_0;
    assert((d, sb) == crate::fs::spec_format_root(a1.disk, a1.sb, root)->Ok_0);
    assert(crate::bitmap::formatted(d, sb));
    assert(crate::superblock::same_geometry(sb, sb0));
    assert(sb.free_inodes == num_inodes - 2);
    assert forall|x: u32| #[trigger] inode_used(d, sb, x) == (x == 0 || x == 1) by {
        assert(inode_used(d, sb, x) == inode_used(a1.disk, a1.sb, x));
        assert(inode_used(a1.disk, a1.sb, x) == (x == root.id || inode_used(a0.disk, a0.sb, x)));
        assert(inode_used(a0.disk, a0.sb, x) == (x == m0.id || inode_used(z, sb0, x)));
    }
}

} // verus!
