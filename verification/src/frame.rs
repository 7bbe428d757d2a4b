//! What a read depends on: the inode table and the data region.
//!
//! Two disks that hold the same inode table and the same data region give
//! the same answer to every read of the file system, whatever block 0 and
//! the bitmaps hold.

use vstd::prelude::*;
use crate::structs::{InodeModel, SuperBlock};

verus! {

/// Whether two disks hold the same inode table and the same data region.
pub open spec fn same_files(d1: Seq<Seq<u8>>, d2: Seq<Seq<u8>>, sb: SuperBlock) -> bool {
    &&& d1.len() == d2.len()
    &&& sb.wf()
    &&& sb.num_blocks <= d1.len()
    &&& forall|b: int| sb.inode_table_start <= b < sb.num_blocks ==> d1[b] == d2[b]
}

/// The record of an inode is the same on two disks with the same files.
pub proof fn lemma_same_get_inode(d1: Seq<Seq<u8>>, d2: Seq<Seq<u8>>, sb: SuperBlock, id: u32)
    requires
        same_files(d1, d2, sb),
    ensures
        crate::inode::spec_get_inode(d1, sb, id) == crate::inode::spec_get_inode(d2, sb, id),
{
    reveal(crate::inode::spec_get_inode);
    if id < sb.num_inodes {
        crate::inode::lemma_inode_slot(sb, id);
        crate::bitmap::lemma_layout(sb);
    }
}

/// A file maps the same blocks on two disks with the same files.
pub proof fn lemma_same_bmap_lookup(
    d1: Seq<Seq<u8>>,
    d2: Seq<Seq<u8>>,
    sb: SuperBlock,
    m: InodeModel,
    off: u64,
)
    requires
        same_files(d1, d2, sb),
    ensures
        crate::inode::spec_bmap_lookup(d1, sb, m, off) == crate::inode::spec_bmap_lookup(
            d2,
            sb,
            m,
            off,
        ),
{
    reveal(crate::inode::spec_bmap_lookup);
    crate::bitmap::lemma_layout(sb);
}

/// A block that the block map returns lies in the data region.
pub proof fn lemma_bmap_lookup_data(disk: Seq<Seq<u8>>, sb: SuperBlock, m: InodeModel, off: u64)
    requires
        sb.wf(),
    ensures
        crate::inode::spec_bmap_lookup(disk, sb, m, off) matches Ok(Some(b)) ==> sb.is_data_block(
            b,
        ) && sb.inode_table_start <= b,
{
    reveal(crate::inode::spec_bmap_lookup);
    crate::bitmap::lemma_layout(sb);
}

/// A scan of a directory finds the same on two disks with the same files.
pub proof fn lemma_same_dir_scan(
    d1: Seq<Seq<u8>>,
    d2: Seq<Seq<u8>>,
    sb: SuperBlock,
    m: InodeModel,
    name: Seq<u8>,
    want_empty: bool,
    i: int,
)
    requires
        same_files(d1, d2, sb),
    ensures
        crate::directory::spec_dir_scan(d1, sb, m, name, want_empty, i)
            == crate::directory::spec_dir_scan(d2, sb, m, name, want_empty, i),
    decreases m.blocks - i,
{
    if 0 <= i < m.blocks {
        lemma_same_bmap_lookup(d1, d2, sb, m, (i * 512) as u64);
        lemma_bmap_lookup_data(d1, sb, m, (i * 512) as u64);
        lemma_same_dir_scan(d1, d2, sb, m, name, want_empty, i + 1);
    }
}

/// A lookup in a directory gives the same on two disks with the same files.
pub proof fn lemma_same_dir_lookup(
    d1: Seq<Seq<u8>>,
    d2: Seq<Seq<u8>>,
    sb: SuperBlock,
    m: InodeModel,
    name: Seq<u8>,
)
    requires
        same_files(d1, d2, sb),
    ensures
        crate::directory::spec_dir_lookup(d1, sb, m, name) == crate::directory::spec_dir_lookup(
            d2,
            sb,
            m,
            name,
        ),
{
    reveal(crate::directory::spec_dir_lookup);
    lemma_same_dir_scan(d1, d2, sb, m, name, false, 0);
    lemma_scan_data(d1, sb, m, name, false, 0);
}

/// A block that a scan of a directory returns lies in the data region.
pub proof fn lemma_scan_data(
    disk: Seq<Seq<u8>>,
    sb: SuperBlock,
    m: InodeModel,
    name: Seq<u8>,
    want_empty: bool,
    i: int,
)
    requires
        sb.wf(),
    ensures
        crate::directory::spec_dir_scan(disk, sb, m, name, want_empty, i) matches Ok(
            Some((b, j)),
        ) ==> sb.is_data_block(b) && sb.inode_table_start <= b && 0 <= j < 8,
    decreases m.blocks - i,
{
    if 0 <= i < m.blocks {
        lemma_bmap_lookup_data(disk, sb, m, (i * 512) as u64);
        lemma_scan_data(disk, sb, m, name, want_empty, i + 1);
        match crate::inode::spec_bmap_lookup(disk, sb, m, (i * 512) as u64) {
            Ok(Some(b)) => {
                lemma_scan_slots_range(disk[b as int], name, want_empty, 0);
            },
            _ => {},
        }
    }
}

/// A slot that a scan of a block returns lies in the block.
pub proof fn lemma_scan_slots_range(block: Seq<u8>, name: Seq<u8>, want_empty: bool, j: int)
    ensures
        crate::directory::scan_slots_from(block, name, want_empty, j) matches Some(k) ==> j <= k
            < 8 && crate::directory::slot_fits(
            crate::directory::entry_at(block, k),
            name,
            want_empty,
        ),
    decreases 8 - j,
{
    if 0 <= j < 8 {
        lemma_scan_slots_range(block, name, want_empty, j + 1);
    }
}

/// A step of a walk gives the same on two disks with the same files.
pub proof fn lemma_same_step(d1: Seq<Seq<u8>>, d2: Seq<Seq<u8>>, sb: SuperBlock, dir: u32, name: Seq<u8>)
    requires
        same_files(d1, d2, sb),
    ensures
        crate::path::spec_step(d1, sb, dir, name) == crate::path::spec_step(d2, sb, dir, name),
{
    lemma_same_get_inode(d1, d2, sb, dir);
    match crate::inode::spec_get_inode(d1, sb, dir) {
        Ok(d) => {
            lemma_same_dir_lookup(d1, d2, sb, d, name);
            match crate::directory::spec_dir_lookup(d1, sb, d, name) {
                Ok(id) => {
                    lemma_same_get_inode(d1, d2, sb, id);
                },
                _ => {},
            }
        },
        _ => {},
    }
}

/// A path is made canonical in the same way on two disks with the same
/// files.
pub proof fn lemma_same_canon(
    d1: Seq<Seq<u8>>,
    d2: Seq<Seq<u8>>,
    sb: SuperBlock,
    ids: Seq<u32>,
    emitted: Seq<Seq<u8>>,
    remaining: Seq<Seq<u8>>,
    depth: int,
    keep_last: bool,
)
    requires
        same_files(d1, d2, sb),
    ensures
        crate::path::spec_canon(d1, sb, ids, emitted, remaining, depth, keep_last)
            == crate::path::spec_canon(d2, sb, ids, emitted, remaining, depth, keep_last),
    decreases crate::config::SYMLOOP_MAX - depth, remaining.len(),
{
    if remaining.len() > 0 {
        let c = remaining[0];
        let rest = remaining.drop_first();
        if c == crate::directory::dot() {
            lemma_same_canon(d1, d2, sb, ids, emitted, rest, depth, keep_last);
        } else if c == crate::directory::dotdot() {
            if crate::path::current_dir(ids) == crate::config::ROOT_INODE_ID {
                lemma_same_canon(d1, d2, sb, ids, emitted, rest, depth, keep_last);
            } else {
                lemma_same_canon(
                    d1,
                    d2,
                    sb,
                    ids.drop_last(),
                    emitted.drop_last(),
                    rest,
                    depth,
                    keep_last,
                );
            }
        } else {
            lemma_same_step(d1, d2, sb, crate::path::current_dir(ids), c);
            match crate::path::spec_step(d1, sb, crate::path::current_dir(ids), c) {
                Ok((next_id, next)) => {
                    if next.ftype == crate::structs::FileType::Symlink {
                        if !(rest.len() == 0 && keep_last) && depth < crate::config::SYMLOOP_MAX {
                            match next.path() {
                                Some(p) => {
                                    let target = crate::directory::trimmed(p);
                                    let comps = crate::path::components(target) + rest;
                                    if crate::path::is_absolute(target) {
                                        lemma_same_canon(
                                            d1,
                                            d2,
                                            sb,
                                            Seq::empty(),
                                            Seq::empty(),
                                            comps,
                                            depth + 1,
                                            keep_last,
                                        );
                                    } else {
                                        lemma_same_canon(
                                            d1,
                                            d2,
                                            sb,
                                            ids,
                                            emitted,
                                            comps,
                                            depth + 1,
                                            keep_last,
                                        );
                                    }
                                },
                                None => {},
                            }
                        }
                    } else if rest.len() > 0 && next.ftype == crate::structs::FileType::Directory {
                        lemma_same_canon(
                            d1,
                            d2,
                            sb,
                            ids.push(next_id),
                            emitted.push(c),
                            rest,
                            depth,
                            keep_last,
                        );
                    }
                },
                _ => {},
            }
        }
    }
}

/// A walk reaches the same inodes on two disks with the same files.
pub proof fn lemma_same_walk(
    d1: Seq<Seq<u8>>,
    d2: Seq<Seq<u8>>,
    sb: SuperBlock,
    comps: Seq<Seq<u8>>,
    k: int,
    parent: u32,
    cur: u32,
)
    requires
        same_files(d1, d2, sb),
    ensures
        crate::path::spec_walk(d1, sb, comps, k, parent, cur) == crate::path::spec_walk(
            d2,
            sb,
            comps,
            k,
            parent,
            cur,
        ),
    decreases comps.len() - k,
{
    if 0 <= k < comps.len() {
        lemma_same_get_inode(d1, d2, sb, cur);
        match crate::inode::spec_get_inode(d1, sb, cur) {
            Ok(d) => {
                lemma_same_dir_lookup(d1, d2, sb, d, comps[k]);
                match crate::directory::spec_dir_lookup(d1, sb, d, comps[k]) {
                    Ok(next) => {
                        lemma_same_walk(d1, d2, sb, comps, k + 1, cur, next);
                    },
                    _ => {},
                }
            },
            _ => {},
        }
    }
}

/// Resolving a path gives the same inodes on both disks.
pub proof fn lemma_same_resolve(
    d1: Seq<Seq<u8>>,
    d2: Seq<Seq<u8>>,
    sb: SuperBlock,
    path: Seq<u8>,
    keep_last: bool,
)
    requires
        same_files(d1, d2, sb),
    ensures
        crate::path::spec_resolve(d1, sb, path, keep_last) == crate::path::spec_resolve(
            d2,
            sb,
            path,
            keep_last,
        ),
        crate::fs::spec_find(d1, sb, path, keep_last) == crate::fs::spec_find(
            d2,
            sb,
            path,
            keep_last,
        ),
{
    lemma_same_canon(
        d1,
        d2,
        sb,
        Seq::empty(),
        Seq::empty(),
        crate::path::components(path),
        0,
        keep_last,
    );
    match crate::path::spec_canonicalize(d1, sb, path, keep_last) {
        Ok(comps) => {
            lemma_same_walk(
                d1,
                d2,
                sb,
                comps,
                0,
                crate::config::ROOT_INODE_ID,
                crate::config::ROOT_INODE_ID,
            );
        },
        _ => {},
    }
    match crate::path::spec_resolve(d1, sb, path, keep_last) {
        Ok((_, id)) => {
            lemma_same_get_inode(d1, d2, sb, id);
        },
        _ => {},
    }
}

/// A directory has the same entries on two disks with the same files.
pub proof fn lemma_same_dir_entries(
    d1: Seq<Seq<u8>>,
    d2: Seq<Seq<u8>>,
    sb: SuperBlock,
    m: InodeModel,
    i: int,
)
    requires
        same_files(d1, d2, sb),
    ensures
        crate::directory::spec_dir_entries(d1, sb, m, i) == crate::directory::spec_dir_entries(
            d2,
            sb,
            m,
            i,
        ),
    decreases m.blocks - i,
{
    if 0 <= i < m.blocks {
        lemma_same_bmap_lookup(d1, d2, sb, m, (i * 512) as u64);
        lemma_bmap_lookup_data(d1, sb, m, (i * 512) as u64);
        lemma_same_dir_entries(d1, d2, sb, m, i + 1);
    }
}

/// A read gives the same bytes on two disks with the same files.
pub proof fn lemma_same_fread_from(
    d1: Seq<Seq<u8>>,
    d2: Seq<Seq<u8>>,
    sb: SuperBlock,
    m: InodeModel,
    offset: int,
    n: int,
    done: int,
    acc: Seq<u8>,
)
    requires
        same_files(d1, d2, sb),
        0 <= offset,
    ensures
        crate::file::spec_fread_from(d1, sb, m, offset, n, done, acc)
            == crate::file::spec_fread_from(d2, sb, m, offset, n, done, acc),
    decreases n - done,
{
    if 0 <= done < n {
        let cur = offset + done;
        let off = (cur / 512 * 512) as u64;
        lemma_same_bmap_lookup(d1, d2, sb, m, off);
        lemma_bmap_lookup_data(d1, sb, m, off);
        match crate::inode::spec_bmap_lookup(d1, sb, m, off) {
            Ok(Some(b)) => {
                let len = crate::file::chunk_len(cur, n, done);
                lemma_same_fread_from(
                    d1,
                    d2,
                    sb,
                    m,
                    offset,
                    n,
                    done + len,
                    acc + d1[b as int].subrange(cur % 512, cur % 512 + len),
                );
            },
            _ => {},
        }
    }
}

/// Every read of the file system gives the same answer on both disks: what
/// a path names, the entries of a directory, the bytes of a file and the
/// target of a symbolic link.
pub proof fn lemma_same_reads(
    d1: Seq<Seq<u8>>,
    d2: Seq<Seq<u8>>,
    sb: SuperBlock,
    path: Seq<u8>,
    offset: int,
    len: int,
)
    requires
        same_files(d1, d2, sb),
        0 <= offset,
    ensures
        crate::fs::spec_lookup(d1, sb, path) == crate::fs::spec_lookup(d2, sb, path),
        crate::fs::spec_fs_read_dir(d1, sb, path) == crate::fs::spec_fs_read_dir(d2, sb, path),
        crate::fs::spec_fs_fread(d1, sb, path, offset, len) == crate::fs::spec_fs_fread(
            d2,
            sb,
            path,
            offset,
            len,
        ),
        crate::fs::spec_read_link(d1, sb, path) == crate::fs::spec_read_link(d2, sb, path),
{
    reveal(crate::fs::spec_fs_read_dir);
    reveal(crate::fs::spec_fs_fread);
    reveal(crate::fs::spec_read_link);
    reveal(crate::directory::spec_read_dir);
    reveal(crate::file::spec_fread);
    lemma_same_resolve(d1, d2, sb, path, false);
    lemma_same_resolve(d1, d2, sb, path, true);
    match crate::fs::spec_find(d1, sb, path, false) {
        Ok((_, m)) => {
            lemma_same_dir_entries(d1, d2, sb, m, 0);
            let n = if len < m.size - offset {
                len
            } else {
                m.size - offset
            };
            lemma_same_fread_from(d1, d2, sb, m, offset, n, 0, Seq::empty());
        },
        _ => {},
    }
}

} // verus!
