//! Path resolution and manipulation utilities.
//!
//! A path is a string of bytes. Its components are the runs of bytes between
//! slashes; empty runs do not count, so consecutive slashes are one.

use vstd::prelude::*;
use crate::block_dev::BlockDevice;
use crate::codec::copy_out;
use crate::config::{ROOT_INODE_ID, SYMLOOP_MAX};
use crate::directory::{bytes_equal, dir_lookup, trim_zero};
use crate::error::FsError;
use crate::inode::get_inode;
use crate::structs::{FileType, InodeModel, SuperBlock};
use crate::superblock::mounted;

verus! {

/// The byte of the path separator `/`.
pub const SLASH: u8 = 47;

/// The byte strings that a list of byte vectors holds.
pub open spec fn names_of(v: Seq<Vec<u8>>) -> Seq<Seq<u8>> {
    Seq::new(v.len(), |i: int| v[i]@)
}

/// The components of `path` from byte `i` on, where `cur` holds the bytes of
/// the component that byte `i` continues.
pub open spec fn components_from(path: Seq<u8>, i: int, cur: Seq<u8>) -> Seq<Seq<u8>>
    decreases path.len() - i,
{
    if i < 0 || i >= path.len() {
        if cur.len() > 0 {
            seq![cur]
        } else {
            Seq::empty()
        }
    } else if path[i] == SLASH {
        if cur.len() > 0 {
            seq![cur] + components_from(path, i + 1, Seq::empty())
        } else {
            components_from(path, i + 1, Seq::empty())
        }
    } else {
        components_from(path, i + 1, cur.push(path[i]))
    }
}

/// The components of `path`: the non-empty runs of bytes between slashes.
pub open spec fn components(path: Seq<u8>) -> Seq<Seq<u8>> {
    components_from(path, 0, Seq::empty())
}

/// The components from position `k` on, each behind a slash.
pub open spec fn join_from(comps: Seq<Seq<u8>>, k: int) -> Seq<u8>
    decreases comps.len() - k,
{
    if k < 0 || k >= comps.len() {
        Seq::empty()
    } else {
        seq![SLASH] + comps[k] + join_from(comps, k + 1)
    }
}

/// The absolute path with these components: `/` where there is none.
pub open spec fn path_of(comps: Seq<Seq<u8>>) -> Seq<u8> {
    if comps.len() == 0 {
        seq![SLASH]
    } else {
        join_from(comps, 0)
    }
}

/// Whether `path` starts with a slash.
pub open spec fn is_absolute(path: Seq<u8>) -> bool {
    path.len() > 0 && path[0] == SLASH
}

/// What `split` returns on the bytes of a path: the path of all components
/// but the last, and the last component. The root has no last component.
pub open spec fn spec_split(path: Seq<u8>) -> Result<(Seq<u8>, Seq<u8>), FsError> {
    if !is_absolute(path) {
        Err(FsError::InvalidPath)
    } else {
        let c = components(path);
        if c.len() == 0 {
            Ok((seq![SLASH], Seq::empty()))
        } else {
            Ok((path_of(c.drop_last()), c.last()))
        }
    }
}

/// The inode that a walk stands in: the last directory entered, or the root.
pub open spec fn current_dir(ids: Seq<u32>) -> u32 {
    if ids.len() == 0 {
        ROOT_INODE_ID
    } else {
        ids.last()
    }
}

/// The walk that makes a path canonical. `ids` are the directories entered
/// so far and `emitted` their names; `remaining` are the components still to
/// do; `depth` counts the symbolic links followed.
///
/// A `.` is skipped. A `..` leaves the directory last entered, and is
/// skipped at the root. Any other name is looked up in the current
/// directory. A symbolic link is replaced by the components of its target,
/// which start again from the root if the target is absolute; the last
/// component is kept as it is if `keep_last` is set. More than `SYMLOOP_MAX`
/// links are refused. A name that is not the last must be a directory.
pub open spec fn spec_canon(
    disk: Seq<Seq<u8>>,
    sb: SuperBlock,
    ids: Seq<u32>,
    emitted: Seq<Seq<u8>>,
    remaining: Seq<Seq<u8>>,
    depth: int,
    keep_last: bool,
) -> Result<Seq<Seq<u8>>, FsError>
    decreases SYMLOOP_MAX - depth, remaining.len(),
{
    if remaining.len() == 0 {
        Ok(emitted)
    } else {
        let c = remaining[0];
        let rest = remaining.drop_first();
        if c == crate::directory::dot() {
            spec_canon(disk, sb, ids, emitted, rest, depth, keep_last)
        } else if c == crate::directory::dotdot() {
            if current_dir(ids) == ROOT_INODE_ID {
                spec_canon(disk, sb, ids, emitted, rest, depth, keep_last)
            } else {
                spec_canon(disk, sb, ids.drop_last(), emitted.drop_last(), rest, depth, keep_last)
            }
        } else {
            match spec_step(disk, sb, current_dir(ids), c) {
                Err(e) => Err(e),
                Ok((next_id, next)) => if next.ftype == FileType::Symlink {
                    if rest.len() == 0 && keep_last {
                        Ok(emitted.push(c))
                    } else if depth >= SYMLOOP_MAX {
                        Err(FsError::PathTooLong)
                    } else {
                        match next.path() {
                            None => Err(FsError::NotSymlink),
                            Some(p) => {
                                let target = crate::directory::trimmed(p);
                                if is_absolute(target) {
                                    spec_canon(
                                        disk,
                                        sb,
                                        Seq::empty(),
                                        Seq::empty(),
                                        components(target) + rest,
                                        depth + 1,
                                        keep_last,
                                    )
                                } else {
                                    spec_canon(
                                        disk,
                                        sb,
                                        ids,
                                        emitted,
                                        components(target) + rest,
                                        depth + 1,
                                        keep_last,
                                    )
                                }
                            },
                        }
                    }
                } else if rest.len() == 0 {
                    Ok(emitted.push(c))
                } else if next.ftype != FileType::Directory {
                    Err(FsError::NotDirectory)
                } else {
                    spec_canon(disk, sb, ids.push(next_id), emitted.push(c), rest, depth, keep_last)
                },
            }
        }
    }
}

/// One step of a walk: the inode that `name` stands for in directory `dir`,
/// and its record.
pub open spec fn spec_step(disk: Seq<Seq<u8>>, sb: SuperBlock, dir: u32, name: Seq<u8>) -> Result<
    (u32, InodeModel),
    FsError,
> {
    match crate::inode::spec_get_inode(disk, sb, dir) {
        Err(e) => Err(e),
        Ok(d) => match crate::directory::spec_dir_lookup(disk, sb, d, name) {
            Err(e) => Err(e),
            Ok(id) => match crate::inode::spec_get_inode(disk, sb, id) {
                Err(e) => Err(e),
                Ok(m) => Ok((id, m)),
            },
        },
    }
}

/// What `canonicalize` computes: the components of the canonical path.
pub open spec fn spec_canonicalize(disk: Seq<Seq<u8>>, sb: SuperBlock, path: Seq<u8>, keep_last: bool)
    -> Result<Seq<Seq<u8>>, FsError> {
    if !is_absolute(path) {
        Err(FsError::InvalidPath)
    } else {
        spec_canon(disk, sb, Seq::empty(), Seq::empty(), components(path), 0, keep_last)
    }
}

/// The walk along canonical components from component `k` on: each
/// component is looked up in the inode reached before it, which must be a
/// directory. Gives the inode reached and the one before it.
pub open spec fn spec_walk(
    disk: Seq<Seq<u8>>,
    sb: SuperBlock,
    comps: Seq<Seq<u8>>,
    k: int,
    parent: u32,
    cur: u32,
) -> Result<(u32, u32), FsError>
    decreases comps.len() - k,
{
    if k < 0 || k >= comps.len() {
        Ok((parent, cur))
    } else {
        match crate::inode::spec_get_inode(disk, sb, cur) {
            Err(e) => Err(e),
            Ok(d) => match crate::directory::spec_dir_lookup(disk, sb, d, comps[k]) {
                Err(e) => Err(e),
                Ok(next) => spec_walk(disk, sb, comps, k + 1, cur, next),
            },
        }
    }
}

/// What `resolve` and `resolve_without_last` return: the path is made
/// canonical and then walked from the root. Gives the inode of the path and
/// the inode of the directory that holds it.
pub open spec fn spec_resolve(disk: Seq<Seq<u8>>, sb: SuperBlock, path: Seq<u8>, keep_last: bool)
    -> Result<(u32, u32), FsError> {
    match spec_canonicalize(disk, sb, path, keep_last) {
        Err(e) => Err(e),
        Ok(comps) => spec_walk(disk, sb, comps, 0, ROOT_INODE_ID, ROOT_INODE_ID),
    }
}

/// The components of `path`.
pub fn components_of(path: &[u8]) -> (r: Vec<Vec<u8>>)
    ensures
        names_of(r@) == components(path@),
{
    let mut out: Vec<Vec<u8>> = Vec::new();
    let mut cur: Vec<u8> = Vec::new();
    let mut i: usize = 0;
    assert(names_of(out@) + components_from(path@, 0, cur@) =~= components(path@));
    while i < path.len()
        invariant
            i <= path@.len(),
            components(path@) == names_of(out@) + components_from(path@, i as int, cur@),
        decreases path@.len() - i,
    {
        let ghost before = names_of(out@);
        let ghost cur_before = cur@;
        if path[i] == SLASH {
            if cur.len() > 0 {
                out.push(cur);
                cur = Vec::new();
                assert(names_of(out@) =~= before + seq![cur_before]);
                assert(before + (seq![cur_before] + components_from(
                    path@,
                    i + 1,
                    Seq::empty(),
                )) =~= (before + seq![cur_before]) + components_from(path@, i + 1, Seq::empty()));
            }
            assert(cur@ =~= Seq::<u8>::empty());
        } else {
            cur.push(path[i]);
        }
        i += 1;
    }
    if cur.len() > 0 {
        let ghost before = names_of(out@);
        let ghost cur_before = cur@;
        out.push(cur);
        assert(names_of(out@) =~= before + seq![cur_before]);
    } else {
        assert(names_of(out@) + Seq::<Seq<u8>>::empty() =~= names_of(out@));
    }
    out
}

/// The absolute path with the first `n` of these components.
pub fn join_path(comps: &Vec<Vec<u8>>, n: usize) -> (r: Vec<u8>)
    requires
        n <= comps@.len(),
    ensures
        r@ == path_of(names_of(comps@).take(n as int)),
{
    let ghost names = names_of(comps@).take(n as int);
    let mut out: Vec<u8> = Vec::new();
    if n == 0 {
        out.push(SLASH);
        assert(out@ =~= seq![SLASH]);
        return out;
    }
    let mut k: usize = 0;
    assert(out@ + join_from(names, 0) =~= join_from(names, 0));
    while k < n
        invariant
            k <= n <= comps@.len(),
            names == names_of(comps@).take(n as int),
            join_from(names, 0) == out@ + join_from(names, k as int),
        decreases n - k,
    {
        let ghost before = out@;
        out.push(SLASH);
        let c = &comps[k];
        out.extend_from_slice(c.as_slice());
        assert(names[k as int] == c@);
        assert(before + (seq![SLASH] + names[k as int] + join_from(names, k + 1)) =~= (before.push(
            SLASH,
        ) + c@) + join_from(names, k + 1));
        k += 1;
    }
    assert(out@ + join_from(names, n as int) =~= out@);
    out
}

/// Splits the bytes of a path into its directory and file name components.
/// Always absolute paths are expected.
/// If multiple slashes are present, they are treated as a single separator.
pub fn split_bytes(path: &[u8]) -> (r: Result<(Vec<u8>, Vec<u8>), FsError>)
    ensures
        match r {
            Ok((dir, name)) => spec_split(path@) == Ok::<(Seq<u8>, Seq<u8>), FsError>(
                (dir@, name@),
            ),
            Err(e) => spec_split(path@) == Err::<(Seq<u8>, Seq<u8>), FsError>(e),
        },
{
    if path.len() == 0 || path[0] != SLASH {
        return Err(FsError::InvalidPath);
    }
    let mut comps = components_of(path);
    let n = comps.len();
    if n == 0 {
        let mut dir: Vec<u8> = Vec::new();
        dir.push(SLASH);
        assert(dir@ =~= seq![SLASH]);
        let name: Vec<u8> = Vec::new();
        assert(name@ =~= Seq::<u8>::empty());
        return Ok((dir, name));
    }
    let dir = join_path(&comps, n - 1);
    assert(names_of(comps@).take(n - 1) =~= components(path@).drop_last());
    let name = copy_out(comps[n - 1].as_slice(), 0, comps[n - 1].len());
    assert(name@ =~= components(path@).last());
    Ok((dir, name))
}

/// A copy of a byte string.
fn copy_name(name: &Vec<u8>) -> (r: Vec<u8>)
    ensures
        r@ == name@,
{
    let r = copy_out(name.as_slice(), 0, name.len());
    assert(r@ =~= name@);
    r
}

/// The components `head` followed by the components of `tail` from `from` on.
fn concat_rest(head: Vec<Vec<u8>>, tail: &Vec<Vec<u8>>, from: usize) -> (r: Vec<Vec<u8>>)
    requires
        from <= tail@.len(),
    ensures
        names_of(r@) == names_of(head@) + names_of(tail@).skip(from as int),
{
    let mut out = head;
    let mut k: usize = from;
    assert(names_of(out@) + names_of(tail@).subrange(from as int, from as int) =~= names_of(
        out@,
    ));
    while k < tail.len()
        invariant
            from <= k <= tail@.len(),
            names_of(out@) == names_of(head@) + names_of(tail@).subrange(from as int, k as int),
        decreases tail@.len() - k,
    {
        let ghost before = names_of(out@);
        let c = copy_name(&tail[k]);
        out.push(c);
        assert(names_of(out@) =~= before.push(tail@[k as int]@));
        assert(names_of(out@) =~= names_of(head@) + names_of(tail@).subrange(
            from as int,
            k + 1,
        ));
        k += 1;
    }
    assert(names_of(tail@).subrange(from as int, tail@.len() as int) =~= names_of(tail@).skip(
        from as int,
    ));
    out
}

/// One step of a walk: looks `name` up in directory `dir` and reads the
/// inode that it stands for.
fn step<D: BlockDevice>(device: &mut D, superblock: &SuperBlock, dir: u32, name: &[u8]) -> (r:
    Result<(u32, crate::structs::Inode), FsError>)
    requires
        mounted(old(device)@, *superblock),
    ensures
        final(device)@ == old(device)@,
        final(device).reliable() == old(device).reliable(),
        old(device).reliable() || r is Ok ==> (match r {
            Ok((id, inode)) => spec_step(old(device)@, *superblock, dir, name@) == Ok::<
                (u32, InodeModel),
                FsError,
            >((id, inode@)),
            Err(e) => spec_step(old(device)@, *superblock, dir, name@) == Err::<
                (u32, InodeModel),
                FsError,
            >(e),
        }),
        r matches Ok((id, inode)) ==> inode@.wf(),
{
    let dir_inode = match get_inode(device, superblock, dir) {
        Ok(inode) => inode,
        Err(e) => {
            return Err(e);
        },
    };
    let id = match dir_lookup(device, superblock, &dir_inode, name) {
        Ok(id) => id,
        Err(e) => {
            return Err(e);
        },
    };
    match get_inode(device, superblock, id) {
        Ok(inode) => Ok((id, inode)),
        Err(e) => Err(e),
    }
}

/// The result of a walk as a list of byte strings.
pub open spec fn names_result(r: Result<Vec<Vec<u8>>, FsError>) -> Result<Seq<Seq<u8>>, FsError> {
    match r {
        Ok(v) => Ok(names_of(v@)),
        Err(e) => Err(e),
    }
}

/// Makes the bytes of a path canonical: returns the components of the path
/// that names the same file without `.`, `..` and symbolic links. With
/// `keep_last_symlink` a symbolic link in the last component stays.
pub fn canonicalize_bytes<D: BlockDevice>(
    device: &mut D,
    superblock: &SuperBlock,
    path: &[u8],
    keep_last_symlink: bool,
) -> (r: Result<Vec<Vec<u8>>, FsError>)
    requires
        mounted(old(device)@, *superblock),
    ensures
        final(device)@ == old(device)@,
        final(device).reliable() == old(device).reliable(),
        old(device).reliable() || r is Ok ==> names_result(r) == spec_canonicalize(
            old(device)@,
            *superblock,
            path@,
            keep_last_symlink,
        ),
{
    if path.len() == 0 || path[0] != SLASH {
        return Err(FsError::InvalidPath);
    }
    let ghost disk = device@;
    let ghost goal = spec_canonicalize(disk, *superblock, path@, keep_last_symlink);
    let mut remaining = components_of(path);
    let mut pos: usize = 0;
    let mut ids: Vec<u32> = Vec::new();
    let mut emitted: Vec<Vec<u8>> = Vec::new();
    let mut depth: usize = 0;
    let d1 = [46u8];
    let d2 = [46u8, 46u8];
    assert(d1@ =~= crate::directory::dot());
    assert(d2@ =~= crate::directory::dotdot());
    assert(names_of(remaining@).skip(0) =~= components(path@));
    assert(names_of(emitted@) =~= Seq::<Seq<u8>>::empty());
    loop
        invariant
            pos <= remaining@.len(),
            depth <= SYMLOOP_MAX,
            ids@.len() == emitted@.len(),
            d1@ == crate::directory::dot(),
            d2@ == crate::directory::dotdot(),
            mounted(disk, *superblock),
            device@ == disk,
            disk == old(device)@,
            device.reliable() == old(device).reliable(),
            goal == spec_canon(
                disk,
                *superblock,
                ids@,
                names_of(emitted@),
                names_of(remaining@).skip(pos as int),
                depth as int,
                keep_last_symlink,
            ),
            goal == spec_canonicalize(old(device)@, *superblock, path@, keep_last_symlink),
        decreases SYMLOOP_MAX - depth, remaining@.len() - pos,
    {
        if pos >= remaining.len() {
            return Ok(emitted);
        }
        let ghost rem = names_of(remaining@).skip(pos as int);
        let ghost rest = rem.drop_first();
        assert(rest =~= names_of(remaining@).skip(pos + 1));
        assert(rem[0] == remaining@[pos as int]@);
        let is_last = pos + 1 == remaining.len();
        let c = copy_name(&remaining[pos]);
        if bytes_equal(c.as_slice(), &d1) {
            pos += 1;
            continue ;
        }
        let cur = if ids.len() == 0 {
            ROOT_INODE_ID
        } else {
            ids[ids.len() - 1]
        };
        if bytes_equal(c.as_slice(), &d2) {
            if cur != ROOT_INODE_ID {
                let ghost ids_before = ids@;
                let ghost emitted_before = names_of(emitted@);
                ids.pop();
                emitted.pop();
                assert(ids@ =~= ids_before.drop_last());
                assert(names_of(emitted@) =~= emitted_before.drop_last());
            }
            pos += 1;
            continue ;
        }
        let (next_id, next) = match step(device, superblock, cur, c.as_slice()) {
            Ok(found) => found,
            Err(e) => {
                return Err(e);
            },
        };
        if next.ftype == FileType::Symlink {
            if is_last && keep_last_symlink {
                let ghost emitted_before = names_of(emitted@);
                emitted.push(c);
                assert(names_of(emitted@) =~= emitted_before.push(rem[0]));
                return Ok(emitted);
            }
            if depth >= SYMLOOP_MAX {
                return Err(FsError::PathTooLong);
            }
            let target_buf = match next.get_path() {
                Ok(p) => p,
                Err(e) => {
                    return Err(e);
                },
            };
            let target = trim_zero(target_buf);
            if target.len() > 0 && target[0] == SLASH {
                // Absolute symlink
                ids = Vec::new();
                emitted = Vec::new();
                assert(names_of(emitted@) =~= Seq::<Seq<u8>>::empty());
                assert(ids@ =~= Seq::<u32>::empty());
            }
            let new_components = components_of(target);
            remaining = concat_rest(new_components, &remaining, pos + 1);
            pos = 0;
            depth += 1;
            assert(names_of(remaining@).skip(0) =~= names_of(remaining@));
            continue ;
        }
        if is_last {
            let ghost emitted_before = names_of(emitted@);
            emitted.push(c);
            assert(names_of(emitted@) =~= emitted_before.push(rem[0]));
            return Ok(emitted);
        }
        if next.ftype != FileType::Directory {
            return Err(FsError::NotDirectory);
        }
        let ghost ids_before = ids@;
        let ghost emitted_before = names_of(emitted@);
        ids.push(next_id);
        emitted.push(c);
        assert(names_of(emitted@) =~= emitted_before.push(rem[0]));
        pos += 1;
    }
}

/// Walks canonical components from the root. Returns the inode of the
/// directory that holds the last component, and the inode of the last
/// component.
fn walk<D: BlockDevice>(device: &mut D, superblock: &SuperBlock, comps: &Vec<Vec<u8>>) -> (r:
    Result<(u32, u32), FsError>)
    requires
        mounted(old(device)@, *superblock),
    ensures
        final(device)@ == old(device)@,
        final(device).reliable() == old(device).reliable(),
        old(device).reliable() || r is Ok ==> r == spec_walk(
            old(device)@,
            *superblock,
            names_of(comps@),
            0,
            ROOT_INODE_ID,
            ROOT_INODE_ID,
        ),
{
    let ghost disk = device@;
    let ghost names = names_of(comps@);
    let mut parent_inode_id = ROOT_INODE_ID;
    let mut current_inode_id = ROOT_INODE_ID;
    let mut k: usize = 0;
    while k < comps.len()
        invariant
            k <= comps@.len(),
            names == names_of(comps@),
            mounted(disk, *superblock),
            device@ == disk,
            disk == old(device)@,
            device.reliable() == old(device).reliable(),
            spec_walk(disk, *superblock, names, 0, ROOT_INODE_ID, ROOT_INODE_ID) == spec_walk(
                disk,
                *superblock,
                names,
                k as int,
                parent_inode_id,
                current_inode_id,
            ),
        decreases comps@.len() - k,
    {
        let current_inode = match get_inode(device, superblock, current_inode_id) {
            Ok(inode) => inode,
            Err(e) => {
                return Err(e);
            },
        };
        let next = match dir_lookup(device, superblock, &current_inode, comps[k].as_slice()) {
            Ok(id) => id,
            Err(e) => {
                return Err(e);
            },
        };
        parent_inode_id = current_inode_id;
        current_inode_id = next;
        k += 1;
    }
    Ok((parent_inode_id, current_inode_id))
}

/// Resolves the bytes of a path to inode ids.
/// Returns a tuple of (parent inode id, file inode id). With
/// `keep_last_symlink` a symbolic link in the last component is not
/// followed.
pub fn resolve_bytes<D: BlockDevice>(
    device: &mut D,
    superblock: &SuperBlock,
    path: &[u8],
    keep_last_symlink: bool,
) -> (r: Result<(u32, u32), FsError>)
    requires
        mounted(old(device)@, *superblock),
    ensures
        final(device)@ == old(device)@,
        final(device).reliable() == old(device).reliable(),
        old(device).reliable() || r is Ok ==> r == spec_resolve(
            old(device)@,
            *superblock,
            path@,
            keep_last_symlink,
        ),
{
    let comps = match canonicalize_bytes(device, superblock, path, keep_last_symlink) {
        Ok(c) => c,
        Err(e) => {
            return Err(e);
        },
    };
    walk(device, superblock, &comps)
}

/// The characters of the string that `String::from_utf8_lossy` makes of
/// these bytes.
pub uninterp spec fn utf8_lossy(bytes: Seq<u8>) -> Seq<char>;

/// Calls `String::from_utf8_lossy` and takes the string it gives. The
/// characters of that string depend on the bytes alone; bytes that are valid
/// UTF-8 are decoded as they are.
#[verifier::external_body]
fn string_from_bytes(bytes: &[u8]) -> (s: String)
    ensures
        s@ == utf8_lossy(bytes@),
        vstd::utf8::valid_utf8(bytes@) ==> s@ == vstd::utf8::decode_utf8(bytes@),
{
    String::from_utf8_lossy(bytes).into_owned()
}

/// Splits a path into its directory and file name components.
/// Always absolute paths are expected.
/// If multiple slashes are present, they are treated as a single separator.
/// eg. "/home/user/file.txt" -> ("/home/user", "file.txt")
///     "/file.txt" -> ("/", "file.txt")
pub fn split(path: &str) -> (r: Result<(String, String), FsError>)
    ensures
        match (r, spec_split(vstd::utf8::encode_utf8(path@))) {
            (Ok((dir, name)), Ok((d, n))) => {
                &&& vstd::utf8::valid_utf8(d)
                &&& vstd::utf8::valid_utf8(n)
                &&& dir@ == vstd::utf8::decode_utf8(d)
                &&& name@ == vstd::utf8::decode_utf8(n)
            },
            (Err(e), Err(e2)) => e == e2,
            _ => false,
        },
{
    proof {
        vstd::utf8::encode_utf8_valid_utf8(path@);
        if spec_split(vstd::utf8::encode_utf8(path@)) is Ok {
            crate::path_laws::lemma_split_valid(vstd::utf8::encode_utf8(path@));
        }
    }
    match split_bytes(path.as_bytes()) {
        Ok((dir, name)) => Ok(
            (string_from_bytes(dir.as_slice()), string_from_bytes(name.as_slice())),
        ),
        Err(e) => Err(e),
    }
}

/// Makes a path canonical: returns the path that names the same file
/// without `.`, `..` and symbolic links. With `not_cano_last_symlink` a
/// symbolic link in the last component stays.
pub fn canonicalize<D: BlockDevice>(
    device: &mut D,
    superblock: &SuperBlock,
    path: &str,
    not_cano_last_symlink: bool,
) -> (r: Result<String, FsError>)
    requires
        mounted(old(device)@, *superblock),
    ensures
        final(device)@ == old(device)@,
        final(device).reliable() == old(device).reliable(),
        old(device).reliable() || r is Ok ==> (match (
            r,
            spec_canonicalize(
                old(device)@,
                *superblock,
                vstd::utf8::encode_utf8(path@),
                not_cano_last_symlink,
            ),
        ) {
            (Ok(s), Ok(comps)) => s@ == utf8_lossy(path_of(comps)) && (vstd::utf8::valid_utf8(
                path_of(comps),
            ) ==> s@ == vstd::utf8::decode_utf8(path_of(comps))),
            (Err(e), Err(e2)) => e == e2,
            _ => false,
        }),
{
    match canonicalize_bytes(device, superblock, path.as_bytes(), not_cano_last_symlink) {
        Ok(comps) => {
            let n = comps.len();
            let bytes = join_path(&comps, n);
            assert(names_of(comps@).take(n as int) =~= names_of(comps@));
            Ok(string_from_bytes(bytes.as_slice()))
        },
        Err(e) => Err(e),
    }
}

/// Resolves a path to inode ids.
/// Returns a tuple of (parent inode id, file inode id).
pub fn resolve<D: BlockDevice>(device: &mut D, superblock: &SuperBlock, path: &str) -> (r: Result<
    (u32, u32),
    FsError,
>)
    requires
        mounted(old(device)@, *superblock),
    ensures
        final(device)@ == old(device)@,
        final(device).reliable() == old(device).reliable(),
        old(device).reliable() || r is Ok ==> r == spec_resolve(
            old(device)@,
            *superblock,
            vstd::utf8::encode_utf8(path@),
            false,
        ),
{
    resolve_bytes(device, superblock, path.as_bytes(), false)
}

/// Resolves a path to inode ids without following a symbolic link in its
/// last component, so that the link itself is found.
/// Returns a tuple of (parent inode id, file inode id).
pub fn resolve_without_last<D: BlockDevice>(device: &mut D, superblock: &SuperBlock, path: &str)
    -> (r: Result<(u32, u32), FsError>)
    requires
        mounted(old(device)@, *superblock),
    ensures
        final(device)@ == old(device)@,
        final(device).reliable() == old(device).reliable(),
        old(device).reliable() || r is Ok ==> r == spec_resolve(
            old(device)@,
            *superblock,
            vstd::utf8::encode_utf8(path@),
            true,
        ),
{
    resolve_bytes(device, superblock, path.as_bytes(), true)
}

} // verus!
