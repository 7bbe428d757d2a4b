//! Directories: named entries packed into the data blocks of an inode.
//!
//! A directory with `blocks` blocks has eight slots in each of them. A slot
//! with inode id 0 holds no entry. The size of a directory is 64 bytes for
//! each entry that it holds; slots are not compacted when an entry leaves.

use vstd::prelude::*;
use crate::bitmap::formatted;
use crate::block_dev::BlockDevice;
use crate::codec::copy_into;
use crate::config::{BLOCK_SIZE, DIR_ENTRY_SIZE, MAX_FILE_NAME_LEN, NUM_ENTRY_PER_BLOCK};
use crate::error::FsError;
use crate::inode::{alloc_inode, bmap, bmap_lookup, same_identity, write_inode, InodeStep};
use crate::layout::{entry_from_bytes, entry_to_bytes};
use crate::structs::{DirEntry, EntryModel, FileType, Inode, InodeModel, Mode, SuperBlock};
use crate::superblock::mounted;

verus! {

/// `name` without its trailing zero bytes.
pub open spec fn trimmed(name: Seq<u8>) -> Seq<u8>
    decreases name.len(),
{
    if name.len() > 0 && name.last() == 0 {
        trimmed(name.drop_last())
    } else {
        name
    }
}

/// Whether two names are the same name: they are equal once their trailing
/// zero bytes are dropped, and not empty.
pub open spec fn names_match(n1: Seq<u8>, n2: Seq<u8>) -> bool {
    trimmed(n1).len() > 0 && trimmed(n1) == trimmed(n2)
}

/// The name of the entry of a directory for itself.
pub open spec fn dot() -> Seq<u8> {
    seq![46u8]
}

/// The name of the entry of a directory for its parent.
pub open spec fn dotdot() -> Seq<u8> {
    seq![46u8, 46u8]
}

/// Whether a slot holds no entry: no inode and no name.
pub open spec fn slot_is_empty(e: EntryModel) -> bool {
    e.inode_id == 0 && trimmed(e.name).len() == 0
}

/// The entry in slot `j` of a directory block.
pub open spec fn entry_at(block: Seq<u8>, j: int) -> EntryModel {
    crate::layout::decode_entry(block.subrange(64 * j, 64 * j + 64))
}

/// Whether a slot is what a scan looks for: an empty slot, or the entry
/// named `name`.
pub open spec fn slot_fits(e: EntryModel, name: Seq<u8>, want_empty: bool) -> bool {
    if want_empty {
        slot_is_empty(e)
    } else {
        e.inode_id != 0 && names_match(e.name, name)
    }
}

/// The first slot from `j` on in a block that fits.
pub open spec fn scan_slots_from(block: Seq<u8>, name: Seq<u8>, want_empty: bool, j: int) -> Option<
    int,
>
    decreases 8 - j,
{
    if j >= 8 || j < 0 {
        None
    } else if slot_fits(entry_at(block, j), name, want_empty) {
        Some(j)
    } else {
        scan_slots_from(block, name, want_empty, j + 1)
    }
}

/// The first slot that fits in the blocks of a directory from block `i` on:
/// the block that holds it and its index there. A hole among the blocks of a
/// directory is an error.
pub open spec fn spec_dir_scan(
    disk: Seq<Seq<u8>>,
    sb: SuperBlock,
    m: InodeModel,
    name: Seq<u8>,
    want_empty: bool,
    i: int,
) -> Result<Option<(u32, int)>, FsError>
    decreases m.blocks - i,
{
    if i >= m.blocks || i < 0 {
        Ok(None)
    } else {
        match crate::inode::spec_bmap_lookup(disk, sb, m, (i * 512) as u64) {
            Err(e) => Err(e),
            Ok(None) => Err(FsError::OutOfBounds),
            Ok(Some(b)) => match scan_slots_from(disk[b as int], name, want_empty, 0) {
                Some(j) => Ok(Some((b, j))),
                None => spec_dir_scan(disk, sb, m, name, want_empty, i + 1),
            },
        }
    }
}

/// What `dir_lookup` returns: the inode of the first entry named `name`.
#[verifier::opaque]
pub open spec fn spec_dir_lookup(disk: Seq<Seq<u8>>, sb: SuperBlock, m: InodeModel, name: Seq<u8>)
    -> Result<u32, FsError> {
    if m.ftype != FileType::Directory {
        Err(FsError::NotDirectory)
    } else if name.len() > MAX_FILE_NAME_LEN {
        Err(FsError::InvalidFileName)
    } else {
        match spec_dir_scan(disk, sb, m, name, false, 0) {
            Err(e) => Err(e),
            Ok(None) => Err(FsError::NotFound),
            Ok(Some((b, j))) => Ok(entry_at(disk[b as int], j).inode_id),
        }
    }
}

/// `block` with `entry` in slot `j`.
pub open spec fn with_entry(block: Seq<u8>, j: int, entry: EntryModel) -> Seq<u8> {
    crate::codec::splice(block, 64 * j, crate::layout::encode_entry(entry))
}

/// What `dir_add_entry` does once the name is known to be new: the entry
/// goes to the first empty slot, or to the first slot of a block that is
/// appended to the directory; the directory grows by one entry and its
/// inode is written.
#[verifier::opaque]
pub open spec fn spec_dir_insert(
    disk: Seq<Seq<u8>>,
    sb: SuperBlock,
    m: InodeModel,
    entry: EntryModel,
) -> InodeStep<()> {
    match spec_dir_scan(disk, sb, m, entry.name, true, 0) {
        Err(e) => InodeStep { res: Err(e), disk, sb, inode: m },
        Ok(Some((b, j))) => {
            let m1 = InodeModel { size: (m.size + 64) as u64, ..m };
            let w = crate::inode::spec_write_inode(disk, sb, m1);
            match w.res {
                Err(e) => InodeStep { res: Err(e), disk: w.disk, sb: w.sb, inode: m1 },
                Ok(_) => InodeStep {
                    res: Ok(()),
                    disk: w.disk.update(b as int, with_entry(disk[b as int], j, entry)),
                    sb: w.sb,
                    inode: m1,
                },
            }
        },
        Ok(None) => {
            let a = crate::inode::spec_bmap(disk, sb, m, m.size, true);
            match a.res {
                Err(e) => InodeStep { res: Err(e), disk: a.disk, sb: a.sb, inode: a.inode },
                Ok(b) => {
                    let m1 = InodeModel { size: (m.size + 64) as u64, ..a.inode };
                    let w = crate::inode::spec_write_inode(a.disk, a.sb, m1);
                    match w.res {
                        Err(e) => InodeStep { res: Err(e), disk: w.disk, sb: w.sb, inode: m1 },
                        Ok(_) => InodeStep {
                            res: Ok(()),
                            disk: w.disk.update(b as int, with_entry(a.disk[b as int], 0, entry)),
                            sb: w.sb,
                            inode: m1,
                        },
                    }
                },
            }
        },
    }
}

/// What `dir_add_entry` does: a directory takes a new entry unless it holds
/// one of that name already.
#[verifier::opaque]
pub open spec fn spec_dir_add_entry(
    disk: Seq<Seq<u8>>,
    sb: SuperBlock,
    m: InodeModel,
    entry: EntryModel,
) -> InodeStep<()> {
    if m.ftype != FileType::Directory {
        InodeStep { res: Err(FsError::NotDirectory), disk, sb, inode: m }
    } else if m.size > u64::MAX - 64 {
        InodeStep { res: Err(FsError::FileTooLarge), disk, sb, inode: m }
    } else {
        match spec_dir_scan(disk, sb, m, entry.name, false, 0) {
            Err(e) => InodeStep { res: Err(e), disk, sb, inode: m },
            Ok(Some(_)) => InodeStep { res: Err(FsError::AlreadyExists), disk, sb, inode: m },
            Ok(None) => spec_dir_insert(disk, sb, m, entry),
        }
    }
}

/// What `dir_rm_entry` does: the slot of the first entry named `name` is
/// emptied, the directory shrinks by one entry, its inode is written, and
/// the inode id that the entry held is returned. The entries `.` and `..`
/// cannot be removed.
#[verifier::opaque]
pub open spec fn spec_dir_rm_entry(disk: Seq<Seq<u8>>, sb: SuperBlock, m: InodeModel, name: Seq<u8>)
    -> InodeStep<u32> {
    if m.ftype != FileType::Directory {
        InodeStep { res: Err(FsError::NotDirectory), disk, sb, inode: m }
    } else if name.len() == 0 || name.len() > MAX_FILE_NAME_LEN || names_match(name, dot())
        || names_match(name, dotdot()) {
        InodeStep { res: Err(FsError::InvalidFileName), disk, sb, inode: m }
    } else {
        match spec_dir_scan(disk, sb, m, name, false, 0) {
            Err(e) => InodeStep { res: Err(e), disk, sb, inode: m },
            Ok(None) => InodeStep { res: Err(FsError::NotFound), disk, sb, inode: m },
            Ok(Some((b, j))) => if m.size < 64 {
                InodeStep { res: Err(FsError::OutOfBounds), disk, sb, inode: m }
            } else {
                let m1 = InodeModel { size: (m.size - 64) as u64, ..m };
                let w = crate::inode::spec_write_inode(disk, sb, m1);
                match w.res {
                    Err(e) => InodeStep { res: Err(e), disk: w.disk, sb: w.sb, inode: m1 },
                    Ok(_) => InodeStep {
                        res: Ok(entry_at(disk[b as int], j).inode_id),
                        disk: w.disk.update(
                            b as int,
                            with_entry(disk[b as int], j, EntryModel::null()),
                        ),
                        sb: w.sb,
                        inode: m1,
                    },
                }
            },
        }
    }
}

/// The entries in the slots of a block from slot `j` on, empty slots left
/// out.
pub open spec fn block_entries(block: Seq<u8>, j: int) -> Seq<EntryModel>
    decreases 8 - j,
{
    if j >= 8 || j < 0 {
        Seq::empty()
    } else if slot_is_empty(entry_at(block, j)) {
        block_entries(block, j + 1)
    } else {
        seq![entry_at(block, j)] + block_entries(block, j + 1)
    }
}

/// The entries of a directory from block `i` on, in stored order.
pub open spec fn spec_dir_entries(disk: Seq<Seq<u8>>, sb: SuperBlock, m: InodeModel, i: int)
    -> Result<Seq<EntryModel>, FsError>
    decreases m.blocks - i,
{
    if i >= m.blocks || i < 0 {
        Ok(Seq::empty())
    } else {
        match crate::inode::spec_bmap_lookup(disk, sb, m, (i * 512) as u64) {
            Err(e) => Err(e),
            Ok(None) => Err(FsError::OutOfBounds),
            Ok(Some(b)) => match spec_dir_entries(disk, sb, m, i + 1) {
                Err(e) => Err(e),
                Ok(rest) => Ok(block_entries(disk[b as int], 0) + rest),
            },
        }
    }
}

/// The entries `acc` before what `r` holds.
pub open spec fn prepend(acc: Seq<EntryModel>, r: Result<Seq<EntryModel>, FsError>) -> Result<
    Seq<EntryModel>,
    FsError,
> {
    match r {
        Ok(rest) => Ok(acc + rest),
        Err(e) => Err(e),
    }
}

/// What `read_dir` returns: the entries of a directory in stored order.
#[verifier::opaque]
pub open spec fn spec_read_dir(disk: Seq<Seq<u8>>, sb: SuperBlock, m: InodeModel) -> Result<
    Seq<EntryModel>,
    FsError,
> {
    if m.ftype != FileType::Directory {
        Err(FsError::NotDirectory)
    } else {
        spec_dir_entries(disk, sb, m, 0)
    }
}

/// The models of the entries of a list.
pub open spec fn entry_views(v: Seq<DirEntry>) -> Seq<EntryModel> {
    Seq::new(v.len(), |i: int| v[i]@)
}

/// The name without its trailing zero bytes.
pub fn trim_zero(name: &[u8]) -> (r: &[u8])
    ensures
        r@ == trimmed(name@),
{
    let mut end = name.len();
    assert(name@.take(end as int) =~= name@);
    while end > 0 && name[end - 1] == 0
        invariant
            end <= name@.len(),
            trimmed(name@) == trimmed(name@.take(end as int)),
        decreases end,
    {
        assert(name@.take(end as int).drop_last() =~= name@.take(end - 1));
        end -= 1;
    }
    assert(name@.take(name@.len() as int) =~= name@);
    vstd::slice::slice_subrange(name, 0, end)
}

/// Whether two byte strings are equal.
pub fn bytes_equal(a: &[u8], b: &[u8]) -> (r: bool)
    ensures
        r == (a@ == b@),
{
    if a.len() != b.len() {
        return false;
    }
    let mut i: usize = 0;
    while i < a.len()
        invariant
            i <= a@.len(),
            a@.len() == b@.len(),
            forall|q: int| 0 <= q < i ==> a@[q] == b@[q],
        decreases a@.len() - i,
    {
        if a[i] != b[i] {
            assert(a@[i as int] != b@[i as int]);
            return false;
        }
        i += 1;
    }
    assert(a@ =~= b@);
    true
}

/// Whether two names are the same name.
pub fn name_cmp(n1: &[u8], n2: &[u8]) -> (b: bool)
    ensures
        b == names_match(n1@, n2@),
{
    let nn1 = trim_zero(n1);
    let nn2 = trim_zero(n2);
    nn1.len() != 0 && bytes_equal(nn1, nn2)
}

/// Whether a name has no byte but zeros.
pub fn name_is_empty(name: &[u8]) -> (b: bool)
    ensures
        b == (trimmed(name@).len() == 0),
{
    trim_zero(name).len() == 0
}

impl DirEntry {
    /// Whether the slot holds no entry: no inode and no name.
    pub fn is_empty(&self) -> (b: bool)
        ensures
            b == slot_is_empty(self@),
    {
        self.inode_id == 0 && name_is_empty(&self.name)
    }

    /// Whether the entry has this name.
    pub fn name_eq(&self, name: &[u8]) -> (b: bool)
        ensures
            b == names_match(self@.name, name@),
    {
        name_cmp(&self.name, name)
    }

    /// Whether the entry has this name.
    pub fn name_eq_str(&self, name: &str) -> (b: bool)
        ensures
            b == names_match(self@.name, vstd::utf8::encode_utf8(name@)),
    {
        name_cmp(&self.name, name.as_bytes())
    }
}

/// The first slot of a block that fits.
fn scan_slots(buf: &[u8; BLOCK_SIZE], name: &[u8], want_empty: bool) -> (r: Option<usize>)
    ensures
        match r {
            Some(j) => scan_slots_from(buf@, name@, want_empty, 0) == Some(j as int) && j < 8,
            None => scan_slots_from(buf@, name@, want_empty, 0) is None,
        },
{
    let mut j: usize = 0;
    while j < NUM_ENTRY_PER_BLOCK
        invariant
            j <= NUM_ENTRY_PER_BLOCK,
            scan_slots_from(buf@, name@, want_empty, 0) == scan_slots_from(
                buf@,
                name@,
                want_empty,
                j as int,
            ),
        decreases NUM_ENTRY_PER_BLOCK - j,
    {
        let entry = entry_from_bytes(buf, j * DIR_ENTRY_SIZE);
        let fits = if want_empty {
            entry.is_empty()
        } else {
            entry.inode_id != 0 && entry.name_eq(name)
        };
        if fits {
            return Some(j);
        }
        j += 1;
    }
    None
}

/// Scans the blocks of a directory for the first slot that fits: an empty
/// slot, or the entry named `name`. Returns the block and the index of the
/// slot, and leaves the content of that block in `buf`.
pub fn dir_scan<D: BlockDevice>(
    device: &mut D,
    superblock: &SuperBlock,
    inode: &Inode,
    name: &[u8],
    want_empty: bool,
    buf: &mut [u8; BLOCK_SIZE],
) -> (r: Result<Option<(u32, usize)>, FsError>)
    requires
        mounted(old(device)@, *superblock),
    ensures
        final(device)@ == old(device)@,
        final(device).reliable() == old(device).reliable(),
        old(device).reliable() || r is Ok ==> (match r {
            Ok(Some((b, j))) => spec_dir_scan(
                old(device)@,
                *superblock,
                inode@,
                name@,
                want_empty,
                0,
            ) == Ok::<Option<(u32, int)>, FsError>(Some((b, j as int))),
            Ok(None) => spec_dir_scan(old(device)@, *superblock, inode@, name@, want_empty, 0)
                == Ok::<Option<(u32, int)>, FsError>(None),
            Err(e) => spec_dir_scan(old(device)@, *superblock, inode@, name@, want_empty, 0)
                == Err::<Option<(u32, int)>, FsError>(e),
        }),
        r matches Ok(Some((b, j))) ==> superblock.is_data_block(b) && j < 8 && final(buf)@ == old(
            device,
        )@[b as int],
{
    let ghost disk = device@;
    let ghost goal = spec_dir_scan(disk, *superblock, inode@, name@, want_empty, 0);
    let num_blocks = inode.blocks;
    let mut i: u32 = 0;
    while i < num_blocks
        invariant
            i <= num_blocks,
            num_blocks == inode.blocks,
            mounted(disk, *superblock),
            device@ == disk,
            disk == old(device)@,
            device.reliable() == old(device).reliable(),
            goal == spec_dir_scan(disk, *superblock, inode@, name@, want_empty, 0),
            goal == spec_dir_scan(disk, *superblock, inode@, name@, want_empty, i as int),
        decreases num_blocks - i,
    {
        let block_id = match bmap_lookup(device, superblock, inode, i as u64 * BLOCK_SIZE as u64) {
            Ok(Some(b)) => b,
            Ok(None) => {
                return Err(FsError::OutOfBounds);
            },
            Err(e) => {
                return Err(e);
            },
        };
        match device.read_block(block_id, buf) {
            Ok(()) => {},
            Err(e) => {
                return Err(e);
            },
        }
        match scan_slots(buf, name, want_empty) {
            Some(j) => {
                return Ok(Some((block_id, j)));
            },
            None => {},
        }
        i += 1;
    }
    Ok(None)
}

/// Query inode id of a file by name in the parent directory inode.
/// Returns the inode ID of the file if found, or an error if not found or if the parent is not a directory.
pub fn dir_lookup<D: BlockDevice>(
    device: &mut D,
    superblock: &SuperBlock,
    parent_inode: &Inode,
    name: &[u8],
) -> (r: Result<u32, FsError>)
    requires
        mounted(old(device)@, *superblock),
    ensures
        final(device)@ == old(device)@,
        final(device).reliable() == old(device).reliable(),
        old(device).reliable() || r is Ok ==> r == spec_dir_lookup(
            old(device)@,
            *superblock,
            parent_inode@,
            name@,
        ),
{
    proof {
        reveal(spec_dir_lookup);
    }
    if parent_inode.ftype != FileType::Directory {
        return Err(FsError::NotDirectory);
    }
    if name.len() > MAX_FILE_NAME_LEN {
        return Err(FsError::InvalidFileName);
    }
    let mut buf = [0u8;BLOCK_SIZE];
    match dir_scan(device, superblock, parent_inode, name, false, &mut buf) {
        Ok(Some((_, j))) => {
            let entry = entry_from_bytes(&buf, j * DIR_ENTRY_SIZE);
            Ok(entry.inode_id)
        },
        Ok(None) => Err(FsError::NotFound),
        Err(e) => Err(e),
    }
}

/// Writes `entry` into slot `j` of the block in `buf`.
fn put_entry(buf: &mut [u8; BLOCK_SIZE], j: usize, entry: &DirEntry)
    requires
        j < 8,
    ensures
        final(buf)@ == with_entry(old(buf)@, j as int, entry@),
{
    let bytes = entry_to_bytes(entry);
    copy_into(buf, j * DIR_ENTRY_SIZE, &bytes);
}

/// Puts an entry whose name is new into a directory: into the first empty
/// slot, or into a block that is appended.
fn dir_insert<D: BlockDevice>(
    device: &mut D,
    superblock: &mut SuperBlock,
    parent_inode: &mut Inode,
    child_entry: &DirEntry,
) -> (r: Result<(), FsError>)
    requires
        formatted(old(device)@, *old(superblock)),
        old(parent_inode).size <= u64::MAX - 64,
    ensures
        crate::superblock::same_geometry(*final(superblock), *old(superblock)),
        same_identity(final(parent_inode)@, old(parent_inode)@),
        old(parent_inode)@.wf() ==> final(parent_inode)@.wf(),
        final(device).reliable() == old(device).reliable(),
        final(device)@.len() == old(device)@.len(),
        formatted(final(device)@, *final(superblock)),
        old(device).reliable() || r is Ok ==> (InodeStep {
            res: crate::superblock::done(r),
            disk: final(device)@,
            sb: *final(superblock),
            inode: final(parent_inode)@,
        }) == spec_dir_insert(old(device)@, *old(superblock), old(parent_inode)@, child_entry@),
{
    proof {
        reveal(spec_dir_insert);
    }
    let prev_size = parent_inode.size;
    let mut buf = [0u8;BLOCK_SIZE];
    let (block_id, slot) = match dir_scan(
        device,
        superblock,
        parent_inode,
        &child_entry.name,
        true,
        &mut buf,
    ) {
        Err(e) => {
            return Err(e);
        },
        Ok(Some((b, j))) => (b, j),
        Ok(None) => {
            // Allocate a new block for the directory entry
            let b = match bmap(device, superblock, parent_inode, prev_size, true) {
                Ok(b) => b,
                Err(e) => {
                    return Err(e);
                },
            };
            match device.read_block(b, &mut buf) {
                Ok(()) => {},
                Err(e) => {
                    return Err(e);
                },
            }
            (b, 0)
        },
    };
    parent_inode.size = prev_size + DIR_ENTRY_SIZE as u64;
    match write_inode(device, superblock, parent_inode) {
        Ok(()) => {},
        Err(e) => {
            return Err(e);
        },
    }
    put_entry(&mut buf, slot, child_entry);
    let ghost d2 = device@;
    match device.write_block(block_id, &buf) {
        Ok(()) => {},
        Err(e) => {
            return Err(e);
        },
    }
    proof {
        crate::bitmap::lemma_layout(*superblock);
        crate::bitmap::lemma_formatted_update(d2, *superblock, block_id as int, buf@);
    }
    Ok(())
}

/// Add a new directory entry to a parent directory inode.
/// Would not increase links count of the child inode, which is caller's responsibility.
/// Child inode must be already allocated and initialized.
pub fn dir_add_entry<D: BlockDevice>(
    device: &mut D,
    superblock: &mut SuperBlock,
    parent_inode: &mut Inode,
    child_entry: &DirEntry,
) -> (r: Result<(), FsError>)
    requires
        formatted(old(device)@, *old(superblock)),
    ensures
        crate::superblock::same_geometry(*final(superblock), *old(superblock)),
        same_identity(final(parent_inode)@, old(parent_inode)@),
        old(parent_inode)@.wf() ==> final(parent_inode)@.wf(),
        final(device).reliable() == old(device).reliable(),
        final(device)@.len() == old(device)@.len(),
        formatted(final(device)@, *final(superblock)),
        old(device).reliable() || r is Ok ==> (InodeStep {
            res: crate::superblock::done(r),
            disk: final(device)@,
            sb: *final(superblock),
            inode: final(parent_inode)@,
        }) == spec_dir_add_entry(old(device)@, *old(superblock), old(parent_inode)@, child_entry@),
{
    proof {
        reveal(spec_dir_add_entry);
    }
    if parent_inode.ftype != FileType::Directory {
        return Err(FsError::NotDirectory);
    }
    if parent_inode.size > u64::MAX - DIR_ENTRY_SIZE as u64 {
        return Err(FsError::FileTooLarge);
    }
    let mut buf = [0u8;BLOCK_SIZE];
    match dir_scan(device, superblock, parent_inode, &child_entry.name, false, &mut buf) {
        Ok(Some(_)) => {
            return Err(FsError::AlreadyExists);
        },
        Ok(None) => {},
        Err(e) => {
            return Err(e);
        },
    }
    dir_insert(device, superblock, parent_inode, child_entry)
}

/// Whether `name` is `.` or `..`.
pub fn is_dot_or_dotdot(name: &[u8]) -> (b: bool)
    ensures
        b == (names_match(name@, dot()) || names_match(name@, dotdot())),
{
    let d1 = [46u8];
    let d2 = [46u8, 46u8];
    assert(d1@ =~= dot());
    assert(d2@ =~= dotdot());
    name_cmp(name, &d1) || name_cmp(name, &d2)
}

/// Remove a directory entry from a parent directory inode.
/// Would not reclaim the inode or data blocks of the removed entry, caller responsible for that.
/// Returns the inode ID of the removed entry if successful, or an error if not found or if the parent is not a directory.
pub fn dir_rm_entry<D: BlockDevice>(
    device: &mut D,
    superblock: &mut SuperBlock,
    parent_inode: &mut Inode,
    name: &[u8],
) -> (r: Result<u32, FsError>)
    requires
        formatted(old(device)@, *old(superblock)),
    ensures
        same_identity(final(parent_inode)@, old(parent_inode)@),
        old(parent_inode)@.wf() ==> final(parent_inode)@.wf(),
        final(device).reliable() == old(device).reliable(),
        final(device)@.len() == old(device)@.len(),
        formatted(final(device)@, *final(superblock)),
        *final(superblock) == *old(superblock),
        old(device).reliable() || r is Ok ==> (InodeStep {
            res: r,
            disk: final(device)@,
            sb: *final(superblock),
            inode: final(parent_inode)@,
        }) == spec_dir_rm_entry(old(device)@, *old(superblock), old(parent_inode)@, name@),
{
    proof {
        reveal(spec_dir_rm_entry);
    }
    if parent_inode.ftype != FileType::Directory {
        return Err(FsError::NotDirectory);
    }
    if name.len() == 0 || name.len() > MAX_FILE_NAME_LEN {
        return Err(FsError::InvalidFileName);
    }
    if is_dot_or_dotdot(name) {
        return Err(FsError::InvalidFileName);
    }
    let mut buf = [0u8;BLOCK_SIZE];
    let (block_id, slot) = match dir_scan(device, superblock, parent_inode, name, false, &mut buf) {
        Ok(Some((b, j))) => (b, j),
        Ok(None) => {
            return Err(FsError::NotFound);
        },
        Err(e) => {
            return Err(e);
        },
    };
    if parent_inode.size < DIR_ENTRY_SIZE as u64 {
        return Err(FsError::OutOfBounds);
    }
    let inode_id_to_remove = entry_from_bytes(&buf, slot * DIR_ENTRY_SIZE).inode_id;
    put_entry(&mut buf, slot, &DirEntry::null());
    // For simplicity, no possible reclaiming of data blocks.
    parent_inode.size -= DIR_ENTRY_SIZE as u64;
    match write_inode(device, superblock, parent_inode) {
        Ok(()) => {},
        Err(e) => {
            return Err(e);
        },
    }
    let ghost d2 = device@;
    match device.write_block(block_id, &buf) {
        Ok(()) => {},
        Err(e) => {
            return Err(e);
        },
    }
    proof {
        crate::bitmap::lemma_layout(*superblock);
        crate::bitmap::lemma_formatted_update(d2, *superblock, block_id as int, buf@);
    }
    // If the inode's links reaches 0 after this operation, caller should reclaim the inode.
    Ok(inode_id_to_remove)
}

/// Whether a directory holds nothing but `.` and `..`. A directory with
/// fewer than two entries is corrupt and must not be passed.
pub fn dir_is_empty<D: BlockDevice>(device: &D, superblock: &SuperBlock, dir_inode: &Inode) -> (r:
    Result<bool, FsError>)
    requires
        dir_inode.ftype == FileType::Directory ==> dir_inode.size / 64 >= 2,
    ensures
        r == (if dir_inode.ftype != FileType::Directory {
            Err::<bool, FsError>(FsError::NotDirectory)
        } else {
            Ok::<bool, FsError>(dir_inode.size / 64 == 2)
        }),
{
    if dir_inode.ftype != FileType::Directory {
        return Err(FsError::NotDirectory);
    }
    // Check if the directory has any entries other than '.' and '..'
    let num_dirents = dir_inode.size / DIR_ENTRY_SIZE as u64;
    Ok(num_dirents == 2)
}

/// What `mkdir` does: a directory inode is allocated, entered in the parent
/// under `name`, given its entries `.` and `..`, and both inodes are written
/// with their new link counts.
pub open spec fn spec_mkdir(disk: Seq<Seq<u8>>, sb: SuperBlock, p: InodeModel, name: Seq<u8>)
    -> InodeStep<u32> {
    if p.ftype != FileType::Directory {
        InodeStep { res: Err(FsError::NotDirectory), disk, sb, inode: p }
    } else if name.len() == 0 || name.len() > MAX_FILE_NAME_LEN || names_match(name, dot())
        || names_match(name, dotdot()) {
        InodeStep { res: Err(FsError::InvalidFileName), disk, sb, inode: p }
    } else if p.links_cnt == u32::MAX {
        InodeStep { res: Err(FsError::OutOfBounds), disk, sb, inode: p }
    } else {
        match spec_dir_scan(disk, sb, p, name, false, 0) {
            Err(e) => InodeStep { res: Err(e), disk, sb, inode: p },
            Ok(Some(_)) => InodeStep { res: Err(FsError::AlreadyExists), disk, sb, inode: p },
            Ok(None) => {
                let a = crate::inode::spec_alloc_inode(disk, sb, FileType::Directory, Mode::RW);
                match a.res {
                    Err(e) => InodeStep { res: Err(e), disk: a.disk, sb: a.sb, inode: p },
                    Ok(d0) => spec_mkdir_link(a.disk, a.sb, p, d0, name),
                }
            },
        }
    }
}

/// The part of `mkdir` that follows the allocation of the inode `d0`.
#[verifier::opaque]
pub open spec fn spec_mkdir_link(
    disk: Seq<Seq<u8>>,
    sb: SuperBlock,
    p: InodeModel,
    d0: InodeModel,
    name: Seq<u8>,
) -> InodeStep<u32> {
    let s1 = spec_dir_add_entry(disk, sb, p, EntryModel::named(d0.id, name));
    match s1.res {
        Err(e) => InodeStep { res: Err(e), disk: s1.disk, sb: s1.sb, inode: s1.inode },
        Ok(_) => {
            let d1 = InodeModel { links_cnt: (d0.links_cnt + 1) as u32, ..d0 };
            let s2 = spec_dir_add_entry(s1.disk, s1.sb, d1, EntryModel::named(d0.id, dot()));
            match s2.res {
                Err(e) => InodeStep { res: Err(e), disk: s2.disk, sb: s2.sb, inode: s1.inode },
                Ok(_) => {
                    let d2 = InodeModel { links_cnt: (d1.links_cnt + 1) as u32, ..s2.inode };
                    let s3 = spec_dir_add_entry(
                        s2.disk,
                        s2.sb,
                        d2,
                        EntryModel::named(p.id, dotdot()),
                    );
                    match s3.res {
                        Err(e) => InodeStep {
                            res: Err(e),
                            disk: s3.disk,
                            sb: s3.sb,
                            inode: s1.inode,
                        },
                        Ok(_) => {
                            let linked = InodeModel {
                                links_cnt: (p.links_cnt + 1) as u32,
                                ..s1.inode
                            };
                            let w1 = crate::inode::spec_write_inode(s3.disk, s3.sb, linked);
                            match w1.res {
                                Err(e) => InodeStep {
                                    res: Err(e),
                                    disk: w1.disk,
                                    sb: w1.sb,
                                    inode: linked,
                                },
                                Ok(_) => {
                                    let w2 = crate::inode::spec_write_inode(
                                        w1.disk,
                                        w1.sb,
                                        s3.inode,
                                    );
                                    InodeStep {
                                        res: match w2.res {
                                            Ok(_) => Ok(d0.id),
                                            Err(e) => Err(e),
                                        },
                                        disk: w2.disk,
                                        sb: w2.sb,
                                        inode: linked,
                                    }
                                },
                            }
                        },
                    }
                },
            }
        },
    }
}

/// Enters the new directory `dir_inode` in `parent_inode` under `dir_name`
/// and gives it its entries `.` and `..`.
fn mkdir_link<D: BlockDevice>(
    device: &mut D,
    superblock: &mut SuperBlock,
    parent_inode: &mut Inode,
    dir_inode: Inode,
    dir_name: &[u8],
) -> (r: Result<u32, FsError>)
    requires
        formatted(old(device)@, *old(superblock)),
        1 <= dir_name@.len() <= MAX_FILE_NAME_LEN,
        old(parent_inode).links_cnt < u32::MAX,
        dir_inode.links_cnt == 0,
    ensures
        crate::superblock::same_geometry(*final(superblock), *old(superblock)),
        final(device).reliable() == old(device).reliable(),
        final(device)@.len() == old(device)@.len(),
        formatted(final(device)@, *final(superblock)),
        old(device).reliable() || r is Ok ==> (InodeStep {
            res: r,
            disk: final(device)@,
            sb: *final(superblock),
            inode: final(parent_inode)@,
        }) == spec_mkdir_link(
            old(device)@,
            *old(superblock),
            old(parent_inode)@,
            dir_inode@,
            dir_name@,
        ),
{
    proof {
        reveal(spec_mkdir_link);
    }
    let mut dir_inode = dir_inode;
    let dir_inode_id = dir_inode.id;
    let links = parent_inode.links_cnt;
    let d1 = [46u8];
    let d2 = [46u8, 46u8];
    assert(d1@ =~= dot());
    assert(d2@ =~= dotdot());
    let entry = match DirEntry::new(dir_inode_id, dir_name) {
        Ok(e) => e,
        Err(e) => {
            return Err(e);
        },
    };
    let dot_entry = match DirEntry::new(dir_inode_id, &d1) {
        Ok(e) => e,
        Err(e) => {
            return Err(e);
        },
    };
    let dotdot_entry = match DirEntry::new(parent_inode.id, &d2) {
        Ok(e) => e,
        Err(e) => {
            return Err(e);
        },
    };
    match dir_add_entry(device, superblock, parent_inode, &entry) {
        Ok(()) => {},
        Err(e) => {
            return Err(e);
        },
    }
    dir_inode.links_cnt += 1;
    match dir_add_entry(device, superblock, &mut dir_inode, &dot_entry) {
        Ok(()) => {},
        Err(e) => {
            return Err(e);
        },
    }
    // '.' entry counts as a link
    dir_inode.links_cnt += 1;
    match dir_add_entry(device, superblock, &mut dir_inode, &dotdot_entry) {
        Ok(()) => {},
        Err(e) => {
            return Err(e);
        },
    }
    // '..' entry counts as a link
    parent_inode.links_cnt = links + 1;
    match write_inode(device, superblock, parent_inode) {
        Ok(()) => {},
        Err(e) => {
            return Err(e);
        },
    }
    match write_inode(device, superblock, &dir_inode) {
        Ok(()) => Ok(dir_inode_id),
        Err(e) => Err(e),
    }
}

/// Create a new directory with the given name in the parent directory inode.
/// The new directory will be created with an initial inode and a '.' and '..' entry.
/// Returns the inode ID of the new directory if successful, or an error if the parent is not a directory or if the name is invalid.
pub fn mkdir<D: BlockDevice>(
    device: &mut D,
    superblock: &mut SuperBlock,
    parent_inode: &mut Inode,
    dir_name: &[u8],
) -> (r: Result<u32, FsError>)
    requires
        formatted(old(device)@, *old(superblock)),
    ensures
        crate::superblock::same_geometry(*final(superblock), *old(superblock)),
        final(device).reliable() == old(device).reliable(),
        final(device)@.len() == old(device)@.len(),
        formatted(final(device)@, *final(superblock)),
        old(device).reliable() || r is Ok ==> (InodeStep {
            res: r,
            disk: final(device)@,
            sb: *final(superblock),
            inode: final(parent_inode)@,
        }) == spec_mkdir(old(device)@, *old(superblock), old(parent_inode)@, dir_name@),
{
    proof {
        reveal(spec_mkdir);
    }
    if parent_inode.ftype != FileType::Directory {
        return Err(FsError::NotDirectory);
    }
    if dir_name.len() == 0 || dir_name.len() > MAX_FILE_NAME_LEN {
        return Err(FsError::InvalidFileName);
    }
    if is_dot_or_dotdot(dir_name) {
        return Err(FsError::InvalidFileName);
    }
    if parent_inode.links_cnt == u32::MAX {
        return Err(FsError::OutOfBounds);
    }
    // Check if the directory already exists
    let mut buf = [0u8;BLOCK_SIZE];
    match dir_scan(device, superblock, parent_inode, dir_name, false, &mut buf) {
        Ok(Some(_)) => {
            return Err(FsError::AlreadyExists);
        },
        Ok(None) => {},
        Err(e) => {
            return Err(e);
        },
    }
    let dir_inode = match alloc_inode(device, superblock, FileType::Directory, Mode::RW) {
        Ok(inode) => inode,
        Err(e) => {
            return Err(e);
        },
    };
    mkdir_link(device, superblock, parent_inode, dir_inode, dir_name)
}

/// Appends the entries of a block to `out`, empty slots left out.
fn collect_block(buf: &[u8; BLOCK_SIZE], out: &mut Vec<DirEntry>)
    ensures
        entry_views(final(out)@) == entry_views(old(out)@) + block_entries(buf@, 0),
{
    let mut j: usize = 0;
    assert(entry_views(out@) + Seq::<EntryModel>::empty() =~= entry_views(out@));
    while j < NUM_ENTRY_PER_BLOCK
        invariant
            j <= NUM_ENTRY_PER_BLOCK,
            entry_views(old(out)@) + block_entries(buf@, 0) == entry_views(out@) + block_entries(
                buf@,
                j as int,
            ),
        decreases NUM_ENTRY_PER_BLOCK - j,
    {
        let entry = entry_from_bytes(buf, j * DIR_ENTRY_SIZE);
        let ghost before = out@;
        if !entry.is_empty() {
            out.push(entry);
            assert(entry_views(out@) =~= entry_views(before) + seq![entry@]);
            assert(entry_views(before) + (seq![entry@] + block_entries(buf@, j + 1)) =~= (
            entry_views(before) + seq![entry@]) + block_entries(buf@, j + 1));
        }
        j += 1;
    }
    assert(entry_views(out@) + block_entries(buf@, 8) =~= entry_views(out@));
}

/// The entries of a directory in stored order, empty slots left out.
pub fn read_dir<D: BlockDevice>(device: &mut D, superblock: &SuperBlock, dir_inode: &Inode) -> (r:
    Result<Vec<DirEntry>, FsError>)
    requires
        mounted(old(device)@, *superblock),
    ensures
        final(device)@ == old(device)@,
        final(device).reliable() == old(device).reliable(),
        old(device).reliable() || r is Ok ==> (match r {
            Ok(v) => spec_read_dir(old(device)@, *superblock, dir_inode@) == Ok::<
                Seq<EntryModel>,
                FsError,
            >(entry_views(v@)),
            Err(e) => spec_read_dir(old(device)@, *superblock, dir_inode@) == Err::<
                Seq<EntryModel>,
                FsError,
            >(e),
        }),
{
    proof {
        reveal(spec_read_dir);
    }
    if dir_inode.ftype != FileType::Directory {
        return Err(FsError::NotDirectory);
    }
    let ghost disk = device@;
    let ghost m = dir_inode@;
    let ghost goal = spec_dir_entries(disk, *superblock, m, 0);
    let mut entries: Vec<DirEntry> = Vec::new();
    let mut cur_block_buf = [0u8;BLOCK_SIZE];
    let num_blocks = dir_inode.blocks;
    let mut i: u32 = 0;
    proof {
        assert(entry_views(entries@) =~= Seq::<EntryModel>::empty());
        match goal {
            Ok(rest) => {
                assert(entry_views(entries@) + rest =~= rest);
            },
            Err(_) => {},
        }
    }
    while i < num_blocks
        invariant
            i <= num_blocks,
            num_blocks == dir_inode.blocks,
            m == dir_inode@,
            mounted(disk, *superblock),
            device@ == disk,
            disk == old(device)@,
            device.reliable() == old(device).reliable(),
            dir_inode.ftype == FileType::Directory,
            goal == spec_dir_entries(disk, *superblock, m, 0),
            goal == prepend(entry_views(entries@), spec_dir_entries(disk, *superblock, m, i as int)),
        decreases num_blocks - i,
    {
        proof {
            reveal(spec_read_dir);
        }
        let block_id = match bmap_lookup(device, superblock, dir_inode, i as u64 * BLOCK_SIZE as u64) {
            Ok(Some(b)) => b,
            Ok(None) => {
                return Err(FsError::OutOfBounds);
            },
            Err(e) => {
                return Err(e);
            },
        };
        match device.read_block(block_id, &mut cur_block_buf) {
            Ok(()) => {},
            Err(e) => {
                return Err(e);
            },
        }
        let ghost before = entry_views(entries@);
        collect_block(&cur_block_buf, &mut entries);
        proof {
            match spec_dir_entries(disk, *superblock, m, i + 1) {
                Ok(rest) => {
                    assert(before + (block_entries(cur_block_buf@, 0) + rest) =~= (before
                        + block_entries(cur_block_buf@, 0)) + rest);
                },
                Err(_) => {},
            }
        }
        i += 1;
    }
    proof {
        assert(entry_views(entries@) + Seq::<EntryModel>::empty() =~= entry_views(entries@));
    }
    Ok(entries)
}

} // verus!
