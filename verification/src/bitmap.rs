//! Management of data bitmap and inode bitmap.
//!
//! A bitmap is a run of blocks that holds one bit for each item; a cleared
//! bit means that the item is free. Item `i` is bit `i % 8` of byte
//! `(i % 4096) / 8` of block `i / 4096` of the run, the least significant
//! bit of a byte first.

use vstd::prelude::*;
use crate::block_dev::BlockDevice;
use crate::config::{BITS_PER_BLOCK, BLOCK_SIZE};
use crate::error::FsError;
use crate::structs::SuperBlock;
use crate::superblock::{write_superblock, Step};

verus! {

/// Bit `k` of byte `b`.
pub open spec fn byte_bit(b: u8, k: u8) -> bool {
    b & (1u8 << k) != 0
}

/// Byte `b` with bit `k` set to `v`.
pub open spec fn byte_with_bit(b: u8, k: u8, v: bool) -> u8 {
    if v {
        b | (1u8 << k)
    } else {
        b & !(1u8 << k)
    }
}

/// Bit `q` of a block.
pub open spec fn block_bit(block: Seq<u8>, q: int) -> bool {
    byte_bit(block[q / 8], (q % 8) as u8)
}

/// Bit `i` of the bitmap that starts at block `start` of `disk`.
pub open spec fn bit_at(disk: Seq<Seq<u8>>, start: int, i: int) -> bool {
    block_bit(disk[start + i / 4096], i % 4096)
}

/// `disk` with bit `i` of the bitmap that starts at block `start` set to `v`.
pub open spec fn with_bit(disk: Seq<Seq<u8>>, start: int, i: int, v: bool) -> Seq<Seq<u8>> {
    let block = disk[start + i / 4096];
    let byte = block[(i % 4096) / 8];
    disk.update(
        start + i / 4096,
        block.update((i % 4096) / 8, byte_with_bit(byte, (i % 8) as u8, v)),
    )
}

/// The number of set bits among the first `n` bits of a bitmap.
pub open spec fn count_set(disk: Seq<Seq<u8>>, start: int, n: nat) -> nat
    decreases n,
{
    if n == 0 {
        0
    } else {
        count_set(disk, start, (n - 1) as nat) + if bit_at(disk, start, n - 1) {
            1nat
        } else {
            0nat
        }
    }
}

/// The first bit from `from` on and below `limit` that differs from `value`.
pub open spec fn first_fit(disk: Seq<Seq<u8>>, start: int, limit: int, value: bool, from: int)
    -> Option<int>
    decreases limit - from,
{
    if from >= limit {
        None
    } else if bit_at(disk, start, from) != value {
        Some(from)
    } else {
        first_fit(disk, start, limit, value, from + 1)
    }
}

/// What `set_first_fit_bit` does: the first of the `total_items` bits that
/// differs from `value` is flipped and its index returned. Where there is
/// none, the error is `OutOfBounds` if the blocks of the bitmap hold more
/// than `total_items` bits, and `NotFound` if they hold no more.
#[verifier::opaque]
pub open spec fn spec_set_first_fit(
    disk: Seq<Seq<u8>>,
    start: int,
    blocks: int,
    total_items: int,
    value: bool,
) -> (Result<u32, FsError>, Seq<Seq<u8>>) {
    let limit = if total_items < blocks * 4096 {
        total_items
    } else {
        blocks * 4096
    };
    match first_fit(disk, start, limit, value, 0) {
        Some(i) => (Ok(i as u32), with_bit(disk, start, i, value)),
        None => (
            Err(
                if total_items < blocks * 4096 {
                    FsError::OutOfBounds
                } else {
                    FsError::NotFound
                },
            ),
            disk,
        ),
    }
}

/// What `set_bit_at` does: bit `item_id` is set to `value` and its earlier
/// value returned.
#[verifier::opaque]
pub open spec fn spec_set_bit_at(
    disk: Seq<Seq<u8>>,
    start: int,
    blocks: int,
    item_id: int,
    total_items: int,
    value: bool,
) -> (Result<bool, FsError>, Seq<Seq<u8>>) {
    if item_id >= total_items || item_id / 4096 >= blocks {
        (Err(FsError::OutOfBounds), disk)
    } else {
        (Ok(bit_at(disk, start, item_id)), with_bit(disk, start, item_id, value))
    }
}

/// Whether the free counts of `sb` are the numbers of cleared bits in the two
/// bitmaps on `disk`.
#[verifier::opaque]
pub open spec fn counts_ok(disk: Seq<Seq<u8>>, sb: SuperBlock) -> bool {
    &&& count_set(disk, sb.inode_bitmap_start as int, sb.num_inodes as nat) + sb.free_inodes
        == sb.num_inodes
    &&& count_set(disk, sb.data_bitmap_start as int, sb.data_blocks() as nat) + sb.free_blocks
        == sb.data_blocks()
}

/// Whether `disk` holds the file system that `sb` describes, with free counts
/// that agree with the bitmaps.
pub open spec fn formatted(disk: Seq<Seq<u8>>, sb: SuperBlock) -> bool {
    crate::superblock::mounted(disk, sb) && counts_ok(disk, sb)
}

/// What `alloc_data_block` does: the first free block of the data region is
/// marked used, counted, and zeroed.
#[verifier::opaque]
pub open spec fn spec_alloc_data_block(disk: Seq<Seq<u8>>, sb: SuperBlock) -> Step<u32> {
    let (r, d1) = spec_set_first_fit(
        disk,
        sb.data_bitmap_start as int,
        sb.data_bitmap_blocks as int,
        sb.data_blocks(),
        true,
    );
    match r {
        Err(e) => Step { res: Err(e), disk, sb },
        Ok(idx) => {
            let sb1 = SuperBlock { free_blocks: (sb.free_blocks - 1) as u32, ..sb };
            let d2 = d1.update(0, crate::layout::encode_sb(sb1));
            let block_id = (idx + sb.data_start) as u32;
            Step {
                res: Ok(block_id),
                disk: d2.update(block_id as int, crate::codec::zeros(BLOCK_SIZE as nat)),
                sb: sb1,
            }
        },
    }
}

/// What `free_data_block` does: the bit of the block is cleared, and the
/// block is counted as free if it was in use.
#[verifier::opaque]
pub open spec fn spec_free_data_block(disk: Seq<Seq<u8>>, sb: SuperBlock, block_id: u32) -> Step<
    (),
> {
    if !sb.is_data_block(block_id) {
        Step { res: Err(FsError::OutOfBounds), disk, sb }
    } else {
        let idx = block_id - sb.data_start;
        let sb1 = if bit_at(disk, sb.data_bitmap_start as int, idx) {
            SuperBlock { free_blocks: (sb.free_blocks + 1) as u32, ..sb }
        } else {
            sb
        };
        let d1 = with_bit(disk, sb.data_bitmap_start as int, idx, false);
        Step { res: Ok(()), disk: d1.update(0, crate::layout::encode_sb(sb1)), sb: sb1 }
    }
}

/// What `alloc_inode_id` does: the first free inode is marked used and
/// counted.
#[verifier::opaque]
pub open spec fn spec_alloc_inode_id(disk: Seq<Seq<u8>>, sb: SuperBlock) -> Step<u32> {
    let (r, d1) = spec_set_first_fit(
        disk,
        sb.inode_bitmap_start as int,
        sb.inode_bitmap_blocks as int,
        sb.num_inodes as int,
        true,
    );
    match r {
        Err(e) => Step { res: Err(e), disk, sb },
        Ok(id) => {
            let sb1 = SuperBlock { free_inodes: (sb.free_inodes - 1) as u32, ..sb };
            Step { res: Ok(id), disk: d1.update(0, crate::layout::encode_sb(sb1)), sb: sb1 }
        },
    }
}

/// What `free_inode_id` does: the bit of the inode is cleared, and the inode
/// is counted as free if it was in use.
#[verifier::opaque]
pub open spec fn spec_free_inode_id(disk: Seq<Seq<u8>>, sb: SuperBlock, inode_id: u32) -> Step<
    (),
> {
    if inode_id >= sb.num_inodes {
        Step { res: Err(FsError::OutOfBounds), disk, sb }
    } else {
        let sb1 = if bit_at(disk, sb.inode_bitmap_start as int, inode_id as int) {
            SuperBlock { free_inodes: (sb.free_inodes + 1) as u32, ..sb }
        } else {
            sb
        };
        let d1 = with_bit(disk, sb.inode_bitmap_start as int, inode_id as int, false);
        Step { res: Ok(()), disk: d1.update(0, crate::layout::encode_sb(sb1)), sb: sb1 }
    }
}

/// Setting a bit of a byte sets that bit and leaves the others.
pub proof fn lemma_byte_with_bit(b: u8, k: u8, v: bool, j: u8)
    requires
        k < 8,
        j < 8,
    ensures
        byte_bit(byte_with_bit(b, k, v), j) == (if j == k {
            v
        } else {
            byte_bit(b, j)
        }),
{
    if v {
        assert(((b | (1u8 << k)) & (1u8 << j) != 0) == (if j == k {
            true
        } else {
            b & (1u8 << j) != 0
        })) by (bit_vector)
            requires
                k < 8,
                j < 8,
        ;
    } else {
        assert(((b & !(1u8 << k)) & (1u8 << j) != 0) == (if j == k {
            false
        } else {
            b & (1u8 << j) != 0
        })) by (bit_vector)
            requires
                k < 8,
                j < 8,
        ;
    }
}

/// Setting bit `i` of a bitmap sets that bit and leaves the others.
pub proof fn lemma_with_bit(disk: Seq<Seq<u8>>, start: int, i: int, v: bool, j: int)
    requires
        0 <= start,
        0 <= i,
        0 <= j,
        start + i / 4096 < disk.len(),
        start + j / 4096 < disk.len(),
        disk[start + i / 4096].len() == BLOCK_SIZE,
    ensures
        bit_at(with_bit(disk, start, i, v), start, j) == (if j == i {
            v
        } else {
            bit_at(disk, start, j)
        }),
{
    let bi = start + i / 4096;
    let block = disk[bi];
    let yi = (i % 4096) / 8;
    let byte = block[yi];
    let new_block = block.update(yi, byte_with_bit(byte, (i % 8) as u8, v));
    let d2 = with_bit(disk, start, i, v);
    assert(0 <= yi < 512);
    assert(d2[bi] == new_block);
    assert(new_block[yi] == byte_with_bit(byte, (i % 8) as u8, v));
    lemma_byte_with_bit(byte, (i % 8) as u8, v, (j % 8) as u8);
    let bj = start + j / 4096;
    let yj = (j % 4096) / 8;
    if bj == bi {
        if yj == yi {
            if j % 8 == i % 8 {
                assert(j == i);
            }
        } else {
            assert(new_block[yj] == block[yj]);
        }
    } else {
        assert(d2[bj] == disk[bj]);
    }
}

/// Two disks that agree on the blocks of a bitmap have the same number of
/// set bits in it.
pub proof fn lemma_count_frame(d1: Seq<Seq<u8>>, d2: Seq<Seq<u8>>, start: int, n: nat)
    requires
        forall|b: int| start <= b < start + ceil4096(n as int) ==> d1[b] == d2[b],
    ensures
        count_set(d1, start, n) == count_set(d2, start, n),
    decreases n,
{
    if n > 0 {
        lemma_count_frame(d1, d2, start, (n - 1) as nat);
        assert(d1[start + (n - 1) / 4096] == d2[start + (n - 1) / 4096]);
    }
}

/// The number of bitmap blocks that hold `n` bits.
pub open spec fn ceil4096(n: int) -> int {
    (n + 4095) / 4096
}

/// Setting bit `i` among the first `n` bits changes the number of set bits
/// by the change of that bit.
pub proof fn lemma_count_with_bit(disk: Seq<Seq<u8>>, start: int, n: nat, i: int, v: bool)
    requires
        0 <= start,
        0 <= i,
        start + i / 4096 < disk.len(),
        start + ceil4096(n as int) <= disk.len(),
        disk[start + i / 4096].len() == BLOCK_SIZE,
    ensures
        i < n ==> count_set(with_bit(disk, start, i, v), start, n) + (if bit_at(disk, start, i) {
            1int
        } else {
            0int
        }) == count_set(disk, start, n) + (if v {
            1int
        } else {
            0int
        }),
        i >= n ==> count_set(with_bit(disk, start, i, v), start, n) == count_set(disk, start, n),
    decreases n,
{
    if n > 0 {
        lemma_count_with_bit(disk, start, (n - 1) as nat, i, v);
        lemma_with_bit(disk, start, i, v, n - 1);
    }
}

/// The number of set bits among `n` bits is at most `n`, and less than `n`
/// where one of them is cleared.
pub proof fn lemma_count_bound(disk: Seq<Seq<u8>>, start: int, n: nat, i: int)
    ensures
        count_set(disk, start, n) <= n,
        0 <= i < n && !bit_at(disk, start, i) ==> count_set(disk, start, n) < n,
        0 <= i < n && bit_at(disk, start, i) ==> count_set(disk, start, n) > 0,
    decreases n,
{
    if n > 0 {
        lemma_count_bound(disk, start, (n - 1) as nat, i);
    }
}

/// Where the bits from `from` up to `k` all equal `value`, the search from
/// `from` is the search from `k`.
pub proof fn lemma_first_fit_skip(
    disk: Seq<Seq<u8>>,
    start: int,
    limit: int,
    value: bool,
    from: int,
    k: int,
)
    requires
        from <= k <= limit,
        forall|j: int| from <= j < k ==> bit_at(disk, start, j) == value,
    ensures
        first_fit(disk, start, limit, value, from) == first_fit(disk, start, limit, value, k),
    decreases k - from,
{
    if from < k {
        lemma_first_fit_skip(disk, start, limit, value, from + 1, k);
    }
}

/// The search returns the least bit that differs from `value`, and nothing
/// where there is none.
pub proof fn lemma_first_fit_least(
    disk: Seq<Seq<u8>>,
    start: int,
    limit: int,
    value: bool,
    from: int,
)
    ensures
        match first_fit(disk, start, limit, value, from) {
            Some(i) => from <= i < limit && bit_at(disk, start, i) != value && forall|j: int|
                from <= j < i ==> bit_at(disk, start, j) == value,
            None => forall|j: int| from <= j < limit ==> bit_at(disk, start, j) == value,
        },
    decreases limit - from,
{
    if from < limit && bit_at(disk, start, from) == value {
        lemma_first_fit_least(disk, start, limit, value, from + 1);
    }
}

/// How the regions of a well-formed superblock lie.
pub proof fn lemma_layout(sb: SuperBlock)
    requires
        sb.wf(),
    ensures
        sb.data_bitmap_start == 1,
        sb.inode_bitmap_start == 1 + sb.data_bitmap_blocks,
        sb.inode_table_start == sb.inode_bitmap_start + sb.inode_bitmap_blocks,
        sb.data_start == sb.inode_table_start + sb.inode_table_blocks,
        sb.data_start < sb.num_blocks,
        ceil4096(sb.data_blocks()) <= sb.data_bitmap_blocks,
        ceil4096(sb.num_inodes as int) == sb.inode_bitmap_blocks,
        sb.num_inodes <= 4 * sb.inode_table_blocks,
{
}

/// A write outside the two bitmaps keeps a formatted disk formatted.
pub proof fn lemma_formatted_update(disk: Seq<Seq<u8>>, sb: SuperBlock, b: int, data: Seq<u8>)
    requires
        formatted(disk, sb),
        b == 0 || sb.inode_table_start <= b,
        b < disk.len(),
        data.len() == BLOCK_SIZE,
    ensures
        formatted(disk.update(b, data), sb),
{
    reveal(counts_ok);
    lemma_layout(sb);
    let d2 = disk.update(b, data);
    lemma_count_frame(disk, d2, sb.inode_bitmap_start as int, sb.num_inodes as nat);
    lemma_count_frame(disk, d2, sb.data_bitmap_start as int, sb.data_blocks() as nat);
}

/// The free counts do not matter to whether a disk is mounted.
pub proof fn lemma_formatted_counts(
    d1: Seq<Seq<u8>>,
    d2: Seq<Seq<u8>>,
    sb: SuperBlock,
)
    requires
        formatted(d1, sb),
        d2.len() == d1.len(),
        crate::block_dev::blocks_sized(d2),
        forall|b: int| 1 <= b < sb.inode_table_start ==> d1[b] == d2[b],
    ensures
        formatted(d2, sb),
{
    reveal(counts_ok);
    lemma_layout(sb);
    lemma_count_frame(d1, d2, sb.inode_bitmap_start as int, sb.num_inodes as nat);
    lemma_count_frame(d1, d2, sb.data_bitmap_start as int, sb.data_blocks() as nat);
}

/// The first of the first `limit` bits of `buf` that differs from `value`.
fn scan_block(buf: &[u8; BLOCK_SIZE], value: bool, limit: usize) -> (r: Option<usize>)
    requires
        limit <= 4096,
    ensures
        match r {
            Some(p) => p < limit && block_bit(buf@, p as int) != value && forall|q: int|
                0 <= q < p ==> block_bit(buf@, q) == value,
            None => forall|q: int| 0 <= q < limit ==> block_bit(buf@, q) == value,
        },
{
    let mut p: usize = 0;
    while p < limit
        invariant
            p <= limit <= 4096,
            forall|q: int| 0 <= q < p ==> block_bit(buf@, q) == value,
        decreases limit - p,
    {
        let byte = buf[p / 8];
        let k = (p % 8) as u8;
        let is_set = (byte & (1u8 << k)) != 0;
        if is_set != value {
            return Some(p);
        }
        p += 1;
    }
    None
}

/// Sets bit `p` of `buf` to `value`.
fn put_bit(buf: &mut [u8; BLOCK_SIZE], p: usize, value: bool)
    requires
        p < 4096,
    ensures
        final(buf)@ == old(buf)@.update(
            p as int / 8,
            byte_with_bit(old(buf)@[p as int / 8], (p % 8) as u8, value),
        ),
{
    let k = (p % 8) as u8;
    let byte = buf[p / 8];
    if value {
        buf[p / 8] = byte | (1u8 << k);
    } else {
        buf[p / 8] = byte & !(1u8 << k);
    }
}

/// Set the first fit bit in the bitmap.
/// 'Fit' means that it will set the first bit that is not equal to 'value'.
/// Returns the item ID of the bit that was set or cleared.
pub fn set_first_fit_bit<D: BlockDevice>(
    device: &mut D,
    bitmap_start: u32,
    bitmap_blocks: u32,
    total_items: u32,
    value: bool,
) -> (r: Result<u32, FsError>)
    requires
        bitmap_start + bitmap_blocks <= old(device)@.len(),
        bitmap_start + bitmap_blocks <= u32::MAX,
    ensures
        final(device).reliable() == old(device).reliable(),
        final(device)@.len() == old(device)@.len(),
        forall|b: int|
            0 <= b < old(device)@.len() && !(bitmap_start <= b < bitmap_start + bitmap_blocks)
                ==> final(device)@[b] == old(device)@[b],
        r is Err ==> final(device)@ == old(device)@,
        old(device).reliable() || r is Ok ==> (r, final(device)@) == spec_set_first_fit(
            old(device)@,
            bitmap_start as int,
            bitmap_blocks as int,
            total_items as int,
            value,
        ),
{
    proof {
        reveal(spec_set_first_fit);
    }
    let ghost disk = device@;
    let ghost start = bitmap_start as int;
    let ghost limit = if total_items < bitmap_blocks * 4096 {
        total_items as int
    } else {
        bitmap_blocks * 4096
    };
    let mut buf = [0u8;BLOCK_SIZE];
    let mut i: u32 = 0;
    while i < bitmap_blocks
        invariant
            i <= bitmap_blocks,
            bitmap_start + bitmap_blocks <= disk.len(),
            bitmap_start + bitmap_blocks <= u32::MAX,
            device@ == disk,
            disk == old(device)@,
            device.reliable() == old(device).reliable(),
            start == bitmap_start,
            limit == (if total_items < bitmap_blocks * 4096 {
                total_items as int
            } else {
                bitmap_blocks * 4096
            }),
            forall|j: int| 0 <= j < i * 4096 && j < limit ==> bit_at(disk, start, j) == value,
            total_items >= i * 4096,
        decreases bitmap_blocks - i,
    {
        proof {
            reveal(spec_set_first_fit);
        }
        let base: u64 = i as u64 * 4096;
        if base >= total_items as u64 {
            proof {
                lemma_first_fit_skip(disk, start, limit, value, 0, limit);
            }
            return Err(FsError::OutOfBounds);
        }
        let block_id = bitmap_start + i;
        device.read_block(block_id, &mut buf)?;
        let remaining: u64 = total_items as u64 - base;
        let span: usize = if remaining < 4096 {
            remaining as usize
        } else {
            4096
        };
        assert forall|q: int| 0 <= q < 4096 implies #[trigger] bit_at(disk, start, base + q)
            == block_bit(buf@, q) by {
            assert((base + q) / 4096 == i);
            assert((base + q) % 4096 == q);
        }
        match scan_block(&buf, value, span) {
            Some(p) => {
                let ghost before = buf@;
                put_bit(&mut buf, p, value);
                device.write_block(block_id, &buf)?;
                proof {
                    let idx = base + p;
                    assert(idx / 4096 == i);
                    assert(idx % 4096 == p);
                    assert forall|j: int| 0 <= j < idx implies bit_at(disk, start, j)
                        == value by {
                        if j >= base {
                            assert(bit_at(disk, start, base + (j - base)) == block_bit(
                                before,
                                j - base,
                            ));
                        }
                    }
                    assert(bit_at(disk, start, base + p) == block_bit(before, p as int));
                    lemma_first_fit_skip(disk, start, limit, value, 0, idx);
                    assert(device@ =~= with_bit(disk, start, idx, value));
                }
                return Ok((base + p as u64) as u32);
            },
            None => {
                proof {
                    assert forall|j: int| 0 <= j < base + span && j < limit implies bit_at(
                        disk,
                        start,
                        j,
                    ) == value by {
                        if j >= base {
                            assert(bit_at(disk, start, base + (j - base)) == block_bit(
                                buf@,
                                j - base,
                            ));
                        }
                    }
                }
                if span < 4096 {
                    proof {
                        lemma_first_fit_skip(disk, start, limit, value, 0, limit);
                    }
                    return Err(FsError::OutOfBounds);
                }
            },
        }
        i += 1;
    }
    proof {
        lemma_first_fit_skip(disk, start, limit, value, 0, limit);
    }
    Err(FsError::NotFound)
}

/// Sets a specific bit in the bitmap to indicate whether an item (like a
/// block or inode) is used or free.
/// Returns previously set value of the bit.
pub fn set_bit_at<D: BlockDevice>(
    device: &mut D,
    bitmap_start: u32,
    bitmap_blocks: u32,
    item_id: u32,
    total_items: u32,
    set_value: bool,
) -> (r: Result<bool, FsError>)
    requires
        bitmap_start + bitmap_blocks <= old(device)@.len(),
        bitmap_start + bitmap_blocks <= u32::MAX,
    ensures
        final(device).reliable() == old(device).reliable(),
        final(device)@.len() == old(device)@.len(),
        forall|b: int|
            0 <= b < old(device)@.len() && !(bitmap_start <= b < bitmap_start + bitmap_blocks)
                ==> final(device)@[b] == old(device)@[b],
        r is Err ==> final(device)@ == old(device)@,
        old(device).reliable() || r is Ok ==> (r, final(device)@) == spec_set_bit_at(
            old(device)@,
            bitmap_start as int,
            bitmap_blocks as int,
            item_id as int,
            total_items as int,
            set_value,
        ),
{
    proof {
        reveal(spec_set_bit_at);
    }
    if item_id >= total_items {
        return Err(FsError::OutOfBounds);
    }
    let block_id = item_id / BITS_PER_BLOCK;
    let p = (item_id % BITS_PER_BLOCK) as usize;
    if block_id >= bitmap_blocks {
        return Err(FsError::OutOfBounds);
    }
    let target_block_id = bitmap_start + block_id;
    let mut buf = [0u8;BLOCK_SIZE];
    match device.read_block(target_block_id, &mut buf) {
        Ok(()) => {},
        Err(e) => {
            return Err(e);
        },
    }
    let ghost before = buf@;
    let pre_value = (buf[p / 8] & (1u8 << ((p % 8) as u8))) != 0;
    put_bit(&mut buf, p, set_value);
    match device.write_block(target_block_id, &buf) {
        Ok(()) => {},
        Err(e) => {
            return Err(e);
        },
    }
    proof {
        let i = item_id as int;
        let start = bitmap_start as int;
        assert(i / 4096 == block_id);
        assert(i % 4096 == p);
        assert(i % 8 == p % 8) by {
            assert(i == 4096 * (i / 4096) + i % 4096);
        }
        assert(before == old(device)@[start + i / 4096]);
        assert(pre_value == bit_at(old(device)@, start, i));
        assert(buf@ == before.update(
            (i % 4096) / 8,
            byte_with_bit(before[(i % 4096) / 8], (i % 8) as u8, set_value),
        ));
        assert(device@ == old(device)@.update(start + i / 4096, buf@));
        assert(device@ == with_bit(old(device)@, start, i, set_value));
    }
    Ok(pre_value)
}

/// Allocates a new data block, setting bit in the data bitmap.
/// Returns the actual block ID of the allocated block, zeroed.
/// Index in data region can be calculated as 'result - data_start'.
pub fn alloc_data_block<D: BlockDevice>(device: &mut D, superblock: &mut SuperBlock) -> (r: Result<
    u32,
    FsError,
>)
    requires
        formatted(old(device)@, *old(superblock)),
    ensures
        crate::superblock::same_geometry(*final(superblock), *old(superblock)),
        final(device).reliable() == old(device).reliable(),
        final(device)@.len() == old(device)@.len(),
        formatted(final(device)@, *final(superblock)),
        old(device).reliable() || r is Ok ==> (Step {
            res: r,
            disk: final(device)@,
            sb: *final(superblock),
        }) == spec_alloc_data_block(old(device)@, *old(superblock)),
        r matches Ok(b) ==> final(superblock).is_data_block(b),
{
    proof {
        reveal(spec_alloc_data_block);
    }
    proof {
        reveal(spec_set_first_fit);
    }
    let ghost disk = device@;
    let ghost sb = *superblock;
    proof {
        reveal(counts_ok);
        lemma_layout(sb);
        device.lemma_blocks_sized();
    }
    let idx = match set_first_fit_bit(
        device,
        superblock.data_bitmap_start,
        superblock.data_bitmap_blocks,
        superblock.num_blocks - superblock.data_start,
        true,
    ) {
        Ok(idx) => idx,
        Err(e) => {
            return Err(e);
        },
    };
    let ghost d1 = device@;
    proof {
        let start = sb.data_bitmap_start as int;
        let limit = sb.data_blocks();
        lemma_first_fit_least(disk, start, limit, true, 0);
        lemma_count_bound(disk, start, limit as nat, idx as int);
        lemma_count_with_bit(disk, start, limit as nat, idx as int, true);
        lemma_count_frame(disk, d1, sb.inode_bitmap_start as int, sb.num_inodes as nat);
        device.lemma_blocks_sized();
    }
    superblock.free_blocks -= 1;
    assert(formatted(d1, *superblock));
    let block_id = idx + superblock.data_start;
    match write_superblock(device, superblock) {
        Ok(()) => {},
        Err(e) => {
            return Err(e);
        },
    }
    proof {
        device.lemma_blocks_sized();
        lemma_formatted_counts(d1, device@, *superblock);
    }
    let ghost d2 = device@;
    let zero_block = [0u8;BLOCK_SIZE];
    assert(zero_block@ =~= crate::codec::zeros(BLOCK_SIZE as nat));
    match device.write_block(block_id, &zero_block) {
        Ok(()) => {},
        Err(e) => {
            return Err(e);
        },
    }
    proof {
        lemma_formatted_update(d2, *superblock, block_id as int, zero_block@);
    }
    Ok(block_id)
}

/// Frees a data block, clearing bit in the data bitmap.
pub fn free_data_block<D: BlockDevice>(
    device: &mut D,
    superblock: &mut SuperBlock,
    block_id: u32,
) -> (r: Result<(), FsError>)
    requires
        formatted(old(device)@, *old(superblock)),
    ensures
        crate::superblock::same_geometry(*final(superblock), *old(superblock)),
        final(device).reliable() == old(device).reliable(),
        final(device)@.len() == old(device)@.len(),
        formatted(final(device)@, *final(superblock)),
        old(device).reliable() || r is Ok ==> (Step {
            res: crate::superblock::done(r),
            disk: final(device)@,
            sb: *final(superblock),
        }) == spec_free_data_block(old(device)@, *old(superblock), block_id),
{
    proof {
        reveal(spec_free_data_block);
    }
    proof {
        reveal(spec_set_bit_at);
    }
    let ghost disk = device@;
    let ghost sb = *superblock;
    proof {
        reveal(counts_ok);
        lemma_layout(sb);
        device.lemma_blocks_sized();
    }
    if block_id < superblock.data_start || block_id >= superblock.num_blocks {
        return Err(FsError::OutOfBounds);
    }
    let relative_block_id = block_id - superblock.data_start;
    let was_set = match set_bit_at(
        device,
        superblock.data_bitmap_start,
        superblock.data_bitmap_blocks,
        relative_block_id,
        superblock.num_blocks - superblock.data_start,
        false,
    ) {
        Ok(b) => b,
        Err(e) => {
            return Err(e);
        },
    };
    let ghost d1 = device@;
    proof {
        let start = sb.data_bitmap_start as int;
        let limit = sb.data_blocks();
        lemma_count_bound(disk, start, limit as nat, relative_block_id as int);
        lemma_count_with_bit(disk, start, limit as nat, relative_block_id as int, false);
        lemma_count_frame(disk, d1, sb.inode_bitmap_start as int, sb.num_inodes as nat);
        device.lemma_blocks_sized();
    }
    if was_set {
        superblock.free_blocks += 1;
    }
    assert(formatted(d1, *superblock));
    match write_superblock(device, superblock) {
        Ok(()) => {},
        Err(e) => {
            return Err(e);
        },
    }
    proof {
        device.lemma_blocks_sized();
        lemma_formatted_counts(d1, device@, *superblock);
    }
    Ok(())
}

/// Allocates a new inode, setting bit in the inode bitmap.
pub fn alloc_inode_id<D: BlockDevice>(device: &mut D, superblock: &mut SuperBlock) -> (r: Result<
    u32,
    FsError,
>)
    requires
        formatted(old(device)@, *old(superblock)),
    ensures
        crate::superblock::same_geometry(*final(superblock), *old(superblock)),
        final(device).reliable() == old(device).reliable(),
        final(device)@.len() == old(device)@.len(),
        formatted(final(device)@, *final(superblock)),
        old(device).reliable() || r is Ok ==> (Step {
            res: r,
            disk: final(device)@,
            sb: *final(superblock),
        }) == spec_alloc_inode_id(old(device)@, *old(superblock)),
        r matches Ok(id) ==> id < final(superblock).num_inodes,
{
    proof {
        reveal(spec_alloc_inode_id);
    }
    proof {
        reveal(spec_set_first_fit);
    }
    let ghost disk = device@;
    let ghost sb = *superblock;
    proof {
        reveal(counts_ok);
        lemma_layout(sb);
        device.lemma_blocks_sized();
    }
    let inode_id = match set_first_fit_bit(
        device,
        superblock.inode_bitmap_start,
        superblock.inode_bitmap_blocks,
        superblock.num_inodes,
        true,
    ) {
        Ok(id) => id,
        Err(e) => {
            return Err(e);
        },
    };
    let ghost d1 = device@;
    proof {
        let start = sb.inode_bitmap_start as int;
        let limit = sb.num_inodes as int;
        lemma_first_fit_least(disk, start, limit, true, 0);
        lemma_count_bound(disk, start, limit as nat, inode_id as int);
        lemma_count_with_bit(disk, start, limit as nat, inode_id as int, true);
        lemma_count_frame(disk, d1, sb.data_bitmap_start as int, sb.data_blocks() as nat);
        device.lemma_blocks_sized();
    }
    superblock.free_inodes -= 1;
    assert(formatted(d1, *superblock));
    match write_superblock(device, superblock) {
        Ok(()) => {},
        Err(e) => {
            return Err(e);
        },
    }
    proof {
        device.lemma_blocks_sized();
        lemma_formatted_counts(d1, device@, *superblock);
    }
    Ok(inode_id)
}

/// Frees an inode, clearing bit in the inode bitmap.
pub fn free_inode_id<D: BlockDevice>(
    device: &mut D,
    superblock: &mut SuperBlock,
    inode_id: u32,
) -> (r: Result<(), FsError>)
    requires
        formatted(old(device)@, *old(superblock)),
    ensures
        crate::superblock::same_geometry(*final(superblock), *old(superblock)),
        final(device).reliable() == old(device).reliable(),
        final(device)@.len() == old(device)@.len(),
        formatted(final(device)@, *final(superblock)),
        old(device).reliable() || r is Ok ==> (Step {
            res: crate::superblock::done(r),
            disk: final(device)@,
            sb: *final(superblock),
        }) == spec_free_inode_id(old(device)@, *old(superblock), inode_id),
{
    proof {
        reveal(spec_free_inode_id);
    }
    proof {
        reveal(spec_set_bit_at);
    }
    let ghost disk = device@;
    let ghost sb = *superblock;
    proof {
        reveal(counts_ok);
        lemma_layout(sb);
        device.lemma_blocks_sized();
    }
    let was_set = match set_bit_at(
        device,
        superblock.inode_bitmap_start,
        superblock.inode_bitmap_blocks,
        inode_id,
        superblock.num_inodes,
        false,
    ) {
        Ok(b) => b,
        Err(e) => {
            return Err(e);
        },
    };
    let ghost d1 = device@;
    proof {
        let start = sb.inode_bitmap_start as int;
        let limit = sb.num_inodes as int;
        lemma_count_bound(disk, start, limit as nat, inode_id as int);
        lemma_count_with_bit(disk, start, limit as nat, inode_id as int, false);
        lemma_count_frame(disk, d1, sb.data_bitmap_start as int, sb.data_blocks() as nat);
        device.lemma_blocks_sized();
    }
    if was_set {
        superblock.free_inodes += 1;
    }
    assert(formatted(d1, *superblock));
    match write_superblock(device, superblock) {
        Ok(()) => {},
        Err(e) => {
            return Err(e);
        },
    }
    proof {
        device.lemma_blocks_sized();
        lemma_formatted_counts(d1, device@, *superblock);
    }
    Ok(())
}

/// No bit of a zero byte is set.
pub proof fn lemma_zero_byte(k: u8)
    requires
        k < 8,
    ensures
        !byte_bit(0u8, k),
{
    assert(0u8 & (1u8 << k) == 0u8) by (bit_vector)
        requires
            k < 8,
    ;
}

/// No bit of a zeroed bitmap block is set.
pub proof fn lemma_zero_bit(disk: Seq<Seq<u8>>, start: int, i: int)
    requires
        0 <= i,
        disk[start + i / 4096] == crate::codec::zeros(BLOCK_SIZE as nat),
    ensures
        !bit_at(disk, start, i),
{
    let q = i % 4096;
    lemma_zero_byte((q % 8) as u8);
}

/// A bitmap whose blocks are zeroed has no set bit.
pub proof fn lemma_count_zero(disk: Seq<Seq<u8>>, start: int, n: nat)
    requires
        forall|b: int|
            start <= b < start + ceil4096(n as int) ==> #[trigger] disk[b] == crate::codec::zeros(
                BLOCK_SIZE as nat,
            ),
    ensures
        count_set(disk, start, n) == 0,
    decreases n,
{
    if n > 0 {
        lemma_count_zero(disk, start, (n - 1) as nat);
        let i = n - 1;
        assert(disk[start + i / 4096] == crate::codec::zeros(BLOCK_SIZE as nat));
        lemma_zero_byte((i % 8) as u8);
    }
}

/// The number of set bits among the first `limit` bits of a block.
pub open spec fn block_count(block: Seq<u8>, limit: nat) -> nat
    decreases limit,
{
    if limit == 0 {
        0
    } else {
        block_count(block, (limit - 1) as nat) + if block_bit(block, limit - 1) {
            1nat
        } else {
            0nat
        }
    }
}

/// The set bits of a bitmap are those of its whole blocks and those of the
/// block that follows them.
pub proof fn lemma_count_split(disk: Seq<Seq<u8>>, start: int, i: nat, q: nat)
    requires
        q <= 4096,
    ensures
        count_set(disk, start, i * 4096 + q) == count_set(disk, start, i * 4096) + block_count(
            disk[start + i],
            q,
        ),
    decreases q,
{
    if q > 0 {
        lemma_count_split(disk, start, i, (q - 1) as nat);
        let j = i * 4096 + q - 1;
        assert(j / 4096 == i);
        assert(j % 4096 == q - 1);
    }
}

/// Counts the set bits among the first `limit` bits of a block.
fn count_block(buf: &[u8; BLOCK_SIZE], limit: usize) -> (n: u32)
    requires
        limit <= 4096,
    ensures
        n == block_count(buf@, limit as nat),
{
    let mut n: u32 = 0;
    let mut p: usize = 0;
    while p < limit
        invariant
            p <= limit <= 4096,
            n == block_count(buf@, p as nat),
            n <= p,
        decreases limit - p,
    {
        let byte = buf[p / 8];
        let k = (p % 8) as u8;
        if (byte & (1u8 << k)) != 0 {
            n += 1;
        }
        p += 1;
    }
    n
}

/// Counts the set bits among the first `total_items` bits of a bitmap.
pub fn count_bits<D: BlockDevice>(
    device: &mut D,
    bitmap_start: u32,
    bitmap_blocks: u32,
    total_items: u32,
) -> (r: Result<u32, FsError>)
    requires
        bitmap_start + bitmap_blocks <= old(device)@.len(),
        bitmap_start + bitmap_blocks <= u32::MAX,
        ceil4096(total_items as int) <= bitmap_blocks,
    ensures
        final(device)@ == old(device)@,
        final(device).reliable() == old(device).reliable(),
        old(device).reliable() ==> r is Ok,
        r matches Ok(n) ==> n == count_set(
            old(device)@,
            bitmap_start as int,
            total_items as nat,
        ),
{
    let ghost disk = device@;
    let ghost start = bitmap_start as int;
    let mut buf = [0u8;BLOCK_SIZE];
    let mut n: u32 = 0;
    let mut i: u32 = 0;
    while (i as u64) * 4096 < total_items as u64
        invariant
            i <= bitmap_blocks,
            i * 4096 <= total_items + 4095,
            bitmap_start + bitmap_blocks <= disk.len(),
            bitmap_start + bitmap_blocks <= u32::MAX,
            ceil4096(total_items as int) <= bitmap_blocks,
            start == bitmap_start,
            device@ == disk,
            disk == old(device)@,
            device.reliable() == old(device).reliable(),
            n == count_set(disk, start, if i * 4096 < total_items {
                (i * 4096) as nat
            } else {
                total_items as nat
            }),
            n <= i * 4096,
        decreases total_items + 4096 - i * 4096,
    {
        let base: u64 = i as u64 * 4096;
        match device.read_block(bitmap_start + i, &mut buf) {
            Ok(()) => {},
            Err(e) => {
                return Err(e);
            },
        }
        let remaining: u64 = total_items as u64 - base;
        let span: usize = if remaining < 4096 {
            remaining as usize
        } else {
            4096
        };
        let c = count_block(&buf, span);
        proof {
            lemma_count_split(disk, start, i as nat, span as nat);
            lemma_block_count_bound(buf@, span as nat);
        }
        n += c;
        i += 1;
    }
    Ok(n)
}

/// A block has at most as many set bits as bits.
pub proof fn lemma_block_count_bound(block: Seq<u8>, limit: nat)
    ensures
        block_count(block, limit) <= limit,
    decreases limit,
{
    if limit > 0 {
        lemma_block_count_bound(block, (limit - 1) as nat);
    }
}

/// Whether the free counts of the superblock agree with the bitmaps on the
/// device.
pub fn check_counts<D: BlockDevice>(device: &mut D, superblock: &SuperBlock) -> (r: Result<
    bool,
    FsError,
>)
    requires
        crate::superblock::mounted(old(device)@, *superblock),
    ensures
        final(device)@ == old(device)@,
        final(device).reliable() == old(device).reliable(),
        old(device).reliable() ==> r is Ok,
        r matches Ok(b) ==> b == counts_ok(old(device)@, *superblock),
{
    proof {
        reveal(counts_ok);
        lemma_layout(*superblock);
    }
    let used_inodes = match count_bits(
        device,
        superblock.inode_bitmap_start,
        superblock.inode_bitmap_blocks,
        superblock.num_inodes,
    ) {
        Ok(n) => n,
        Err(e) => {
            return Err(e);
        },
    };
    let data_blocks = superblock.num_blocks - superblock.data_start;
    let used_blocks = match count_bits(
        device,
        superblock.data_bitmap_start,
        superblock.data_bitmap_blocks,
        data_blocks,
    ) {
        Ok(n) => n,
        Err(e) => {
            return Err(e);
        },
    };
    proof {
        lemma_count_bound(
            device@,
            superblock.inode_bitmap_start as int,
            superblock.num_inodes as nat,
            0,
        );
        lemma_count_bound(device@, superblock.data_bitmap_start as int, data_blocks as nat, 0);
    }
    Ok(
        used_inodes == superblock.num_inodes - superblock.free_inodes && used_blocks == data_blocks
            - superblock.free_blocks,
    )
}

} // verus!
