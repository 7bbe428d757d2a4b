//! Reading and writing the bytes of a regular file.

use vstd::prelude::*;
use crate::bitmap::formatted;
use crate::block_dev::BlockDevice;
use crate::config::BLOCK_SIZE;
use crate::error::FsError;
use crate::inode::{bmap, bmap_lookup, release_blocks, same_identity, write_inode, InodeStep};
use crate::structs::{FileType, Inode, InodeModel, InodePtr, SuperBlock};
use crate::superblock::mounted;

verus! {

/// The length of the piece of a transfer of `n` bytes that starts at byte
/// `cur` of the file, `done` bytes into the transfer: it ends with the block
/// or with the transfer.
pub open spec fn chunk_len(cur: int, n: int, done: int) -> int {
    if 512 - cur % 512 < n - done {
        512 - cur % 512
    } else {
        n - done
    }
}

/// The bytes that a read of `n` bytes at `offset` gives, from byte `done` of
/// the read on, behind the bytes `acc` read so far. The read ends early at a
/// hole.
pub open spec fn spec_fread_from(
    disk: Seq<Seq<u8>>,
    sb: SuperBlock,
    m: InodeModel,
    offset: int,
    n: int,
    done: int,
    acc: Seq<u8>,
) -> Result<Seq<u8>, FsError>
    decreases n - done,
{
    if done >= n || done < 0 {
        Ok(acc)
    } else {
        let cur = offset + done;
        match crate::inode::spec_bmap_lookup(disk, sb, m, (cur / 512 * 512) as u64) {
            Err(e) => Err(e),
            Ok(None) => Ok(acc),
            Ok(Some(b)) => {
                let len = chunk_len(cur, n, done);
                spec_fread_from(
                    disk,
                    sb,
                    m,
                    offset,
                    n,
                    done + len,
                    acc + disk[b as int].subrange(cur % 512, cur % 512 + len),
                )
            },
        }
    }
}

/// What `fread` reads: the bytes of the file from `offset` on, as many as
/// asked for and as the file has, up to the first hole.
#[verifier::opaque]
pub open spec fn spec_fread(disk: Seq<Seq<u8>>, sb: SuperBlock, m: InodeModel, offset: int, len: int)
    -> Result<Seq<u8>, FsError> {
    if m.ftype != FileType::Regular {
        Err(FsError::NotReadable)
    } else if offset > m.size {
        Err(FsError::OutOfBounds)
    } else {
        let n = if len < m.size - offset {
            len
        } else {
            m.size - offset
        };
        spec_fread_from(disk, sb, m, offset, n, 0, Seq::empty())
    }
}

/// What the block by block part of `fwrite` does from byte `done` of `data`
/// on: each block is mapped, allocating it where it is absent, and takes its
/// piece of the data.
pub open spec fn spec_fwrite_from(
    disk: Seq<Seq<u8>>,
    sb: SuperBlock,
    m: InodeModel,
    offset: int,
    data: Seq<u8>,
    done: int,
) -> InodeStep<()>
    decreases data.len() - done,
{
    if done >= data.len() || done < 0 {
        InodeStep { res: Ok(()), disk, sb, inode: m }
    } else {
        let cur = offset + done;
        let a = crate::inode::spec_bmap(disk, sb, m, (cur / 512 * 512) as u64, true);
        match a.res {
            Err(e) => InodeStep { res: Err(e), disk: a.disk, sb: a.sb, inode: a.inode },
            Ok(b) => {
                let len = chunk_len(cur, data.len() as int, done);
                spec_fwrite_from(
                    a.disk.update(
                        b as int,
                        crate::codec::splice(
                            a.disk[b as int],
                            cur % 512,
                            data.subrange(done, done + len),
                        ),
                    ),
                    a.sb,
                    a.inode,
                    offset,
                    data,
                    done + len,
                )
            },
        }
    }
}

/// What `fwrite` does: the data goes to the blocks of the file from `offset`
/// on, the file grows to the end of the data if that lies past its end, and
/// the inode is written.
#[verifier::opaque]
pub open spec fn spec_fwrite(
    disk: Seq<Seq<u8>>,
    sb: SuperBlock,
    m: InodeModel,
    offset: int,
    data: Seq<u8>,
) -> InodeStep<usize> {
    if m.ftype != FileType::Regular {
        InodeStep { res: Err(FsError::NotWritable), disk, sb, inode: m }
    } else if data.len() == 0 {
        InodeStep { res: Ok(0), disk, sb, inode: m }
    } else {
        let s = spec_fwrite_from(disk, sb, m, offset, data, 0);
        match s.res {
            Err(e) => InodeStep { res: Err(e), disk: s.disk, sb: s.sb, inode: s.inode },
            Ok(_) => {
                let m1 = if offset + data.len() > s.inode.size {
                    InodeModel { size: (offset + data.len()) as u64, ..s.inode }
                } else {
                    s.inode
                };
                let w = crate::inode::spec_write_inode(s.disk, s.sb, m1);
                InodeStep {
                    res: match w.res {
                        Ok(_) => Ok(data.len() as usize),
                        Err(e) => Err(e),
                    },
                    disk: w.disk,
                    sb: w.sb,
                    inode: m1,
                }
            },
        }
    }
}

/// The inode of a file without a byte.
pub open spec fn truncated(m: InodeModel) -> InodeModel {
    InodeModel {
        blocks: 0,
        size: 0,
        payload: crate::structs::PayloadModel::Blocks(crate::structs::BlockPtrModel::empty()),
        ..m
    }
}

/// What `ftruncate` does: every block of the file is released, and the inode
/// is written without a block and without a byte.
#[verifier::opaque]
pub open spec fn spec_ftruncate(disk: Seq<Seq<u8>>, sb: SuperBlock, m: InodeModel) -> InodeStep<()> {
    if m.ftype != FileType::Regular {
        InodeStep { res: Err(FsError::NotWritable), disk, sb, inode: m }
    } else {
        match m.block_ptrs() {
            None => InodeStep { res: Err(FsError::InvalidFileType), disk, sb, inode: m },
            Some(bp) => {
                let s = crate::inode::spec_release_blocks(disk, sb, bp);
                match s.res {
                    Err(e) => InodeStep { res: Err(e), disk: s.disk, sb: s.sb, inode: m },
                    Ok(_) => {
                        let w = crate::inode::spec_write_inode(s.disk, s.sb, truncated(m));
                        InodeStep { res: w.res, disk: w.disk, sb: w.sb, inode: truncated(m) }
                    },
                }
            },
        }
    }
}

/// Copies `len` bytes of `src` from `from` on into `dst` from `to` on.
fn copy_range(dst: &mut [u8], to: usize, src: &[u8], from: usize, len: usize)
    requires
        to + len <= old(dst)@.len(),
        from + len <= src@.len(),
    ensures
        final(dst)@ == crate::codec::splice(
            old(dst)@,
            to as int,
            src@.subrange(from as int, from + len),
        ),
{
    let dst_len = dst.len();
    let src_len = src.len();
    let mut i: usize = 0;
    while i < len
        invariant
            i <= len,
            dst_len == dst@.len(),
            src_len == src@.len(),
            to + len <= dst@.len(),
            from + len <= src@.len(),
            dst@.len() == old(dst)@.len(),
            dst@ == crate::codec::splice(
                old(dst)@,
                to as int,
                src@.subrange(from as int, from + i),
            ),
        decreases len - i,
    {
        dst[to + i] = src[from + i];
        i += 1;
        assert(dst@ =~= crate::codec::splice(
            old(dst)@,
            to as int,
            src@.subrange(from as int, from + i),
        ));
    }
}

/// Reads data from a file into the provided buffer.
/// The `offset` is the position in the file to start reading from.
/// Returns the number of bytes read, or an error if the operation fails.
pub fn fread<D: BlockDevice>(
    device: &mut D,
    superblock: &SuperBlock,
    inode: &Inode,
    offset: usize,
    buffer: &mut [u8],
) -> (r: Result<usize, FsError>)
    requires
        mounted(old(device)@, *superblock),
    ensures
        final(device)@ == old(device)@,
        final(device).reliable() == old(device).reliable(),
        final(buffer)@.len() == old(buffer)@.len(),
        old(device).reliable() || r is Ok ==> (match r {
            Ok(k) => k <= old(buffer)@.len() && spec_fread(
                old(device)@,
                *superblock,
                inode@,
                offset as int,
                old(buffer)@.len() as int,
            ) == Ok::<Seq<u8>, FsError>(final(buffer)@.take(k as int)) && final(buffer)@.skip(
                k as int,
            ) == old(buffer)@.skip(k as int),
            Err(e) => spec_fread(
                old(device)@,
                *superblock,
                inode@,
                offset as int,
                old(buffer)@.len() as int,
            ) == Err::<Seq<u8>, FsError>(e),
        }),
{
    proof {
        reveal(spec_fread);
    }
    if inode.ftype != FileType::Regular {
        return Err(FsError::NotReadable);
    }
    let buf_len = buffer.len();
    if offset as u64 > inode.size {
        return Err(FsError::OutOfBounds);
    }
    let avail: u64 = inode.size - offset as u64;
    let n: usize = if (buf_len as u64) < avail {
        buf_len
    } else {
        avail as usize
    };
    let ghost disk = device@;
    let ghost goal = spec_fread_from(
        disk,
        *superblock,
        inode@,
        offset as int,
        n as int,
        0,
        Seq::empty(),
    );
    let mut bytes_read: usize = 0;
    let mut block_buf = [0u8;BLOCK_SIZE];
    assert(buffer@.take(0) =~= Seq::<u8>::empty());
    while bytes_read < n
        invariant
            bytes_read <= n <= buf_len,
            buf_len == buffer@.len(),
            buffer@.len() == old(buffer)@.len(),
            offset + n <= inode.size,
            inode.ftype == FileType::Regular,
            mounted(disk, *superblock),
            device@ == disk,
            disk == old(device)@,
            device.reliable() == old(device).reliable(),
            buffer@.skip(bytes_read as int) == old(buffer)@.skip(bytes_read as int),
            n == (if old(buffer)@.len() < inode.size - offset {
                old(buffer)@.len() as int
            } else {
                inode.size - offset
            }),
            goal == spec_fread_from(
                disk,
                *superblock,
                inode@,
                offset as int,
                n as int,
                0,
                Seq::empty(),
            ),
            goal == spec_fread_from(
                disk,
                *superblock,
                inode@,
                offset as int,
                n as int,
                bytes_read as int,
                buffer@.take(bytes_read as int),
            ),
        decreases n - bytes_read,
    {
        let current_offset: u64 = offset as u64 + bytes_read as u64;
        let start_offset = (current_offset % BLOCK_SIZE as u64) as usize;
        let room = BLOCK_SIZE - start_offset;
        let bytes_to_read = if room < n - bytes_read {
            room
        } else {
            n - bytes_read
        };
        let current_block_id = match bmap_lookup(
            device,
            superblock,
            inode,
            current_offset / BLOCK_SIZE as u64 * BLOCK_SIZE as u64,
        ) {
            Ok(Some(block_id)) => block_id,
            Ok(None) => {
                // A hole ends the read.
                proof {
                    reveal(spec_fread);
                }
                return Ok(bytes_read);
            },
            Err(e) => {
                proof {
                    reveal(spec_fread);
                }
                return Err(e);
            },
        };
        match device.read_block(current_block_id, &mut block_buf) {
            Ok(()) => {},
            Err(e) => {
                return Err(e);
            },
        }
        let ghost before = buffer@;
        copy_range(buffer, bytes_read, &block_buf, start_offset, bytes_to_read);
        proof {
            assert(buffer@.take(bytes_read + bytes_to_read) =~= before.take(bytes_read as int)
                + block_buf@.subrange(start_offset as int, start_offset + bytes_to_read));
            assert forall|q: int|
                0 <= q < buffer@.len() - (bytes_read + bytes_to_read) implies #[trigger] buffer@.skip(
                bytes_read + bytes_to_read,
            )[q] == old(buffer)@.skip(bytes_read + bytes_to_read)[q] by {
                assert(before.skip(bytes_read as int)[q + bytes_to_read] == old(buffer)@.skip(
                    bytes_read as int,
                )[q + bytes_to_read]);
            }
            assert(buffer@.skip(bytes_read + bytes_to_read) =~= old(buffer)@.skip(
                bytes_read + bytes_to_read,
            ));
        }
        bytes_read += bytes_to_read;
    }
    proof {
        reveal(spec_fread);
    }
    Ok(bytes_read)
}

/// Writes data from the provided buffer to a file at the specified offset.
/// Returns the number of bytes written, or an error if the operation fails.
pub fn fwrite<D: BlockDevice>(
    device: &mut D,
    superblock: &mut SuperBlock,
    inode: &mut Inode,
    offset: usize,
    buffer: &[u8],
) -> (r: Result<usize, FsError>)
    requires
        formatted(old(device)@, *old(superblock)),
    ensures
        final(device).reliable() == old(device).reliable(),
        final(device)@.len() == old(device)@.len(),
        formatted(final(device)@, *final(superblock)),
        crate::superblock::same_geometry(*final(superblock), *old(superblock)),
        same_identity(final(inode)@, old(inode)@),
        old(inode)@.wf() ==> final(inode)@.wf(),
        old(device).reliable() || r is Ok ==> (InodeStep {
            res: r,
            disk: final(device)@,
            sb: *final(superblock),
            inode: final(inode)@,
        }) == spec_fwrite(
            old(device)@,
            *old(superblock),
            old(inode)@,
            offset as int,
            buffer@,
        ),
{
    proof {
        reveal(spec_fwrite);
    }
    if inode.ftype != FileType::Regular {
        return Err(FsError::NotWritable);
    }
    if buffer.len() == 0 {
        return Ok(0);
    }
    let len = buffer.len();
    let mut bytes_written: usize = 0;
    let mut block_buf = [0u8;BLOCK_SIZE];
    while bytes_written < len
        invariant
            bytes_written <= len,
            len == buffer@.len(),
            len > 0,
            old(inode).ftype == FileType::Regular,
            bytes_written > 0 ==> offset + bytes_written <= 71680,
            device.reliable() == old(device).reliable(),
            device@.len() == old(device)@.len(),
            formatted(device@, *superblock),
            crate::superblock::same_geometry(*superblock, *old(superblock)),
            same_identity(inode@, old(inode)@),
            old(inode)@.wf() ==> inode@.wf(),
            spec_fwrite_from(
                old(device)@,
                *old(superblock),
                old(inode)@,
                offset as int,
                buffer@,
                0,
            ) == spec_fwrite_from(
                device@,
                *superblock,
                inode@,
                offset as int,
                buffer@,
                bytes_written as int,
            ),
        decreases len - bytes_written,
    {
        proof {
            reveal(spec_fwrite);
        }
        let current_offset: u64 = offset as u64 + bytes_written as u64;
        let current_block_id = match bmap(
            device,
            superblock,
            inode,
            current_offset / BLOCK_SIZE as u64 * BLOCK_SIZE as u64,
            true,
        ) {
            Ok(b) => b,
            Err(e) => {
                return Err(e);
            },
        };
        let start_offset = (current_offset % BLOCK_SIZE as u64) as usize;
        let room = BLOCK_SIZE - start_offset;
        let bytes_to_write = if room < len - bytes_written {
            room
        } else {
            len - bytes_written
        };
        match device.read_block(current_block_id, &mut block_buf) {
            Ok(()) => {},
            Err(e) => {
                return Err(e);
            },
        }
        copy_range(&mut block_buf, start_offset, buffer, bytes_written, bytes_to_write);
        let ghost d2 = device@;
        match device.write_block(current_block_id, &block_buf) {
            Ok(()) => {},
            Err(e) => {
                return Err(e);
            },
        }
        proof {
            crate::bitmap::lemma_layout(*superblock);
            crate::bitmap::lemma_formatted_update(
                d2,
                *superblock,
                current_block_id as int,
                block_buf@,
            );
        }
        bytes_written += bytes_to_write;
    }
    let end: u64 = offset as u64 + len as u64;
    if end > inode.size {
        inode.size = end;
    }
    match write_inode(device, superblock, inode) {
        Ok(()) => Ok(len),
        Err(e) => Err(e),
    }
}

/// Takes every byte from a file: frees its blocks and writes its inode
/// without a block and without a byte.
pub fn ftruncate<D: BlockDevice>(device: &mut D, superblock: &mut SuperBlock, inode: &mut Inode)
    -> (r: Result<(), FsError>)
    requires
        formatted(old(device)@, *old(superblock)),
    ensures
        final(device).reliable() == old(device).reliable(),
        final(device)@.len() == old(device)@.len(),
        formatted(final(device)@, *final(superblock)),
        crate::superblock::same_geometry(*final(superblock), *old(superblock)),
        same_identity(final(inode)@, old(inode)@),
        old(device).reliable() || r is Ok ==> (InodeStep {
            res: crate::superblock::done(r),
            disk: final(device)@,
            sb: *final(superblock),
            inode: final(inode)@,
        }) == spec_ftruncate(old(device)@, *old(superblock), old(inode)@),
{
    proof {
        reveal(spec_ftruncate);
    }
    if inode.ftype != FileType::Regular {
        return Err(FsError::NotWritable);
    }
    let bp = match inode.get_block_ptrs() {
        Ok(bp) => *bp,
        Err(e) => {
            return Err(e);
        },
    };
    match release_blocks(device, superblock, &bp) {
        Ok(()) => {},
        Err(e) => {
            return Err(e);
        },
    }
    inode.inode_ptr = InodePtr::new();
    inode.blocks = 0;
    inode.size = 0;
    write_inode(device, superblock, inode)
}

} // verus!
