//! What holds of the files: a read gives back what was written.

use vstd::prelude::*;
use crate::dir_laws::{
    block_of, in_use, indirect_of, lemma_block_of_frame, lemma_bmap_create,
    lemma_write_inode_formatted, mapped,
};
use crate::error::FsError;
use crate::file::{chunk_len, spec_fread, spec_fread_from, spec_fwrite, spec_fwrite_from};
use crate::structs::{FileType, InodeModel, SuperBlock};

verus! {

/// The byte at position `p` of a file, where the file has a block there.
pub open spec fn byte_at(disk: Seq<Seq<u8>>, sb: SuperBlock, m: InodeModel, p: int) -> Option<u8> {
    match block_of(disk, sb, m, p / 512) {
        Some(b) => Some(disk[b as int][p % 512]),
        None => None,
    }
}

/// Whether the blocks of a file are sound: each block that the file maps is
/// marked as used and mapped once, and the block of indirect pointers, if
/// the file has one, is marked as used and is none of the blocks of data.
pub open spec fn file_wf(disk: Seq<Seq<u8>>, sb: SuperBlock, m: InodeModel) -> bool {
    &&& m.wf()
    &&& m.block_ptrs() is Some
    &&& indirect_of(m) matches Some(ib) ==> in_use(disk, sb, ib)
    &&& forall|k: int|
        0 <= k < 140 ==> ((#[trigger] block_of(disk, sb, m, k)) matches Some(b) ==> in_use(
            disk,
            sb,
            b,
        ) && Some(b) != indirect_of(m))
    &&& forall|k1: int, k2: int|
        0 <= k1 < k2 < 140 && (#[trigger] block_of(disk, sb, m, k1)) is Some ==> block_of(
            disk,
            sb,
            m,
            k1,
        ) != #[trigger] block_of(disk, sb, m, k2)
}

/// Whether `s` is what writing the bytes of `data` from position `from` to
/// position `to` leaves of the state `(disk, sb, m)`: the bytes are in the
/// file, every other byte that the file had is as before, the file is sound,
/// and it has grown at most to the end of the write.
pub open spec fn wrote(
    disk: Seq<Seq<u8>>,
    sb: SuperBlock,
    m: InodeModel,
    from: int,
    to: int,
    data: Seq<u8>,
    offset: int,
    s: crate::inode::InodeStep<()>,
) -> bool {
    &&& crate::bitmap::formatted(s.disk, s.sb)
    &&& file_wf(s.disk, s.sb, s.inode)
    &&& s.inode.ftype == m.ftype
    &&& s.inode.mode == m.mode
    &&& m.size <= s.inode.size
    &&& s.inode.size <= m.size || s.inode.size <= to
    &&& forall|p: int|
        from <= p < to ==> #[trigger] byte_at(s.disk, s.sb, s.inode, p) == Some(data[p - offset])
    &&& forall|p: int|
        0 <= p < 71680 && !(from <= p < to) && byte_at(disk, sb, m, p) is Some ==> #[trigger] byte_at(
            s.disk,
            s.sb,
            s.inode,
            p,
        ) == byte_at(disk, sb, m, p)
}

/// One step of a write puts its chunk into the file and keeps the rest.
proof fn lemma_write_chunk(
    disk: Seq<Seq<u8>>,
    sb: SuperBlock,
    m: InodeModel,
    offset: int,
    data: Seq<u8>,
    done: int,
)
    requires
        crate::bitmap::formatted(disk, sb),
        file_wf(disk, sb, m),
        0 <= offset,
        0 <= done < data.len(),
        offset + done <= u64::MAX,
        crate::inode::spec_bmap(
            disk,
            sb,
            m,
            ((offset + done) / 512 * 512) as u64,
            true,
        ).res is Ok,
    ensures
        ({
            let cur = offset + done;
            let a = crate::inode::spec_bmap(disk, sb, m, (cur / 512 * 512) as u64, true);
            let b = a.res->Ok_0;
            let len = chunk_len(cur, data.len() as int, done);
            let d2 = a.disk.update(
                b as int,
                crate::codec::splice(a.disk[b as int], cur % 512, data.subrange(done, done + len)),
            );
            &&& 0 < len
            &&& done + len <= data.len()
            &&& cur / 512 < 140
            &&& (cur + len) % 512 == 0 || done + len == data.len()
            &&& wrote(
                disk,
                sb,
                m,
                cur,
                cur + len,
                data,
                offset,
                crate::inode::InodeStep { res: Ok(()), disk: d2, sb: a.sb, inode: a.inode },
            )
        }),
{
    let cur = offset + done;
    let off = (cur / 512 * 512) as u64;
    let idx = cur / 512;
    let a = crate::inode::spec_bmap(disk, sb, m, off, true);
    lemma_bmap_create(disk, sb, m, off);
    assert(off as int / 512 == idx);
    let b = a.res->Ok_0;
    let len = chunk_len(cur, data.len() as int, done);
    let chunk = data.subrange(done, done + len);
    let nb = crate::codec::splice(a.disk[b as int], cur % 512, chunk);
    let d2 = a.disk.update(b as int, nb);
    crate::bitmap::lemma_layout(a.sb);
    crate::bitmap::lemma_formatted_update(a.disk, a.sb, b as int, nb);
    let m2 = a.inode;
    // The block of indirect pointers is not the block written.
    assert(indirect_of(m2) != Some(b)) by {
        if block_of(disk, sb, m, idx) is Some {
            lemma_block_of_frame(disk, disk, sb, m2, m, idx);
        }
    }
    assert forall|k: int| 0 <= k < 140 implies #[trigger] block_of(d2, a.sb, m2, k) == block_of(
        a.disk,
        a.sb,
        m2,
        k,
    ) by {
        match indirect_of(m2) {
            Some(ib2) => {
                assert(in_use(a.disk, a.sb, ib2));
            },
            None => {},
        }
        lemma_block_of_frame(d2, a.disk, a.sb, m2, m2, k);
    }
    assert forall|x: u32| in_use(a.disk, a.sb, x) == in_use(d2, a.sb, x) by {
        crate::dir_laws::lemma_in_use_frame(d2, a.disk, a.sb, x);
    }
    assert forall|k: int| 0 <= k < 140 implies ((#[trigger] block_of(d2, a.sb, m2, k)) matches Some(
        bk,
    ) ==> in_use(d2, a.sb, bk) && Some(bk) != indirect_of(m2)) by {
        assert(block_of(d2, a.sb, m2, k) == block_of(a.disk, a.sb, m2, k));
        if k != idx {
            assert(block_of(a.disk, a.sb, m2, k) == block_of(disk, sb, m, k));
            match block_of(disk, sb, m, k) {
                Some(bk) => {
                    assert(in_use(disk, sb, bk));
                    assert(in_use(a.disk, a.sb, bk));
                    if indirect_of(m) is None {
                    }
                },
                None => {},
            }
        } else {
            if block_of(disk, sb, m, idx) is Some {
                lemma_block_of_frame(disk, disk, sb, m2, m, idx);
                assert(in_use(disk, sb, b));
                assert(in_use(a.disk, a.sb, b));
            }
        }
    }
    assert forall|k1: int, k2: int|
        0 <= k1 < k2 < 140 && (#[trigger] block_of(d2, a.sb, m2, k1)) is Some implies block_of(
        d2,
        a.sb,
        m2,
        k1,
    ) != #[trigger] block_of(d2, a.sb, m2, k2) by {
        assert(block_of(d2, a.sb, m2, k1) == block_of(a.disk, a.sb, m2, k1));
        assert(block_of(d2, a.sb, m2, k2) == block_of(a.disk, a.sb, m2, k2));
        if block_of(disk, sb, m, idx) is Some {
            lemma_block_of_frame(disk, disk, sb, m2, m, k1);
            lemma_block_of_frame(disk, disk, sb, m2, m, k2);
        } else {
            if k1 != idx {
                assert(block_of(a.disk, a.sb, m2, k1) == block_of(disk, sb, m, k1));
                assert(in_use(disk, sb, block_of(disk, sb, m, k1)->0));
            }
            if k2 != idx {
                assert(block_of(a.disk, a.sb, m2, k2) == block_of(disk, sb, m, k2));
                if block_of(disk, sb, m, k2) is Some {
                    assert(in_use(disk, sb, block_of(disk, sb, m, k2)->0));
                }
            }
        }
    }
    assert(file_wf(d2, a.sb, m2));
    assert forall|p: int| cur <= p < cur + len implies #[trigger] byte_at(d2, a.sb, m2, p) == Some(
        data[p - offset],
    ) by {
        assert(p / 512 == idx);
        assert(block_of(d2, a.sb, m2, idx) == block_of(a.disk, a.sb, m2, idx));
        assert(p % 512 == cur % 512 + (p - cur));
        assert(chunk[p - cur] == data[p - offset]);
    }
    assert forall|p: int|
        0 <= p < 71680 && !(cur <= p < cur + len) && byte_at(disk, sb, m, p) is Some implies #[trigger] byte_at(
        d2,
        a.sb,
        m2,
        p,
    ) == byte_at(disk, sb, m, p) by {
        let k = p / 512;
        let bk = block_of(disk, sb, m, k)->0;
        assert(block_of(d2, a.sb, m2, k) == block_of(a.disk, a.sb, m2, k));
        assert(in_use(disk, sb, bk));
        if k != idx {
            assert(block_of(a.disk, a.sb, m2, k) == block_of(disk, sb, m, k));
            assert(bk != b) by {
                if block_of(disk, sb, m, idx) is Some {
                    lemma_block_of_frame(disk, disk, sb, m2, m, idx);
                    if k < idx {
                        assert(block_of(disk, sb, m, k) != block_of(disk, sb, m, idx));
                    } else {
                        assert(block_of(disk, sb, m, idx) != block_of(disk, sb, m, k));
                    }
                }
            }
            assert(a.disk[bk as int] == disk[bk as int]);
        } else {
            lemma_block_of_frame(disk, disk, sb, m2, m, idx);
            assert(bk == b);
            assert(a.disk == disk);
        }
    }
}

/// The block by block part of a write puts the data into the file and
/// keeps every other byte that the file had.
pub proof fn lemma_fwrite_from(
    disk: Seq<Seq<u8>>,
    sb: SuperBlock,
    m: InodeModel,
    offset: int,
    data: Seq<u8>,
    done: int,
)
    requires
        crate::bitmap::formatted(disk, sb),
        file_wf(disk, sb, m),
        0 <= offset,
        0 <= done <= data.len(),
        offset + done <= u64::MAX,
        spec_fwrite_from(disk, sb, m, offset, data, done).res is Ok,
    ensures
        wrote(
            disk,
            sb,
            m,
            offset + done,
            offset + data.len(),
            data,
            offset,
            spec_fwrite_from(disk, sb, m, offset, data, done),
        ),
        done < data.len() ==> offset + data.len() <= 71680,
    decreases data.len() - done,
{
    let s = spec_fwrite_from(disk, sb, m, offset, data, done);
    if done < data.len() {
        let cur = offset + done;
        let a = crate::inode::spec_bmap(disk, sb, m, (cur / 512 * 512) as u64, true);
        lemma_write_chunk(disk, sb, m, offset, data, done);
        let b = a.res->Ok_0;
        let len = chunk_len(cur, data.len() as int, done);
        let d2 = a.disk.update(
            b as int,
            crate::codec::splice(a.disk[b as int], cur % 512, data.subrange(done, done + len)),
        );
        let s1 = crate::inode::InodeStep::<()> { res: Ok(()), disk: d2, sb: a.sb, inode: a.inode };
        assert(s == spec_fwrite_from(d2, a.sb, a.inode, offset, data, done + len));
        lemma_fwrite_from(d2, a.sb, a.inode, offset, data, done + len);
        assert forall|p: int| cur <= p < offset + data.len() implies #[trigger] byte_at(
            s.disk,
            s.sb,
            s.inode,
            p,
        ) == Some(data[p - offset]) by {
            if p < cur + len {
                assert(byte_at(d2, a.sb, a.inode, p) == Some(data[p - offset]));
            }
        }
        assert forall|p: int|
            0 <= p < 71680 && !(cur <= p < offset + data.len()) && byte_at(disk, sb, m, p)
                is Some implies #[trigger] byte_at(s.disk, s.sb, s.inode, p) == byte_at(
            disk,
            sb,
            m,
            p,
        ) by {
            assert(byte_at(d2, a.sb, a.inode, p) == byte_at(disk, sb, m, p));
        }
    }
}

/// A read over bytes that the file has gives these bytes.
pub proof fn lemma_fread_from(
    disk: Seq<Seq<u8>>,
    sb: SuperBlock,
    m: InodeModel,
    offset: int,
    n: int,
    done: int,
    expect: Seq<u8>,
)
    requires
        crate::bitmap::formatted(disk, sb),
        0 <= offset,
        0 <= done <= n,
        offset + n <= 71680,
        expect.len() == n,
        forall|p: int|
            offset + done <= p < offset + n ==> #[trigger] byte_at(disk, sb, m, p) == Some(
                expect[p - offset],
            ),
    ensures
        spec_fread_from(disk, sb, m, offset, n, done, expect.take(done)) == Ok::<Seq<u8>, FsError>(
            expect,
        ),
    decreases n - done,
{
    if done >= n {
        assert(expect.take(done) =~= expect);
    } else {
        let cur = offset + done;
        let off = (cur / 512 * 512) as u64;
        assert(byte_at(disk, sb, m, cur) is Some);
        let b = block_of(disk, sb, m, cur / 512)->0;
        crate::frame::lemma_bmap_lookup_data(disk, sb, m, off);
        let len = chunk_len(cur, n, done);
        let chunk = disk[b as int].subrange(cur % 512, cur % 512 + len);
        assert forall|i: int| 0 <= i < len implies #[trigger] chunk[i] == expect[done + i] by {
            let p = cur + i;
            assert(p / 512 == cur / 512);
            assert(p % 512 == cur % 512 + i);
            assert(byte_at(disk, sb, m, p) == Some(expect[p - offset]));
        }
        assert(expect.take(done) + chunk =~= expect.take(done + len));
        lemma_fread_from(disk, sb, m, offset, n, done + len, expect);
    }
}

/// What a write leaves in a file: the bytes written lie in the file from
/// `offset` on, every other byte that the file had is as before, the file
/// is sound, and its size is the end of the write or what it was, whichever
/// is more.
pub proof fn lemma_fwrite_bytes(
    disk: Seq<Seq<u8>>,
    sb: SuperBlock,
    m: InodeModel,
    offset: int,
    data: Seq<u8>,
)
    requires
        crate::bitmap::formatted(disk, sb),
        file_wf(disk, sb, m),
        0 <= offset <= u64::MAX,
        0 < data.len(),
        spec_fwrite(disk, sb, m, offset, data).res is Ok,
    ensures
        ({
            let s = spec_fwrite(disk, sb, m, offset, data);
            &&& crate::bitmap::formatted(s.disk, s.sb)
            &&& file_wf(s.disk, s.sb, s.inode)
            &&& s.inode.ftype == FileType::Regular
            &&& s.inode.mode == m.mode
            &&& s.inode.id == m.id
            &&& offset + data.len() <= 71680
            &&& s.inode.size == if offset + data.len() > m.size {
                offset + data.len()
            } else {
                m.size as int
            }
            &&& forall|p: int|
                offset <= p < offset + data.len() ==> #[trigger] byte_at(
                    s.disk,
                    s.sb,
                    s.inode,
                    p,
                ) == Some(data[p - offset])
            &&& forall|p: int|
                0 <= p < 71680 && !(offset <= p < offset + data.len()) && byte_at(disk, sb, m, p)
                    is Some ==> #[trigger] byte_at(s.disk, s.sb, s.inode, p) == byte_at(
                    disk,
                    sb,
                    m,
                    p,
                )
        }),
{
    reveal(spec_fwrite);
    let f = spec_fwrite(disk, sb, m, offset, data);
    let s = spec_fwrite_from(disk, sb, m, offset, data, 0);
    lemma_fwrite_from(disk, sb, m, offset, data, 0);
    lemma_fwrite_id(disk, sb, m, offset, data, 0);
    let m1 = if offset + data.len() > s.inode.size {
        InodeModel { size: (offset + data.len()) as u64, ..s.inode }
    } else {
        s.inode
    };
    let w = crate::inode::spec_write_inode(s.disk, s.sb, m1);
    lemma_write_inode_formatted(s.disk, s.sb, m1);
    crate::bitmap::lemma_layout(s.sb);
    assert(f.disk == w.disk && f.sb == s.sb && f.inode == m1);
    match indirect_of(s.inode) {
        Some(ib) => {
            assert(in_use(s.disk, s.sb, ib));
        },
        None => {},
    }
    assert forall|k: int| 0 <= k < 140 implies #[trigger] block_of(f.disk, f.sb, f.inode, k)
        == block_of(s.disk, s.sb, s.inode, k) by {
        lemma_block_of_frame(w.disk, s.disk, s.sb, m1, s.inode, k);
    }
    assert forall|p: int| 0 <= p < 71680 implies #[trigger] byte_at(f.disk, f.sb, f.inode, p)
        == byte_at(s.disk, s.sb, s.inode, p) by {
        assert(p / 512 < 140);
        assert(block_of(f.disk, f.sb, f.inode, p / 512) == block_of(s.disk, s.sb, s.inode, p / 512));
        match block_of(s.disk, s.sb, s.inode, p / 512) {
            Some(b) => {
                assert(in_use(s.disk, s.sb, b));
            },
            None => {},
        }
    }
    assert(file_wf(f.disk, f.sb, f.inode)) by {
        assert forall|k: int| 0 <= k < 140 implies ((#[trigger] block_of(f.disk, f.sb, f.inode, k)) matches Some(
            b,
        ) ==> in_use(f.disk, f.sb, b) && Some(b) != indirect_of(f.inode)) by {
            assert(block_of(f.disk, f.sb, f.inode, k) == block_of(s.disk, s.sb, s.inode, k));
        }
        assert forall|k1: int, k2: int|
            0 <= k1 < k2 < 140 && (#[trigger] block_of(f.disk, f.sb, f.inode, k1))
                is Some implies block_of(f.disk, f.sb, f.inode, k1) != #[trigger] block_of(
            f.disk,
            f.sb,
            f.inode,
            k2,
        ) by {
            assert(block_of(f.disk, f.sb, f.inode, k1) == block_of(s.disk, s.sb, s.inode, k1));
            assert(block_of(f.disk, f.sb, f.inode, k2) == block_of(s.disk, s.sb, s.inode, k2));
        }
    }
    assert forall|p: int| offset <= p < offset + data.len() implies #[trigger] byte_at(
        f.disk,
        f.sb,
        f.inode,
        p,
    ) == Some(data[p - offset]) by {
        assert(byte_at(s.disk, s.sb, s.inode, p) == Some(data[p - offset]));
    }
    assert forall|p: int|
        0 <= p < 71680 && !(offset <= p < offset + data.len()) && byte_at(disk, sb, m, p)
            is Some implies #[trigger] byte_at(f.disk, f.sb, f.inode, p) == byte_at(
        disk,
        sb,
        m,
        p,
    ) by {
        assert(byte_at(s.disk, s.sb, s.inode, p) == byte_at(disk, sb, m, p));
    }
}

/// The block by block part of a write keeps the id of the file.
proof fn lemma_fwrite_id(
    disk: Seq<Seq<u8>>,
    sb: SuperBlock,
    m: InodeModel,
    offset: int,
    data: Seq<u8>,
    done: int,
)
    requires
        crate::bitmap::formatted(disk, sb),
        file_wf(disk, sb, m),
        0 <= offset,
        0 <= done <= data.len(),
        offset + done <= u64::MAX,
        spec_fwrite_from(disk, sb, m, offset, data, done).res is Ok,
    ensures
        spec_fwrite_from(disk, sb, m, offset, data, done).inode.id == m.id,
    decreases data.len() - done,
{
    if done < data.len() {
        let cur = offset + done;
        let off = (cur / 512 * 512) as u64;
        let a = crate::inode::spec_bmap(disk, sb, m, off, true);
        lemma_write_chunk(disk, sb, m, offset, data, done);
        crate::dir_laws::lemma_bmap_create(disk, sb, m, off);
        let b = a.res->Ok_0;
        let len = chunk_len(cur, data.len() as int, done);
        let d2 = a.disk.update(
            b as int,
            crate::codec::splice(a.disk[b as int], cur % 512, data.subrange(done, done + len)),
        );
        lemma_fwrite_id(d2, a.sb, a.inode, offset, data, done + len);
    }
}

/// A read gives the bytes that the file has: where the file holds a byte
/// at each position from `offset` to `offset + n`, inside its size, a read
/// of `n` bytes at `offset` gives these bytes.
pub proof fn lemma_fread_bytes(
    disk: Seq<Seq<u8>>,
    sb: SuperBlock,
    m: InodeModel,
    offset: int,
    expect: Seq<u8>,
)
    requires
        crate::bitmap::formatted(disk, sb),
        m.ftype == FileType::Regular,
        0 <= offset,
        offset + expect.len() <= m.size,
        offset + expect.len() <= 71680,
        forall|p: int|
            offset <= p < offset + expect.len() ==> #[trigger] byte_at(disk, sb, m, p) == Some(
                expect[p - offset],
            ),
    ensures
        spec_fread(disk, sb, m, offset, expect.len() as int) == Ok::<Seq<u8>, FsError>(expect),
{
    reveal(spec_fread);
    assert(expect.take(0) =~= Seq::<u8>::empty());
    lemma_fread_from(disk, sb, m, offset, expect.len() as int, 0, expect);
}

/// A read gives back what was written: after a write of some bytes to a
/// file with sound blocks, a read of these bytes, or of the last of them from
/// any position on, gives exactly the bytes written.
pub proof fn lemma_read_after_write(
    disk: Seq<Seq<u8>>,
    sb: SuperBlock,
    m: InodeModel,
    offset: int,
    data: Seq<u8>,
    k: int,
)
    requires
        crate::bitmap::formatted(disk, sb),
        file_wf(disk, sb, m),
        0 <= offset <= u64::MAX,
        0 < data.len(),
        0 <= k <= data.len(),
        spec_fwrite(disk, sb, m, offset, data).res is Ok,
    ensures
        ({
            let s = spec_fwrite(disk, sb, m, offset, data);
            spec_fread(s.disk, s.sb, s.inode, offset + k, data.len() - k) == Ok::<
                Seq<u8>,
                FsError,
            >(data.skip(k))
        }),
{
    let f = spec_fwrite(disk, sb, m, offset, data);
    lemma_fwrite_bytes(disk, sb, m, offset, data);
    lemma_fread_bytes(f.disk, f.sb, f.inode, offset + k, data.skip(k));
}

/// A write keeps what the file held elsewhere: bytes of the file that lie
/// outside the range of a later write are read after it as they were
/// written.
pub proof fn lemma_read_after_later_write(
    disk: Seq<Seq<u8>>,
    sb: SuperBlock,
    m: InodeModel,
    offset: int,
    data: Seq<u8>,
    at: int,
    earlier: Seq<u8>,
)
    requires
        crate::bitmap::formatted(disk, sb),
        file_wf(disk, sb, m),
        0 <= offset <= u64::MAX,
        0 < data.len(),
        spec_fwrite(disk, sb, m, offset, data).res is Ok,
        0 <= at,
        at + earlier.len() <= m.size,
        at + earlier.len() <= 71680,
        at + earlier.len() <= offset || offset + data.len() <= at,
        forall|p: int|
            at <= p < at + earlier.len() ==> #[trigger] byte_at(disk, sb, m, p) == Some(
                earlier[p - at],
            ),
    ensures
        ({
            let s = spec_fwrite(disk, sb, m, offset, data);
            spec_fread(s.disk, s.sb, s.inode, at, earlier.len() as int) == Ok::<
                Seq<u8>,
                FsError,
            >(earlier)
        }),
{
    let f = spec_fwrite(disk, sb, m, offset, data);
    lemma_fwrite_bytes(disk, sb, m, offset, data);
    assert forall|p: int| at <= p < at + earlier.len() implies #[trigger] byte_at(
        f.disk,
        f.sb,
        f.inode,
        p,
    ) == Some(earlier[p - at]) by {
        assert(byte_at(disk, sb, m, p) == Some(earlier[p - at]));
    }
    lemma_fread_bytes(f.disk, f.sb, f.inode, at, earlier);
}

/// A read ends at a hole: where the file has no block at the position of
/// the read, inside its size, the read succeeds and gives no byte.
pub proof fn lemma_read_hole(disk: Seq<Seq<u8>>, sb: SuperBlock, m: InodeModel, offset: int, len: int)
    requires
        m.ftype == FileType::Regular,
        0 <= offset < m.size,
        0 < len,
        crate::inode::spec_bmap_lookup(disk, sb, m, (offset / 512 * 512) as u64) == Ok::<
            Option<u32>,
            FsError,
        >(None),
    ensures
        spec_fread(disk, sb, m, offset, len) == Ok::<Seq<u8>, FsError>(Seq::empty()),
{
    reveal(spec_fread);
}

} // verus!
