//! How the records lie on disk: fixed-width little-endian fields without
//! padding between them.
//!
//! A superblock fills the start of block 0 with fourteen 32-bit fields. An
//! inode record has 128 bytes: type (1), mode (1), id (4), blocks (4), links
//! (4), payload (104), size (8), two bytes of padding. The payload is twelve
//! direct pointers and one indirect pointer, or the path of a symbolic link.
//! A directory entry has 64 bytes: inode id (4) and name (60).

use vstd::prelude::*;
use crate::codec::{copy_into, read_u32, read_u64, write_u32, write_u64};
use crate::config::{
    BLOCK_SIZE, DIR_ENTRY_SIZE, INODE_SIZE, MAX_FILE_NAME_LEN, MAX_PATH_LEN, NUM_DIRECT_PTRS,
};
use crate::structs::{
    BlockPtr, BlockPtrModel, DirEntry, EntryModel, FileType, Inode, InodeModel, InodePtr, Mode,
    PayloadModel, SuperBlock,
};

verus! {

/// The fields of a superblock in the order in which they lie on disk.
pub open spec fn sb_fields(sb: SuperBlock) -> Seq<u32> {
    seq![
        sb.magic,
        sb.num_blocks,
        sb.block_size,
        sb.free_blocks,
        sb.num_inodes,
        sb.free_inodes,
        sb.root_inode,
        sb.data_bitmap_start,
        sb.data_bitmap_blocks,
        sb.inode_bitmap_start,
        sb.inode_bitmap_blocks,
        sb.inode_table_start,
        sb.inode_table_blocks,
        sb.data_start,
    ]
}

/// The block that holds `sb`.
pub open spec fn encode_sb(sb: SuperBlock) -> Seq<u8> {
    Seq::new(
        BLOCK_SIZE as nat,
        |i: int|
            if i < 56 {
                crate::codec::le32(sb_fields(sb)[i / 4])[i % 4]
            } else {
                0u8
            },
    )
}

/// The superblock that a block holds.
pub open spec fn decode_sb(block: Seq<u8>) -> SuperBlock {
    SuperBlock {
        magic: crate::codec::get32(block, 0),
        num_blocks: crate::codec::get32(block, 4),
        block_size: crate::codec::get32(block, 8),
        free_blocks: crate::codec::get32(block, 12),
        num_inodes: crate::codec::get32(block, 16),
        free_inodes: crate::codec::get32(block, 20),
        root_inode: crate::codec::get32(block, 24),
        data_bitmap_start: crate::codec::get32(block, 28),
        data_bitmap_blocks: crate::codec::get32(block, 32),
        inode_bitmap_start: crate::codec::get32(block, 36),
        inode_bitmap_blocks: crate::codec::get32(block, 40),
        inode_table_start: crate::codec::get32(block, 44),
        inode_table_blocks: crate::codec::get32(block, 48),
        data_start: crate::codec::get32(block, 52),
    }
}

/// A block pointer as it lies on disk: 0 stands for an absent pointer.
pub open spec fn ptr_code(p: Option<u32>) -> u32 {
    match p {
        Some(b) => b,
        None => 0,
    }
}

/// The block pointer that an integer on disk stands for.
pub open spec fn ptr_of(x: u32) -> Option<u32> {
    if x == 0 {
        None
    } else {
        Some(x)
    }
}

/// The 104 bytes of a payload.
pub open spec fn encode_payload(p: PayloadModel) -> Seq<u8> {
    match p {
        PayloadModel::Path(b) => Seq::new(
            MAX_PATH_LEN as nat,
            |i: int| if i < b.len() { b[i] } else { 0u8 },
        ),
        PayloadModel::Blocks(bp) => Seq::new(
            MAX_PATH_LEN as nat,
            |i: int|
                if i < 48 {
                    crate::codec::le32(ptr_code(bp.direct[i / 4]))[i % 4]
                } else if i < 52 {
                    crate::codec::le32(ptr_code(bp.indirect))[i - 48]
                } else {
                    0u8
                },
        ),
    }
}

/// The 128 bytes of an inode record.
pub open spec fn encode_inode(m: InodeModel) -> Seq<u8> {
    Seq::new(
        INODE_SIZE as nat,
        |i: int|
            if i == 0 {
                m.ftype.code()
            } else if i == 1 {
                m.mode.code()
            } else if i < 6 {
                crate::codec::le32(m.id)[i - 2]
            } else if i < 10 {
                crate::codec::le32(m.blocks)[i - 6]
            } else if i < 14 {
                crate::codec::le32(m.links_cnt)[i - 10]
            } else if i < 118 {
                encode_payload(m.payload)[i - 14]
            } else if i < 126 {
                crate::codec::le64(m.size)[i - 118]
            } else {
                0u8
            },
    )
}

/// The inode that a record of 128 bytes holds, where its type and mode bytes
/// are valid.
pub open spec fn decode_inode(rec: Seq<u8>) -> Option<InodeModel> {
    match (FileType::of_code(rec[0]), Mode::of_code(rec[1])) {
        (Some(ftype), Some(mode)) => Some(
            InodeModel {
                ftype,
                mode,
                id: crate::codec::get32(rec, 2),
                blocks: crate::codec::get32(rec, 6),
                links_cnt: crate::codec::get32(rec, 10),
                payload: if ftype == FileType::Symlink {
                    PayloadModel::Path(rec.subrange(14, 118))
                } else {
                    PayloadModel::Blocks(
                        BlockPtrModel {
                            indirect: ptr_of(crate::codec::get32(rec, 62)),
                            direct: Seq::new(
                                NUM_DIRECT_PTRS as nat,
                                |i: int| ptr_of(crate::codec::get32(rec, 14 + 4 * i)),
                            ),
                        },
                    )
                },
                size: crate::codec::get64(rec, 118),
            },
        ),
        _ => None,
    }
}

/// The 64 bytes of a directory entry.
pub open spec fn encode_entry(e: EntryModel) -> Seq<u8> {
    Seq::new(
        DIR_ENTRY_SIZE as nat,
        |i: int| if i < 4 { crate::codec::le32(e.inode_id)[i] } else { e.name[i - 4] },
    )
}

/// The directory entry that 64 bytes hold.
pub open spec fn decode_entry(bytes: Seq<u8>) -> EntryModel {
    EntryModel { inode_id: crate::codec::get32(bytes, 0), name: bytes.subrange(4, 64) }
}

/// An integer is read back from the place where its four bytes lie.
pub proof fn lemma_get32_bytes(s: Seq<u8>, off: int, x: u32)
    requires
        0 <= off,
        off + 4 <= s.len(),
        forall|j: int| 0 <= j < 4 ==> s[off + j] == crate::codec::le32(x)[j],
    ensures
        crate::codec::get32(s, off) == x,
{
    crate::codec::lemma_le32_roundtrip(x);
    assert(s[off] == crate::codec::le32(x)[0]);
    assert(s[off + 1] == crate::codec::le32(x)[1]);
    assert(s[off + 2] == crate::codec::le32(x)[2]);
    assert(s[off + 3] == crate::codec::le32(x)[3]);
}

/// A 64-bit integer is read back from the place where its eight bytes lie.
pub proof fn lemma_get64_bytes(s: Seq<u8>, off: int, x: u64)
    requires
        0 <= off,
        off + 8 <= s.len(),
        forall|j: int| 0 <= j < 8 ==> s[off + j] == crate::codec::le64(x)[j],
    ensures
        crate::codec::get64(s, off) == x,
{
    crate::codec::lemma_le64_roundtrip(x);
    let t = crate::codec::le64(x);
    assert(t.len() == 8);
    assert forall|j: int| 0 <= j < 8 implies s[off + j] == t[j] by {}
    assert(s[off] == t[0] && s[off + 1] == t[1] && s[off + 2] == t[2] && s[off + 3] == t[3]);
    assert(s[off + 4] == t[4] && s[off + 5] == t[5] && s[off + 6] == t[6] && s[off + 7]
        == t[7]);
    assert(crate::codec::get32(s, off) == crate::codec::get32(t, 0));
    assert(crate::codec::get32(s, off + 4) == crate::codec::get32(t, 4));
}

/// Field `k` of a superblock is read back from its place in the block.
proof fn lemma_sb_field(sb: SuperBlock, k: int)
    requires
        0 <= k < 14,
    ensures
        crate::codec::get32(encode_sb(sb), 4 * k) == sb_fields(sb)[k],
{
    let s = encode_sb(sb);
    let x = sb_fields(sb)[k];
    assert forall|j: int| 0 <= j < 4 implies s[4 * k + j] == crate::codec::le32(x)[j] by {
        assert((4 * k + j) / 4 == k);
        assert((4 * k + j) % 4 == j);
    }
    lemma_get32_bytes(s, 4 * k, x);
}

/// A superblock is read back from the block that holds it.
pub proof fn lemma_sb_roundtrip(sb: SuperBlock)
    ensures
        encode_sb(sb).len() == BLOCK_SIZE,
        decode_sb(encode_sb(sb)) == sb,
{
    lemma_sb_field(sb, 0);
    lemma_sb_field(sb, 1);
    lemma_sb_field(sb, 2);
    lemma_sb_field(sb, 3);
    lemma_sb_field(sb, 4);
    lemma_sb_field(sb, 5);
    lemma_sb_field(sb, 6);
    lemma_sb_field(sb, 7);
    lemma_sb_field(sb, 8);
    lemma_sb_field(sb, 9);
    lemma_sb_field(sb, 10);
    lemma_sb_field(sb, 11);
    lemma_sb_field(sb, 12);
    lemma_sb_field(sb, 13);
}

/// A well-formed inode is read back from the record that holds it.
pub proof fn lemma_inode_roundtrip(m: InodeModel)
    requires
        m.wf(),
    ensures
        encode_inode(m).len() == INODE_SIZE,
        decode_inode(encode_inode(m)) == Some(m),
{
    let s = encode_inode(m);
    assert(FileType::of_code(s[0]) == Some(m.ftype));
    assert(Mode::of_code(s[1]) == Some(m.mode));
    crate::codec::lemma_le32_roundtrip(m.id);
    crate::codec::lemma_le32_roundtrip(m.blocks);
    crate::codec::lemma_le32_roundtrip(m.links_cnt);
    crate::codec::lemma_le64_roundtrip(m.size);
    lemma_get32_bytes(s, 2, m.id);
    lemma_get32_bytes(s, 6, m.blocks);
    lemma_get32_bytes(s, 10, m.links_cnt);
    lemma_get64_bytes(s, 118, m.size);
    let d = decode_inode(s)->0;
    match m.payload {
        PayloadModel::Path(p) => {
            assert(d.payload == PayloadModel::Path(s.subrange(14, 118)));
            assert(s.subrange(14, 118) =~= p);
        },
        PayloadModel::Blocks(bp) => {
            let pb = encode_payload(m.payload);
            assert forall|k: int| 0 <= k < 12 implies ptr_of(crate::codec::get32(s, 14 + 4 * k))
                == #[trigger] bp.direct[k] by {
                let x = ptr_code(bp.direct[k]);
                crate::codec::lemma_le32_roundtrip(x);
                assert forall|j: int| 0 <= j < 4 implies s[14 + 4 * k + j] == crate::codec::le32(
                    x,
                )[j] by {
                    assert(s[14 + 4 * k + j] == pb[4 * k + j]);
                    assert((4 * k + j) / 4 == k);
                    assert((4 * k + j) % 4 == j);
                }
                lemma_get32_bytes(s, 14 + 4 * k, x);
            }
            let xi = ptr_code(bp.indirect);
            crate::codec::lemma_le32_roundtrip(xi);
            assert forall|j: int| 0 <= j < 4 implies s[62 + j] == crate::codec::le32(xi)[j] by {
                assert(s[62 + j] == pb[48 + j]);
            }
            lemma_get32_bytes(s, 62, xi);
            let dbp = d.payload->Blocks_0;
            assert(dbp.direct =~= bp.direct);
            assert(dbp.indirect == bp.indirect);
        },
    }
}

/// A directory entry with a name of 60 bytes is read back from its 64 bytes.
pub proof fn lemma_entry_roundtrip(e: EntryModel)
    requires
        e.name.len() == MAX_FILE_NAME_LEN,
    ensures
        encode_entry(e).len() == DIR_ENTRY_SIZE,
        decode_entry(encode_entry(e)) == e,
{
    let s = encode_entry(e);
    crate::codec::lemma_le32_roundtrip(e.inode_id);
    lemma_get32_bytes(s, 0, e.inode_id);
    assert(s.subrange(4, 64) =~= e.name);
}

/// The block that holds `sb`: its fields, then zeros.
pub fn sb_to_block(sb: &SuperBlock) -> (block: [u8; BLOCK_SIZE])
    ensures
        block@ == encode_sb(*sb),
{
    let fields: [u32; 14] = [
        sb.magic,
        sb.num_blocks,
        sb.block_size,
        sb.free_blocks,
        sb.num_inodes,
        sb.free_inodes,
        sb.root_inode,
        sb.data_bitmap_start,
        sb.data_bitmap_blocks,
        sb.inode_bitmap_start,
        sb.inode_bitmap_blocks,
        sb.inode_table_start,
        sb.inode_table_blocks,
        sb.data_start,
    ];
    assert(fields@ =~= sb_fields(*sb));
    let mut block = [0u8;BLOCK_SIZE];
    let mut i: usize = 0;
    while i < 14
        invariant
            i <= 14,
            fields@ == sb_fields(*sb),
            forall|p: int| 0 <= p < 4 * i ==> block@[p] == crate::codec::le32(fields@[p / 4])[p % 4],
            forall|p: int| 4 * i <= p < BLOCK_SIZE ==> block@[p] == 0u8,
        decreases 14 - i,
    {
        write_u32(&mut block, 4 * i, fields[i]);
        proof {
            crate::codec::lemma_le32_roundtrip(fields@[i as int]);
            assert forall|p: int| 0 <= p < 4 * (i + 1) implies block@[p] == crate::codec::le32(
                fields@[p / 4],
            )[p % 4] by {
                if p >= 4 * i {
                    assert(p / 4 == i);
                    assert(p % 4 == p - 4 * i);
                }
            }
        }
        i += 1;
    }
    assert(block@ =~= encode_sb(*sb));
    block
}

/// The superblock that `block` holds.
pub fn sb_from_block(block: &[u8; BLOCK_SIZE]) -> (sb: SuperBlock)
    ensures
        sb == decode_sb(block@),
{
    SuperBlock {
        magic: read_u32(block, 0),
        num_blocks: read_u32(block, 4),
        block_size: read_u32(block, 8),
        free_blocks: read_u32(block, 12),
        num_inodes: read_u32(block, 16),
        free_inodes: read_u32(block, 20),
        root_inode: read_u32(block, 24),
        data_bitmap_start: read_u32(block, 28),
        data_bitmap_blocks: read_u32(block, 32),
        inode_bitmap_start: read_u32(block, 36),
        inode_bitmap_blocks: read_u32(block, 40),
        inode_table_start: read_u32(block, 44),
        inode_table_blocks: read_u32(block, 48),
        data_start: read_u32(block, 52),
    }
}

/// The number that stands for a block pointer on disk: 0 where there is
/// none.
fn ptr_to_u32(p: Option<u32>) -> (x: u32)
    ensures
        x == ptr_code(p),
{
    match p {
        Some(b) => b,
        None => 0,
    }
}

/// The block pointer that a number on disk stands for.
fn ptr_from_u32(x: u32) -> (p: Option<u32>)
    ensures
        p == ptr_of(x),
{
    if x == 0 {
        None
    } else {
        Some(x)
    }
}

/// The 104 bytes of a payload.
pub fn payload_to_bytes(p: &InodePtr) -> (bytes: [u8; MAX_PATH_LEN])
    ensures
        bytes@ == encode_payload(p@),
{
    match p {
        InodePtr::Path(path) => {
            assert(path@ =~= encode_payload(p@));
            *path
        },
        InodePtr::Blocks(bp) => {
            let mut bytes = [0u8;MAX_PATH_LEN];
            let mut i: usize = 0;
            while i < NUM_DIRECT_PTRS
                invariant
                    i <= NUM_DIRECT_PTRS,
                    forall|q: int|
                        0 <= q < 4 * i ==> bytes@[q] == crate::codec::le32(
                            ptr_code(bp.direct@[q / 4]),
                        )[q % 4],
                    forall|q: int| 4 * i <= q < MAX_PATH_LEN ==> bytes@[q] == 0u8,
                decreases NUM_DIRECT_PTRS - i,
            {
                let x = ptr_to_u32(bp.direct[i]);
                write_u32(&mut bytes, 4 * i, x);
                proof {
                    crate::codec::lemma_le32_roundtrip(x);
                    assert forall|q: int| 0 <= q < 4 * (i + 1) implies bytes@[q]
                        == crate::codec::le32(ptr_code(bp.direct@[q / 4]))[q % 4] by {
                        if q >= 4 * i {
                            assert(q / 4 == i);
                            assert(q % 4 == q - 4 * i);
                        }
                    }
                }
                i += 1;
            }
            let xi = ptr_to_u32(bp.indirect);
            write_u32(&mut bytes, 48, xi);
            proof {
                crate::codec::lemma_le32_roundtrip(xi);
            }
            assert(bytes@ =~= encode_payload(p@));
            bytes
        },
    }
}

/// The 128 bytes of the record of `inode`.
pub fn inode_to_bytes(inode: &Inode) -> (rec: [u8; INODE_SIZE])
    ensures
        rec@ == encode_inode(inode@),
{
    let mut rec = [0u8;INODE_SIZE];
    rec[0] = inode.ftype.to_byte();
    rec[1] = inode.mode.to_byte();
    write_u32(&mut rec, 2, inode.id);
    write_u32(&mut rec, 6, inode.blocks);
    write_u32(&mut rec, 10, inode.links_cnt);
    let payload = payload_to_bytes(&inode.inode_ptr);
    copy_into(&mut rec, 14, &payload);
    write_u64(&mut rec, 118, inode.size);
    proof {
        crate::codec::lemma_le32_roundtrip(inode.id);
        crate::codec::lemma_le32_roundtrip(inode.blocks);
        crate::codec::lemma_le32_roundtrip(inode.links_cnt);
        crate::codec::lemma_le64_roundtrip(inode.size);
    }
    assert(rec@ =~= encode_inode(inode@));
    rec
}

/// The inode whose record lies at `off` in `buf`, where its type and mode
/// bytes are valid.
pub fn inode_from_bytes(buf: &[u8], off: usize) -> (r: Option<Inode>)
    requires
        off + INODE_SIZE <= buf@.len(),
    ensures
        match r {
            Some(inode) => decode_inode(buf@.subrange(off as int, off + INODE_SIZE)) == Some(
                inode@,
            ),
            None => decode_inode(buf@.subrange(off as int, off + INODE_SIZE)) is None,
        },
{
    let len = buf.len();
    let ghost rec = buf@.subrange(off as int, off + INODE_SIZE);
    let ftype = match FileType::from_byte(buf[off]) {
        Some(t) => t,
        None => {
            return None;
        },
    };
    let mode = match Mode::from_byte(buf[off + 1]) {
        Some(m) => m,
        None => {
            return None;
        },
    };
    let id = read_u32(buf, off + 2);
    let blocks = read_u32(buf, off + 6);
    let links_cnt = read_u32(buf, off + 10);
    let size = read_u64(buf, off + 118);
    let inode_ptr = match ftype {
        FileType::Symlink => {
            let mut path = [0u8;MAX_PATH_LEN];
            let mut i: usize = 0;
            while i < MAX_PATH_LEN
                invariant
                    i <= MAX_PATH_LEN,
                    off + INODE_SIZE <= buf@.len(),
                    len == buf@.len(),
                    forall|q: int| 0 <= q < i ==> path@[q] == buf@[off + 14 + q],
                decreases MAX_PATH_LEN - i,
            {
                path[i] = buf[off + 14 + i];
                i += 1;
            }
            assert(path@ =~= rec.subrange(14, 118));
            InodePtr::Path(path)
        },
        _ => {
            let mut direct: [Option<u32>; NUM_DIRECT_PTRS] = [None;NUM_DIRECT_PTRS];
            let mut i: usize = 0;
            while i < NUM_DIRECT_PTRS
                invariant
                    i <= NUM_DIRECT_PTRS,
                    off + INODE_SIZE <= buf@.len(),
                    len == buf@.len(),
                    forall|q: int|
                        0 <= q < i ==> direct@[q] == ptr_of(
                            crate::codec::get32(buf@, off + 14 + 4 * q),
                        ),
                decreases NUM_DIRECT_PTRS - i,
            {
                direct[i] = ptr_from_u32(read_u32(buf, off + 14 + 4 * i));
                i += 1;
            }
            let indirect = ptr_from_u32(read_u32(buf, off + 62));
            let bp = BlockPtr { indirect, direct };
            assert(bp@.direct =~= Seq::new(
                NUM_DIRECT_PTRS as nat,
                |i: int| ptr_of(crate::codec::get32(rec, 14 + 4 * i)),
            ));
            InodePtr::Blocks(bp)
        },
    };
    Some(Inode { ftype, mode, id, blocks, links_cnt, inode_ptr, size })
}

/// The 64 bytes of `entry`.
pub fn entry_to_bytes(entry: &DirEntry) -> (bytes: [u8; DIR_ENTRY_SIZE])
    ensures
        bytes@ == encode_entry(entry@),
{
    let mut bytes = [0u8;DIR_ENTRY_SIZE];
    write_u32(&mut bytes, 0, entry.inode_id);
    copy_into(&mut bytes, 4, &entry.name);
    proof {
        crate::codec::lemma_le32_roundtrip(entry.inode_id);
    }
    assert(bytes@ =~= encode_entry(entry@));
    bytes
}

/// The directory entry that lies at `off` in `buf`.
pub fn entry_from_bytes(buf: &[u8], off: usize) -> (entry: DirEntry)
    requires
        off + DIR_ENTRY_SIZE <= buf@.len(),
    ensures
        entry@ == decode_entry(buf@.subrange(off as int, off + DIR_ENTRY_SIZE)),
{
    let len = buf.len();
    let inode_id = read_u32(buf, off);
    let mut name = [0u8;MAX_FILE_NAME_LEN];
    let mut i: usize = 0;
    while i < MAX_FILE_NAME_LEN
        invariant
            i <= MAX_FILE_NAME_LEN,
            off + DIR_ENTRY_SIZE <= buf@.len(),
            len == buf@.len(),
            forall|q: int| 0 <= q < i ==> name@[q] == buf@[off + 4 + q],
        decreases MAX_FILE_NAME_LEN - i,
    {
        name[i] = buf[off + 4 + i];
        i += 1;
    }
    assert(name@ =~= buf@.subrange(off as int, off + DIR_ENTRY_SIZE).subrange(4, 64));
    DirEntry { inode_id, name }
}

} // verus!
