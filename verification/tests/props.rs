#![allow(unused)]

use muon::bmap;
use muon::canonicalize;
use muon::dir_add_entry;
use muon::dir_lookup;
use muon::dir_rm_entry;
use muon::fread;
use muon::fwrite;
use muon::ftruncate;
use muon::get_inode;
use muon::resolve;
use muon::resolve_without_last;
use muon::split;
use muon::trim_zero;
use muon::write_inode;
use muon::BlockDevice;
use muon::DirEntry;
use muon::FileSystem;
use muon::FileType;
use muon::FsError;
use muon::Inode;
use muon::InodePtr;
use muon::Mode;
use muon::RamDisk;
use muon::SuperBlock;
use muon::BLOCK_SIZE;
use muon::MAX_PATH_LEN;

fn new_fs() -> FileSystem<RamDisk> {
    FileSystem::format(RamDisk::new(64), 64, 80).unwrap()
}

/// The number of set bits among the first `total` bits of the bitmap that
/// starts at block `start`.
fn count_bits(disk: &mut RamDisk, start: u32, total: u32) -> u32 {
    let mut n = 0;
    let mut buf = [0u8; BLOCK_SIZE];
    for i in 0..total {
        if i % 4096 == 0 {
            disk.read_block(start + i / 4096, &mut buf).unwrap();
        }
        let p = (i % 4096) as usize;
        if buf[p / 8] & (1 << (p % 8)) != 0 {
            n += 1;
        }
    }
    n
}

fn bit_is_set(disk: &mut RamDisk, start: u32, i: u32) -> bool {
    let mut buf = [0u8; BLOCK_SIZE];
    disk.read_block(start + i / 4096, &mut buf).unwrap();
    let p = (i % 4096) as usize;
    buf[p / 8] & (1 << (p % 8)) != 0
}

#[test]
fn layout_of_a_small_disk() {
    let sb = SuperBlock::new(64, 80).unwrap();
    assert_eq!(sb.magic, 0x4D554F4E);
    assert_eq!(sb.block_size, 512);
    assert_eq!(sb.root_inode, 1);
    assert_eq!(sb.data_bitmap_start, 1);
    assert_eq!(sb.data_bitmap_blocks, 1);
    assert_eq!(sb.inode_bitmap_start, 2);
    assert_eq!(sb.inode_bitmap_blocks, 1);
    assert_eq!(sb.inode_table_start, 3);
    assert_eq!(sb.inode_table_blocks, 20);
    assert_eq!(sb.data_start, 23);
    assert_eq!(sb.free_blocks, 41);
    assert_eq!(sb.free_inodes, 80);
}

#[test]
fn layout_of_a_large_disk() {
    let sb = SuperBlock::new(10000, 5000).unwrap();
    assert_eq!(sb.data_bitmap_blocks, 3);
    assert_eq!(sb.inode_bitmap_start, 4);
    assert_eq!(sb.inode_bitmap_blocks, 2);
    assert_eq!(sb.inode_table_start, 6);
    assert_eq!(sb.inode_table_blocks, 1250);
    assert_eq!(sb.data_start, 1256);
    assert_eq!(sb.free_blocks, 10000 - 1256);
    // Exactly one bitmap block for 4096 items, two for 4097.
    assert_eq!(SuperBlock::new(4096, 4096).unwrap().data_bitmap_blocks, 1);
    assert_eq!(SuperBlock::new(8000, 4097).unwrap().inode_bitmap_blocks, 2);
}

#[test]
fn layout_without_room_is_refused() {
    assert_eq!(SuperBlock::new(0, 80).unwrap_err(), FsError::InvalidSuperBlock);
    assert_eq!(SuperBlock::new(64, 0).unwrap_err(), FsError::InvalidSuperBlock);
    // 1 + 1 + 1 + 20 blocks of metadata leave no data block on 23 blocks.
    assert_eq!(SuperBlock::new(23, 80).unwrap_err(), FsError::InvalidSuperBlock);
    assert!(SuperBlock::new(24, 80).is_ok());
}

#[test]
fn format_needs_a_device_that_is_large_enough() {
    let r = FileSystem::format(RamDisk::new(32), 64, 80);
    assert_eq!(r.err(), Some(FsError::InvalidBlockId));
}

#[test]
fn mount_refuses_a_disk_without_a_superblock() {
    let r = FileSystem::mount(RamDisk::new(64));
    assert_eq!(r.err(), Some(FsError::InvalidSuperBlock));
    let r = FileSystem::mount(RamDisk::new(0));
    assert_eq!(r.err(), Some(FsError::InvalidBlockId));
}

#[test]
fn mount_refuses_free_counts_that_disagree_with_the_bitmaps() {
    let fs = new_fs();
    let mut sb = *fs.superblock();
    let mut disk = fs.into_device();
    sb.free_inodes -= 1;
    muon::write_superblock(&mut disk, &sb).unwrap();
    assert_eq!(FileSystem::mount(disk).err(), Some(FsError::InvalidSuperBlock));
}

#[test]
fn set_bits_of_the_inode_bitmap_are_the_inodes_in_use() {
    let mut fs = new_fs();
    for i in 0..10 {
        fs.creat(&format!("/f{}", i), FileType::Regular, Mode::RW).unwrap();
    }
    fs.creat("/d", FileType::Directory, Mode::RW).unwrap();
    fs.creat("/d/x", FileType::Regular, Mode::RW).unwrap();
    fs.fwrite("/d/x", 0, &[7u8; 2000]).unwrap();
    for i in 0..10 {
        if i % 2 == 0 {
            fs.remove(&format!("/f{}", i), FileType::Regular).unwrap();
        }
    }
    // A failed operation keeps the counts right as well.
    assert!(fs.creat("/d", FileType::Directory, Mode::RW).is_err());
    assert!(fs.remove("/nope", FileType::Regular).is_err());
    let sb = *fs.superblock();
    let mut disk = fs.into_device();
    let used_inodes = count_bits(&mut disk, sb.inode_bitmap_start, sb.num_inodes);
    assert_eq!(used_inodes, sb.num_inodes - sb.free_inodes);
    assert_eq!(used_inodes, 2 + 5 + 2);
    let data_blocks = sb.num_blocks - sb.data_start;
    let used_blocks = count_bits(&mut disk, sb.data_bitmap_start, data_blocks);
    assert_eq!(used_blocks, data_blocks - sb.free_blocks);
    // The root has two blocks, /d has one, /d/x has four.
    assert_eq!(used_blocks, 2 + 1 + 4);
}

#[test]
fn blocks_that_an_inode_points_to_are_marked_as_used() {
    let mut fs = new_fs();
    let id = fs.creat("/big", FileType::Regular, Mode::RW).unwrap();
    fs.fwrite("/big", 0, &[1u8; 14 * 512]).unwrap();
    let inode = fs.get_inode(id).unwrap();
    let sb = *fs.superblock();
    let mut disk = fs.into_device();
    let bp = *inode.get_block_ptrs().unwrap();
    let mut seen = Vec::new();
    for p in bp.direct.iter() {
        let b = p.unwrap();
        assert!(b >= sb.data_start && b < sb.num_blocks);
        assert!(bit_is_set(&mut disk, sb.data_bitmap_start, b - sb.data_start));
        assert!(!seen.contains(&b));
        seen.push(b);
    }
    let ib = bp.indirect.unwrap();
    assert!(bit_is_set(&mut disk, sb.data_bitmap_start, ib - sb.data_start));
    assert!(!seen.contains(&ib));
    seen.push(ib);
    let mut buf = [0u8; BLOCK_SIZE];
    disk.read_block(ib, &mut buf).unwrap();
    for slot in 0..128 {
        let b = u32::from_le_bytes([buf[4 * slot], buf[4 * slot + 1], buf[4 * slot + 2], buf[4 * slot + 3]]);
        if slot < 2 {
            assert!(bit_is_set(&mut disk, sb.data_bitmap_start, b - sb.data_start));
            assert!(!seen.contains(&b));
            seen.push(b);
        } else {
            assert_eq!(b, 0);
        }
    }
    // The root directory holds one block more: 14 + 1 + 1 blocks are in use.
    let used = count_bits(&mut disk, sb.data_bitmap_start, sb.num_blocks - sb.data_start);
    assert_eq!(used as usize, seen.len() + 1);
}

#[test]
fn directories_keep_their_dots() {
    let mut fs = new_fs();
    let d = fs.creat("/d", FileType::Directory, Mode::RW).unwrap();
    fs.creat("/d/a", FileType::Regular, Mode::RW).unwrap();
    fs.creat("/d/b", FileType::Regular, Mode::RW).unwrap();
    fs.remove("/d/a", FileType::Regular).unwrap();
    let inode = fs.get_inode(d).unwrap();
    assert_eq!(inode.size % 64, 0);
    assert_eq!(inode.size, 3 * 64);
    let entries = fs.read_dir("/d").unwrap();
    assert_eq!(entries.len(), 3);
    assert!(entries[0].name_eq(b"."));
    assert_eq!(entries[0].inode_id, d);
    assert!(entries[1].name_eq(b".."));
    assert_eq!(entries[1].inode_id, 1);
    assert!(entries[2].name_eq_str("b"));
    // The dots cannot be removed.
    fs.creat("/e", FileType::Directory, Mode::RW).unwrap();
    assert_eq!(fs.remove("/e/.", FileType::Directory).err(), Some(FsError::InvalidFileName));
    assert_eq!(fs.remove("/e/..", FileType::Directory).err(), Some(FsError::DirNotEmpty));
    assert_eq!(fs.remove("/d/.", FileType::Directory).err(), Some(FsError::DirNotEmpty));
    let sb = *fs.superblock();
    let mut disk = fs.into_device();
    let mut inode = get_inode(&mut disk, &sb, d).unwrap();
    let mut sb2 = sb;
    assert_eq!(dir_rm_entry(&mut disk, &mut sb2, &mut inode, b"."), Err(FsError::InvalidFileName));
    assert_eq!(dir_rm_entry(&mut disk, &mut sb2, &mut inode, b".."), Err(FsError::InvalidFileName));
    assert_eq!(dir_lookup(&mut disk, &sb, &inode, b"."), Ok(d));
    assert_eq!(dir_lookup(&mut disk, &sb, &inode, b".."), Ok(1));
}

#[test]
fn a_removed_slot_is_used_again_before_the_directory_grows() {
    let mut fs = new_fs();
    for i in 0..6 {
        fs.creat(&format!("/f{}", i), FileType::Regular, Mode::RW).unwrap();
    }
    let free = fs.superblock().free_blocks;
    fs.remove("/f1", FileType::Regular).unwrap();
    fs.creat("/g", FileType::Regular, Mode::RW).unwrap();
    let names: Vec<Vec<u8>> =
        fs.read_dir("/").unwrap().iter().map(|e| trim_zero(&e.name).to_vec()).collect();
    assert_eq!(names[3], b"g".to_vec());
    assert_eq!(fs.superblock().free_blocks, free);
    // The ninth entry needs a second block.
    fs.creat("/h", FileType::Regular, Mode::RW).unwrap();
    assert_eq!(fs.superblock().free_blocks, free - 1);
    assert_eq!(fs.get_inode(1).unwrap().blocks, 2);
    assert_eq!(fs.get_inode(1).unwrap().size, 9 * 64);
}

#[test]
fn reading_gives_back_what_was_written() {
    let mut fs = new_fs();
    fs.creat("/f", FileType::Regular, Mode::RW).unwrap();
    let data: Vec<u8> = (0..3000u32).map(|i| (i % 251) as u8).collect();
    assert_eq!(fs.fwrite("/f", 700, &data), Ok(3000));
    for k in [0usize, 1, 100, 324, 325, 2999, 3000] {
        let mut buf = vec![0xEEu8; 3000 - k];
        assert_eq!(fs.fread("/f", 700 + k, &mut buf), Ok(3000 - k));
        assert_eq!(buf, &data[k..]);
    }
    // The bytes before the write lie in a block that the write allocated.
    let mut buf = vec![0xEEu8; 188];
    assert_eq!(fs.fread("/f", 512, &mut buf), Ok(188));
    assert_eq!(buf, vec![0u8; 188]);
    // Block 0 is a hole: a read there ends at once.
    let mut buf = vec![0xEEu8; 10];
    assert_eq!(fs.fread("/f", 0, &mut buf), Ok(0));
    assert_eq!(buf, vec![0xEEu8; 10]);
    // A later write replaces a part of the earlier one.
    assert_eq!(fs.fwrite("/f", 1000, b"xyz"), Ok(3));
    let mut buf = vec![0u8; 5];
    assert_eq!(fs.fread("/f", 999, &mut buf), Ok(5));
    assert_eq!(buf, vec![data[299], b'x', b'y', b'z', data[303]]);
}

#[test]
fn a_read_ends_at_the_end_of_the_file() {
    let mut fs = new_fs();
    let id = fs.creat("/f", FileType::Regular, Mode::RW).unwrap();
    fs.fwrite("/f", 0, b"0123456789").unwrap();
    assert_eq!(fs.get_inode(id).unwrap().size, 10);
    assert_eq!(fs.get_inode(id).unwrap().blocks, 1);
    let mut buf = [0u8; 20];
    assert_eq!(fs.fread("/f", 4, &mut buf), Ok(6));
    assert_eq!(&buf[..6], b"456789");
    assert_eq!(fs.fread("/f", 10, &mut buf), Ok(0));
    assert_eq!(fs.fread("/f", 11, &mut buf), Err(FsError::OutOfBounds));
    assert_eq!(fs.fwrite("/f", 3, b""), Ok(0));
}

#[test]
fn round_trip_through_unmount_and_mount() {
    let mut fs = new_fs();
    fs.creat("/d", FileType::Directory, Mode::RW).unwrap();
    fs.creat("/d/f", FileType::Regular, Mode::RW).unwrap();
    fs.fwrite("/d/f", 0, &[9u8; 9000]).unwrap();
    fs.symlink("/d/f", "/l").unwrap();
    fs.unmount().unwrap();
    let before = *fs.superblock();
    let root = fs.read_dir("/").unwrap();
    let dir = fs.read_dir("/d").unwrap();
    let mut fs2 = FileSystem::mount(fs.into_device()).unwrap();
    assert_eq!(*fs2.superblock(), before);
    let root2 = fs2.read_dir("/").unwrap();
    let dir2 = fs2.read_dir("/d").unwrap();
    assert_eq!(root.len(), root2.len());
    for (a, b) in root.iter().zip(root2.iter()) {
        assert_eq!((a.inode_id, a.name), (b.inode_id, b.name));
    }
    assert_eq!(dir.len(), dir2.len());
    for (a, b) in dir.iter().zip(dir2.iter()) {
        assert_eq!((a.inode_id, a.name), (b.inode_id, b.name));
    }
    let mut buf = vec![0u8; 9000];
    assert_eq!(fs2.fread("/l", 0, &mut buf), Ok(9000));
    assert_eq!(buf, vec![9u8; 9000]);
}

#[test]
fn lookup_after_add_and_after_remove() {
    let mut fs = new_fs();
    let d = fs.creat("/d", FileType::Directory, Mode::RW).unwrap();
    let mut sb = *fs.superblock();
    let mut disk = fs.into_device();
    let mut dir = get_inode(&mut disk, &sb, d).unwrap();
    for i in 0..20u32 {
        let name = format!("entry{}", i);
        let entry = DirEntry::new(40 + i, name.as_bytes()).unwrap();
        assert_eq!(dir_add_entry(&mut disk, &mut sb, &mut dir, &entry), Ok(()));
        assert_eq!(dir_lookup(&mut disk, &sb, &dir, name.as_bytes()), Ok(40 + i));
    }
    assert_eq!(dir.size, 22 * 64);
    assert_eq!(dir.blocks, 3);
    let again = DirEntry::new(77, b"entry3").unwrap();
    assert_eq!(dir_add_entry(&mut disk, &mut sb, &mut dir, &again), Err(FsError::AlreadyExists));
    assert_eq!(dir_rm_entry(&mut disk, &mut sb, &mut dir, b"entry3"), Ok(43));
    assert_eq!(dir_lookup(&mut disk, &sb, &dir, b"entry3"), Err(FsError::NotFound));
    assert_eq!(dir_rm_entry(&mut disk, &mut sb, &mut dir, b"entry3"), Err(FsError::NotFound));
    assert_eq!(dir_lookup(&mut disk, &sb, &dir, b"entry4"), Ok(44));
    assert_eq!(dir_lookup(&mut disk, &sb, &dir, b"entry19"), Ok(59));
    assert_eq!(dir.size, 21 * 64);
    // What is in memory is what is on disk.
    let stored = get_inode(&mut disk, &sb, d).unwrap();
    assert_eq!((stored.size, stored.blocks), (dir.size, dir.blocks));
}

#[test]
fn names_are_compared_without_trailing_zeros() {
    assert!(muon::name_cmp(b"abc\0\0", b"abc"));
    assert!(!muon::name_cmp(b"", b""));
    assert!(!muon::name_cmp(b"\0\0", b"\0"));
    assert!(!muon::name_cmp(b"a\0b", b"a"));
    assert_eq!(trim_zero(b"ab\0c\0\0"), b"ab\0c");
    assert_eq!(trim_zero(b"\0\0"), b"");
    assert!(muon::name_is_empty(b"\0\0\0"));
    assert!(!muon::name_is_empty(b"\0a\0"));
    let e = DirEntry::new(3, b"name").unwrap();
    assert_eq!(e.inode_id, 3);
    assert_eq!(&e.name[..5], b"name\0");
    assert!(e.name_eq(b"name"));
    assert!(e.name_eq_str("name"));
    assert!(!e.name_eq(b"nam"));
    assert!(!e.is_empty());
    assert!(DirEntry::null().is_empty());
    assert_eq!(DirEntry::new(3, b"").err(), Some(FsError::InvalidFileName));
    assert_eq!(DirEntry::new(3, &[b'x'; 61]).err(), Some(FsError::InvalidFileName));
    assert!(DirEntry::new(3, &[b'x'; 60]).is_ok());
}

#[test]
fn a_cycle_of_symbolic_links_is_refused() {
    let mut fs = new_fs();
    fs.symlink("/b", "/a").unwrap();
    fs.symlink("/a", "/b").unwrap();
    assert_eq!(fs.lookup("/a").err(), Some(FsError::PathTooLong));
    assert_eq!(fs.lookup("/b/x").err(), Some(FsError::PathTooLong));
    // The links themselves can still be read and removed.
    let mut buf = [0u8; MAX_PATH_LEN];
    fs.read_link("/a", &mut buf).unwrap();
    assert_eq!(trim_zero(&buf), b"/b");
    fs.remove("/a", FileType::Symlink).unwrap();
    assert_eq!(fs.lookup("/b").err(), Some(FsError::NotFound));
}

#[test]
fn forty_links_are_followed_and_no_more() {
    let mut fs = new_fs();
    fs.creat("/end", FileType::Regular, Mode::RW).unwrap();
    fs.symlink("/end", "/l0").unwrap();
    for i in 1..41 {
        fs.symlink(&format!("/l{}", i - 1), &format!("/l{}", i)).unwrap();
    }
    // /l39 takes forty expansions, /l40 forty-one.
    assert_eq!(fs.lookup("/l39").unwrap().1, FileType::Regular);
    assert_eq!(fs.lookup("/l40").err(), Some(FsError::PathTooLong));
}

#[test]
fn mount_idempotence() {
    let mut fs = new_fs();
    fs.creat("/test.txt", FileType::Regular, Mode::RW).unwrap();
    fs.fwrite("/test.txt", 0, b"Hello, world!").unwrap();
    fs.unmount().unwrap();
    let mut fs = FileSystem::mount(fs.into_device()).unwrap();
    let mut buf = [0u8; 13];
    assert_eq!(fs.fread("/test.txt", 0, &mut buf), Ok(13));
    assert_eq!(&buf, b"Hello, world!");
}

#[test]
fn sparse_hole() {
    let mut fs = new_fs();
    let id = fs.creat("/test.txt", FileType::Regular, Mode::RW).unwrap();
    let free = fs.superblock().free_blocks;
    fs.fwrite("/test.txt", 0, b"Hello, world!").unwrap();
    fs.fwrite("/test.txt", 7 * 512, b"Hollow World...").unwrap();
    // Two blocks for two writes: the blocks between them are holes.
    assert_eq!(fs.superblock().free_blocks, free - 2);
    let inode = fs.get_inode(id).unwrap();
    assert_eq!(inode.size, 7 * 512 + 15);
    assert_eq!(inode.blocks, 8);
    let mut buf = [0u8; 13];
    assert_eq!(fs.fread("/test.txt", 0, &mut buf), Ok(13));
    assert_eq!(&buf, b"Hello, world!");
    let mut buf = [0u8; 15];
    assert_eq!(fs.fread("/test.txt", 7 * 512, &mut buf), Ok(15));
    assert_eq!(&buf, b"Hollow World...");
    let mut buf = [0u8; 20];
    assert!(fs.fread("/test.txt", 8 * 512, &mut buf).unwrap_or(0) == 0);
    // A read that runs into the hole ends before it.
    let mut buf = [0u8; 1000];
    assert_eq!(fs.fread("/test.txt", 500, &mut buf), Ok(12));
    assert_eq!(buf[..12], [0u8; 12]);
}

#[test]
fn hard_link_survives_source_removal() {
    let mut fs = new_fs();
    fs.creat("/d", FileType::Directory, Mode::RW).unwrap();
    let id = fs.creat("/a.txt", FileType::Regular, Mode::RW).unwrap();
    fs.fwrite("/a.txt", 0, b"Hello, hard link!").unwrap();
    assert_eq!(fs.link("/a.txt", "/d/b.txt"), Ok(id));
    assert_eq!(fs.get_inode(id).unwrap().links_cnt, 2);
    fs.remove("/a.txt", FileType::Regular).unwrap();
    assert_eq!(fs.lookup("/d/b.txt"), Ok((id, FileType::Regular)));
    assert_eq!(fs.get_inode(id).unwrap().links_cnt, 1);
    let mut buf = [0u8; 17];
    assert_eq!(fs.fread("/d/b.txt", 0, &mut buf), Ok(17));
    assert_eq!(&buf, b"Hello, hard link!");
    // A directory cannot be linked.
    assert_eq!(fs.link("/d", "/e"), Err(FsError::NotRegular));
}

#[test]
fn directory_removal_policy() {
    let mut fs = new_fs();
    let free_inodes = fs.superblock().free_inodes;
    let free_blocks = fs.superblock().free_blocks;
    fs.creat("/dir", FileType::Directory, Mode::RW).unwrap();
    assert_eq!(fs.get_inode(1).unwrap().links_cnt, 3);
    fs.creat("/dir/f", FileType::Regular, Mode::RW).unwrap();
    assert_eq!(fs.remove("/dir", FileType::Directory), Err(FsError::DirNotEmpty));
    fs.remove("/dir/f", FileType::Regular).unwrap();
    assert_eq!(fs.remove("/dir", FileType::Directory), Ok(()));
    assert_eq!(fs.superblock().free_inodes, free_inodes);
    assert_eq!(fs.superblock().free_blocks, free_blocks);
    assert_eq!(fs.get_inode(1).unwrap().links_cnt, 2);
}

#[test]
fn resource_accounting() {
    let mut fs = new_fs();
    assert_eq!(fs.superblock().free_inodes, 78);
    assert_eq!(fs.superblock().free_blocks, 40);
    assert_eq!(fs.creat("/x", FileType::Regular, Mode::RW), Ok(2));
    assert_eq!(fs.superblock().free_inodes, 77);
    fs.remove("/x", FileType::Regular).unwrap();
    assert_eq!(fs.superblock().free_inodes, 78);
    assert_eq!(fs.creat("/y", FileType::Regular, Mode::RW), Ok(2));
}

#[test]
fn symlink_with_dots() {
    let mut fs = new_fs();
    fs.creat("/a", FileType::Directory, Mode::RW).unwrap();
    fs.creat("/a/b", FileType::Directory, Mode::RW).unwrap();
    let id = fs.creat("/a/b/file", FileType::Regular, Mode::RW).unwrap();
    fs.symlink("/a/b/../b/./file", "/ln").unwrap();
    assert_eq!(fs.lookup("/ln"), Ok((id, FileType::Regular)));
}

#[test]
fn paths_are_made_canonical() {
    let mut fs = new_fs();
    let a = fs.creat("/a", FileType::Directory, Mode::RW).unwrap();
    let b = fs.creat("/a/b", FileType::Directory, Mode::RW).unwrap();
    let c = fs.creat("/a/b/c", FileType::Directory, Mode::RW).unwrap();
    let f = fs.creat("/a/b/c/f", FileType::Regular, Mode::RW).unwrap();
    fs.symlink("b/c", "/a/rel").unwrap();
    fs.symlink("/a/b", "/abs").unwrap();
    let sb = *fs.superblock();
    let mut disk = fs.into_device();
    assert_eq!(canonicalize(&mut disk, &sb, "/", false).unwrap(), "/");
    assert_eq!(canonicalize(&mut disk, &sb, "//a//b/", false).unwrap(), "/a/b");
    assert_eq!(canonicalize(&mut disk, &sb, "/a/./b/../b/c/../../..", false).unwrap(), "/");
    assert_eq!(canonicalize(&mut disk, &sb, "/a/b/c/../../b/c/f", false).unwrap(), "/a/b/c/f");
    assert_eq!(canonicalize(&mut disk, &sb, "/../..", false).unwrap(), "/");
    assert_eq!(canonicalize(&mut disk, &sb, "/a/rel/f", false).unwrap(), "/a/b/c/f");
    assert_eq!(canonicalize(&mut disk, &sb, "/abs/c/..", false).unwrap(), "/a/b");
    assert_eq!(canonicalize(&mut disk, &sb, "/a/rel", false).unwrap(), "/a/b/c");
    assert_eq!(canonicalize(&mut disk, &sb, "/a/rel", true).unwrap(), "/a/rel");
    assert_eq!(canonicalize(&mut disk, &sb, "/abs/../rel", true).unwrap(), "/a/rel");
    assert_eq!(canonicalize(&mut disk, &sb, "/a/new", false), Err(FsError::NotFound));
    assert_eq!(canonicalize(&mut disk, &sb, "a/b", false), Err(FsError::InvalidPath));
    assert_eq!(canonicalize(&mut disk, &sb, "", false), Err(FsError::InvalidPath));
    assert_eq!(canonicalize(&mut disk, &sb, "/a/x/y", false), Err(FsError::NotFound));
    assert_eq!(canonicalize(&mut disk, &sb, "/a/b/c/f/g", false), Err(FsError::NotDirectory));
    assert_eq!(resolve(&mut disk, &sb, "/"), Ok((1, 1)));
    assert_eq!(resolve(&mut disk, &sb, "/a/b/c/f"), Ok((c, f)));
    assert_eq!(resolve(&mut disk, &sb, "/a/rel"), Ok((b, c)));
    assert_eq!(resolve(&mut disk, &sb, "/abs/.."), Ok((1, a)));
    let link = resolve_without_last(&mut disk, &sb, "/a/rel").unwrap();
    assert_eq!(link.0, a);
    assert_eq!(get_inode(&mut disk, &sb, link.1).unwrap().ftype, FileType::Symlink);
    assert_eq!(resolve(&mut disk, &sb, "x"), Err(FsError::InvalidPath));
}

#[test]
fn split_keeps_what_is_not_ascii() {
    let (dir, file) = split("/d\u{e9}j\u{e0}/vu\u{2764}").unwrap();
    assert_eq!(dir, "/d\u{e9}j\u{e0}");
    assert_eq!(file, "vu\u{2764}");
    assert_eq!(split("relative").err(), Some(FsError::InvalidPath));
    assert_eq!(split("").err(), Some(FsError::InvalidPath));
    let (dir, file) = split("/a/b/").unwrap();
    assert_eq!((dir.as_str(), file.as_str()), ("/a", "b"));
    assert_eq!(muon::split_bytes(b"//x///y//z"), Ok((b"/x/y".to_vec(), b"z".to_vec())));
}

#[test]
fn the_errors_of_creat_and_remove() {
    let mut fs = new_fs();
    fs.creat("/f", FileType::Regular, Mode::RW).unwrap();
    fs.creat("/d", FileType::Directory, Mode::RW).unwrap();
    assert_eq!(fs.creat("/f", FileType::Regular, Mode::RW), Err(FsError::AlreadyExists));
    assert_eq!(fs.creat("/d", FileType::Directory, Mode::RW), Err(FsError::AlreadyExists));
    assert_eq!(fs.creat("/s", FileType::Symlink, Mode::RW), Err(FsError::InvalidArgument));
    assert_eq!(fs.creat("/s", FileType::Special, Mode::RW), Err(FsError::InvalidArgument));
    assert_eq!(fs.creat("/f/x", FileType::Regular, Mode::RW), Err(FsError::NotDirectory));
    assert_eq!(fs.creat("/nope/x", FileType::Regular, Mode::RW), Err(FsError::NotFound));
    assert_eq!(fs.creat("x", FileType::Regular, Mode::RW), Err(FsError::InvalidPath));
    assert_eq!(fs.creat("/", FileType::Regular, Mode::RW), Err(FsError::InvalidFileName));
    let long = format!("/{}", "n".repeat(61));
    assert_eq!(fs.creat(&long, FileType::Regular, Mode::RW), Err(FsError::InvalidFileName));
    assert_eq!(fs.creat(&long, FileType::Directory, Mode::RW), Err(FsError::InvalidFileName));
    assert_eq!(fs.creat("/d/..", FileType::Directory, Mode::RW), Err(FsError::InvalidFileName));
    let free = fs.superblock().free_inodes;
    assert_eq!(fs.remove("/f", FileType::Directory), Err(FsError::InvalidArgument));
    assert_eq!(fs.remove("/d", FileType::Regular), Err(FsError::InvalidArgument));
    assert_eq!(fs.remove("/f", FileType::Special), Err(FsError::InvalidArgument));
    assert_eq!(fs.remove("/f", FileType::Symlink), Err(FsError::InvalidArgument));
    assert_eq!(fs.remove("/g", FileType::Regular), Err(FsError::NotFound));
    assert_eq!(fs.remove("/", FileType::Directory), Err(FsError::DirNotEmpty));
    assert_eq!(new_fs().remove("/", FileType::Directory), Err(FsError::InvalidFileName));
    assert_eq!(fs.superblock().free_inodes, free);
    assert_eq!(fs.lookup("/nope"), Err(FsError::NotFound));
    assert_eq!(fs.read_dir("/f").err(), Some(FsError::NotDirectory));
}

#[test]
fn the_errors_of_files_and_links() {
    let mut fs = new_fs();
    fs.creat("/ro", FileType::Regular, Mode::Read).unwrap();
    fs.creat("/wo", FileType::Regular, Mode::Write).unwrap();
    fs.creat("/re", FileType::Regular, Mode::RE).unwrap();
    fs.creat("/no", FileType::Regular, Mode::NoAccess).unwrap();
    fs.creat("/d", FileType::Directory, Mode::RW).unwrap();
    let mut buf = [0u8; 4];
    assert_eq!(fs.fwrite("/ro", 0, b"x"), Err(FsError::PermissionDenied));
    assert_eq!(fs.fread("/ro", 0, &mut buf), Ok(0));
    assert_eq!(fs.fwrite("/wo", 0, b"x"), Ok(1));
    assert_eq!(fs.fread("/wo", 0, &mut buf), Err(FsError::PermissionDenied));
    assert_eq!(fs.fread("/re", 0, &mut buf), Ok(0));
    assert_eq!(fs.fwrite("/re", 0, b"x"), Err(FsError::PermissionDenied));
    assert_eq!(fs.fread("/no", 0, &mut buf), Err(FsError::PermissionDenied));
    assert_eq!(fs.fread("/d", 0, &mut buf), Err(FsError::NotReadable));
    assert_eq!(fs.fwrite("/d", 0, b"x"), Err(FsError::NotWritable));
    let mut target = [0u8; MAX_PATH_LEN];
    assert_eq!(fs.read_link("/ro", &mut target), Err(FsError::NotSymlink));
    assert_eq!(fs.symlink(&"t".repeat(105), "/l"), Err(FsError::PathTooLong));
    assert_eq!(fs.symlink(&"t".repeat(104), "/l"), Ok(7));
    fs.read_link("/l", &mut target).unwrap();
    assert_eq!(target, [b't'; MAX_PATH_LEN]);
    assert_eq!(fs.symlink("/ro", "/l"), Err(FsError::AlreadyExists));
    assert_eq!(fs.link("/ro", "/wo"), Err(FsError::AlreadyExists));
    assert_eq!(fs.link("/nope", "/x"), Err(FsError::NotFound));
    // The free functions refuse what is not a regular file.
    let mut sb = *fs.superblock();
    let mut disk = fs.into_device();
    let mut dir = get_inode(&mut disk, &sb, 1).unwrap();
    assert_eq!(fread(&mut disk, &sb, &dir, 0, &mut buf), Err(FsError::NotReadable));
    assert_eq!(fwrite(&mut disk, &mut sb, &mut dir, 0, b"x"), Err(FsError::NotWritable));
    assert_eq!(ftruncate(&mut disk, &mut sb, &mut dir), Err(FsError::NotWritable));
    let mut link = get_inode(&mut disk, &sb, 7).unwrap();
    assert_eq!(link.get_block_ptrs().err(), Some(FsError::InvalidFileType));
    assert_eq!(link.get_block_ptrs_mut().err(), Some(FsError::InvalidFileType));
    assert_eq!(dir.get_path().err(), Some(FsError::NotSymlink));
    assert_eq!(dir.get_path_mut().err(), Some(FsError::NotSymlink));
    assert_eq!(bmap(&mut disk, &mut sb, &mut link, 0, true), Err(FsError::InvalidFileType));
    assert_eq!(dir_lookup(&mut disk, &sb, &link, b"x"), Err(FsError::NotDirectory));
}

#[test]
fn the_block_map() {
    let mut fs = new_fs();
    let id = fs.creat("/f", FileType::Regular, Mode::RW).unwrap();
    let mut sb = *fs.superblock();
    let mut disk = fs.into_device();
    let mut inode = get_inode(&mut disk, &sb, id).unwrap();
    assert_eq!(bmap(&mut disk, &mut sb, &mut inode, 100, true), Err(FsError::InvalidArgument));
    assert_eq!(bmap(&mut disk, &mut sb, &mut inode, 0, false), Err(FsError::OutOfBounds));
    assert_eq!(muon::bmap_lookup(&mut disk, &sb, &inode, 0), Ok(None));
    assert_eq!(bmap(&mut disk, &mut sb, &mut inode, 140 * 512, true), Err(FsError::FileTooLarge));
    assert_eq!(bmap(&mut disk, &mut sb, &mut inode, 140 * 512, false), Err(FsError::FileTooLarge));
    // The root holds block 23; the next free block is 24.
    assert_eq!(bmap(&mut disk, &mut sb, &mut inode, 0, true), Ok(24));
    assert_eq!((inode.size, inode.blocks), (1, 1));
    assert_eq!(bmap(&mut disk, &mut sb, &mut inode, 0, false), Ok(24));
    // Block 12 lies behind the indirect block, which takes block 25.
    assert_eq!(bmap(&mut disk, &mut sb, &mut inode, 12 * 512, true), Ok(26));
    assert_eq!((inode.size, inode.blocks), (12 * 512 + 1, 13));
    assert_eq!(inode.get_block_ptrs().unwrap().indirect, Some(25));
    assert_eq!(bmap(&mut disk, &mut sb, &mut inode, 139 * 512, true), Ok(27));
    assert_eq!(bmap(&mut disk, &mut sb, &mut inode, 5 * 512, false), Err(FsError::OutOfBounds));
    assert_eq!(muon::bmap_lookup(&mut disk, &sb, &inode, 139 * 512), Ok(Some(27)));
    let stored = get_inode(&mut disk, &sb, id).unwrap();
    assert_eq!(stored.get_block_ptrs().unwrap().direct[0], Some(24));
    assert_eq!(stored.get_block_ptrs().unwrap().indirect, Some(25));
    // A pointer that leaves the data region is refused.
    inode.get_block_ptrs_mut().unwrap().direct[1] = Some(2);
    assert_eq!(bmap(&mut disk, &mut sb, &mut inode, 512, false), Err(FsError::InvalidBlockId));
    assert_eq!(bmap(&mut disk, &mut sb, &mut inode, 512, true), Err(FsError::InvalidBlockId));
}

#[test]
fn a_full_disk_and_a_full_inode_table() {
    let mut fs = FileSystem::format(RamDisk::new(30), 30, 4).unwrap();
    // 1 + 1 + 1 + 1 blocks of metadata: 26 data blocks, one for the root.
    assert_eq!(fs.superblock().data_start, 4);
    assert_eq!(fs.superblock().free_blocks, 25);
    fs.creat("/a", FileType::Regular, Mode::RW).unwrap();
    fs.creat("/b", FileType::Regular, Mode::RW).unwrap();
    assert_eq!(fs.superblock().free_inodes, 0);
    assert_eq!(fs.creat("/c", FileType::Regular, Mode::RW), Err(FsError::OutOfBounds));
    // 12 direct blocks, the indirect block and 12 blocks behind it.
    assert_eq!(fs.fwrite("/a", 0, &[5u8; 24 * 512]), Ok(24 * 512));
    assert_eq!(fs.superblock().free_blocks, 0);
    assert_eq!(fs.fwrite("/b", 0, b"x"), Err(FsError::OutOfBounds));
    assert_eq!(fs.fwrite("/a", 24 * 512, b"x"), Err(FsError::OutOfBounds));
    fs.remove("/a", FileType::Regular).unwrap();
    assert_eq!(fs.superblock().free_blocks, 25);
    assert_eq!(fs.superblock().free_inodes, 1);
    assert_eq!(fs.fwrite("/b", 0, b"x"), Ok(1));
}

#[test]
fn a_file_has_at_most_140_blocks() {
    let mut fs = FileSystem::format(RamDisk::new(400), 400, 16).unwrap();
    let id = fs.creat("/f", FileType::Regular, Mode::RW).unwrap();
    assert_eq!(fs.fwrite("/f", 0, &[3u8; 71680]), Ok(71680));
    assert_eq!(fs.get_inode(id).unwrap().size, 71680);
    assert_eq!(fs.get_inode(id).unwrap().blocks, 140);
    assert_eq!(fs.fwrite("/f", 71680, b"x"), Err(FsError::FileTooLarge));
    let mut buf = vec![0u8; 71680];
    assert_eq!(fs.fread("/f", 0, &mut buf), Ok(71680));
    assert!(buf.iter().all(|b| *b == 3));
    // A write that runs past the end fails after the bytes that fit.
    assert_eq!(fs.fwrite("/f", 71679, b"xy"), Err(FsError::FileTooLarge));
    assert_eq!(fs.fread("/f", 71678, &mut buf), Ok(2));
    assert_eq!(buf[..2], [3, b'x']);
    let free = fs.superblock().free_blocks;
    let sb0 = *fs.superblock();
    let mut sb = sb0;
    let mut disk = fs.into_device();
    let mut inode = get_inode(&mut disk, &sb, id).unwrap();
    assert_eq!(ftruncate(&mut disk, &mut sb, &mut inode), Ok(()));
    assert_eq!(sb.free_blocks, free + 141);
    assert_eq!((inode.size, inode.blocks), (0, 0));
    let stored = get_inode(&mut disk, &sb, id).unwrap();
    assert_eq!((stored.size, stored.blocks), (0, 0));
    assert_eq!(stored.get_block_ptrs().unwrap().indirect, None);
    assert!(stored.get_block_ptrs().unwrap().direct.iter().all(|p| p.is_none()));
}

#[test]
fn inode_records() {
    let mut disk = RamDisk::new(64);
    let sb = SuperBlock::new(64, 80).unwrap();
    assert_eq!(get_inode(&mut disk, &sb, 80).err(), Some(FsError::OutOfBounds));
    // A slot that was never written holds no valid record.
    assert_eq!(get_inode(&mut disk, &sb, 5).err(), Some(FsError::InvalidFileType));
    let mut inode = Inode::new(FileType::Regular, Mode::RWE, 5);
    inode.size = 0x0102030405060708;
    inode.blocks = 0x0A0B0C0D;
    inode.links_cnt = 3;
    inode.get_block_ptrs_mut().unwrap().direct[11] = Some(0xDEADBEEF);
    inode.get_block_ptrs_mut().unwrap().indirect = Some(77);
    write_inode(&mut disk, &sb, &inode).unwrap();
    let stored = get_inode(&mut disk, &sb, 5).unwrap();
    assert_eq!(stored.ftype, FileType::Regular);
    assert_eq!(stored.mode, Mode::RWE);
    assert_eq!((stored.id, stored.blocks, stored.links_cnt), (5, 0x0A0B0C0D, 3));
    assert_eq!(stored.size, 0x0102030405060708);
    assert_eq!(stored.get_block_ptrs().unwrap().direct[11], Some(0xDEADBEEF));
    assert_eq!(stored.get_block_ptrs().unwrap().direct[0], None);
    assert_eq!(stored.get_block_ptrs().unwrap().indirect, Some(77));
    // Inode 5 is the second record of block 3 + 1: the bytes on disk.
    let mut buf = [0u8; BLOCK_SIZE];
    disk.read_block(4, &mut buf).unwrap();
    let rec = &buf[128..256];
    assert_eq!(rec[0], 1);
    assert_eq!(rec[1], 7);
    assert_eq!(rec[2..6], [5, 0, 0, 0]);
    assert_eq!(rec[6..10], [0x0D, 0x0C, 0x0B, 0x0A]);
    assert_eq!(rec[10..14], [3, 0, 0, 0]);
    assert_eq!(rec[14 + 44..14 + 48], [0xEF, 0xBE, 0xAD, 0xDE]);
    assert_eq!(rec[62..66], [77, 0, 0, 0]);
    assert_eq!(rec[118..126], [8, 7, 6, 5, 4, 3, 2, 1]);
    assert_eq!(rec[126..128], [0, 0]);
    inode.id = 80;
    assert_eq!(write_inode(&mut disk, &sb, &inode), Err(FsError::OutOfBounds));
    let link = Inode::new(FileType::Symlink, Mode::Read, 6);
    assert!(link.is_symlink() && !link.is_directory() && !link.is_regular_file());
    assert!(!link.is_special());
    assert_eq!(link.get_path().unwrap(), &[0u8; MAX_PATH_LEN]);
    assert!(matches!(InodePtr::new(), InodePtr::Blocks(_)));
}

#[test]
fn the_superblock_on_disk() {
    let mut fs = new_fs();
    fs.creat("/f", FileType::Regular, Mode::RW).unwrap();
    let sb = *fs.superblock();
    let mut disk = fs.into_device();
    let mut buf = [0u8; BLOCK_SIZE];
    disk.read_block(0, &mut buf).unwrap();
    assert_eq!(buf[0..4], [0x4E, 0x4F, 0x55, 0x4D]);
    assert_eq!(buf[4..8], [64, 0, 0, 0]);
    assert_eq!(buf[8..12], [0, 2, 0, 0]);
    assert_eq!(buf[12..16], [40, 0, 0, 0]);
    assert_eq!(buf[16..20], [80, 0, 0, 0]);
    assert_eq!(buf[20..24], [77, 0, 0, 0]);
    assert_eq!(buf[24..28], [1, 0, 0, 0]);
    assert_eq!(buf[52..56], [23, 0, 0, 0]);
    assert!(buf[56..].iter().all(|b| *b == 0));
    assert_eq!(muon::read_superblock(&mut disk), Ok(sb));
    // The bitmaps: inodes 0, 1 and 2, and the block of the root.
    disk.read_block(2, &mut buf).unwrap();
    assert_eq!(buf[0], 0b111);
    disk.read_block(1, &mut buf).unwrap();
    assert_eq!(buf[0], 0b1);
}

/// A device that fails every request after a number of them.
struct Flaky {
    inner: RamDisk,
    left: usize,
}

impl Flaky {
    fn tick(&mut self) -> Result<(), FsError> {
        if self.left == 0 {
            return Err(FsError::IoError);
        }
        self.left -= 1;
        Ok(())
    }
}

impl BlockDevice for Flaky {
    fn num_blocks(&self) -> usize {
        self.inner.num_blocks()
    }

    fn read_block(&mut self, block_id: u32, buf: &mut [u8; BLOCK_SIZE]) -> Result<(), FsError> {
        if block_id as usize >= self.inner.num_blocks() {
            return Err(FsError::InvalidBlockId);
        }
        self.tick()?;
        self.inner.read_block(block_id, buf)
    }

    fn write_block(&mut self, block_id: u32, buf: &[u8; BLOCK_SIZE]) -> Result<(), FsError> {
        if block_id as usize >= self.inner.num_blocks() {
            return Err(FsError::InvalidBlockId);
        }
        self.tick()?;
        self.inner.write_block(block_id, buf)
    }

    fn flush(&mut self) -> Result<(), FsError> {
        self.tick()
    }

    fn block_size(&self) -> usize {
        BLOCK_SIZE
    }

    // The members below are used in proofs only and never run.
    fn view(&self) -> vstd::seq::Seq<vstd::seq::Seq<u8>> {
        unreachable!()
    }

    fn reliable(&self) -> bool {
        unreachable!()
    }

    fn flushed(&self) -> bool {
        unreachable!()
    }

    fn lemma_blocks_sized(&self) {
    }
}

#[test]
fn a_failure_of_the_device_is_passed_on_and_keeps_the_counts_right() {
    for budget in 0..400 {
        let fs = FileSystem::format(RamDisk::new(64), 64, 80).unwrap();
        let flaky = Flaky { inner: fs.into_device(), left: budget };
        let mut fs = match FileSystem::mount(flaky) {
            Ok(fs) => fs,
            Err(e) => {
                assert_eq!(e, FsError::IoError);
                continue;
            },
        };
        let mut failed = false;
        let steps: [&dyn Fn(&mut FileSystem<Flaky>) -> Result<(), FsError>; 5] = [
            &|fs| fs.creat("/d", FileType::Directory, Mode::RW).map(|_| ()),
            &|fs| fs.creat("/d/f", FileType::Regular, Mode::RW).map(|_| ()),
            &|fs| fs.fwrite("/d/f", 100, &[1u8; 7000]).map(|_| ()),
            &|fs| fs.remove("/d/f", FileType::Regular),
            &|fs| fs.unmount(),
        ];
        for step in steps.iter() {
            if let Err(e) = step(&mut fs) {
                assert_eq!(e, FsError::IoError);
                failed = true;
                break;
            }
        }
        let sb = *fs.superblock();
        let mut disk = fs.into_device().inner;
        let used_inodes = count_bits(&mut disk, sb.inode_bitmap_start, sb.num_inodes);
        assert_eq!(used_inodes, sb.num_inodes - sb.free_inodes);
        let data_blocks = sb.num_blocks - sb.data_start;
        let used_blocks = count_bits(&mut disk, sb.data_bitmap_start, data_blocks);
        assert_eq!(used_blocks, data_blocks - sb.free_blocks);
        if !failed {
            assert_eq!(sb.free_inodes, 77);
            return;
        }
    }
    panic!("the budget was never enough");
}

#[test]
fn a_later_write_keeps_what_was_written_elsewhere() {
    let mut fs = new_fs();
    fs.creat("/a", FileType::Regular, Mode::RW).unwrap();
    fs.creat("/b", FileType::Regular, Mode::RW).unwrap();
    assert_eq!(fs.fwrite("/a", 0, b"first words"), Ok(11));
    assert_eq!(fs.fwrite("/a", 1000, b"second words"), Ok(12));
    assert_eq!(fs.fwrite("/b", 0, b"another file"), Ok(12));
    let mut buf = [0u8; 11];
    assert_eq!(fs.fread("/a", 0, &mut buf), Ok(11));
    assert_eq!(&buf, b"first words");
    let mut buf = [0u8; 12];
    assert_eq!(fs.fread("/a", 1000, &mut buf), Ok(12));
    assert_eq!(&buf, b"second words");
    // The last bytes written to a position are the bytes read there.
    assert_eq!(fs.fwrite("/a", 6, b"lines"), Ok(5));
    let mut buf = [0u8; 11];
    assert_eq!(fs.fread("/a", 0, &mut buf), Ok(11));
    assert_eq!(&buf, b"first lines");
    let mut buf = [0u8; 3];
    assert_eq!(fs.fread("/a", 8, &mut buf), Ok(3));
    assert_eq!(&buf, b"nes");
    let mut buf = [0u8; 12];
    assert_eq!(fs.fread("/b", 0, &mut buf), Ok(12));
    assert_eq!(&buf, b"another file");
}

#[test]
fn a_failure_for_want_of_space_keeps_what_was_written_before_it() {
    // 1 + 1 + 1 + 2 blocks of metadata: 25 data blocks, one for the root.
    let mut fs = FileSystem::format(RamDisk::new(30), 30, 8).unwrap();
    assert_eq!(fs.superblock().data_start, 5);
    assert_eq!(fs.superblock().free_blocks, 24);
    fs.creat("/a", FileType::Regular, Mode::RW).unwrap();
    fs.creat("/b", FileType::Regular, Mode::RW).unwrap();
    assert_eq!(fs.fwrite("/a", 0, &[1u8; 12 * 512]), Ok(12 * 512));
    assert_eq!(fs.fwrite("/b", 0, &[2u8; 11 * 512]), Ok(11 * 512));
    assert_eq!(fs.superblock().free_blocks, 1);
    // The write needs the block of indirect pointers and a block of data:
    // the first is allocated, the second is not to be had.
    assert_eq!(fs.fwrite("/a", 12 * 512, b"x"), Err(FsError::OutOfBounds));
    assert_eq!(fs.superblock().free_blocks, 0);
    let a = fs.lookup("/a").unwrap().0;
    let inode = fs.get_inode(a).unwrap();
    assert_eq!(inode.size, 12 * 512);
    assert_eq!(inode.blocks, 12);
    assert_eq!(inode.get_block_ptrs().unwrap().indirect, None);
    // A directory cannot get its first block either; its name stays.
    assert_eq!(fs.creat("/d", FileType::Directory, Mode::RW), Err(FsError::OutOfBounds));
    let (d, ftype) = fs.lookup("/d").unwrap();
    assert_eq!(ftype, FileType::Directory);
    assert_eq!(fs.get_inode(d).unwrap().size, 0);
    assert_eq!(fs.read_dir("/d").unwrap().len(), 0);
    assert_eq!(fs.superblock().free_inodes, 3);
    // The counts still agree with the bitmaps.
    let sb = *fs.superblock();
    let mut disk = fs.into_device();
    assert_eq!(count_bits(&mut disk, sb.data_bitmap_start, 25), 25 - sb.free_blocks);
    assert_eq!(count_bits(&mut disk, sb.inode_bitmap_start, 8), 8 - sb.free_inodes);
}
