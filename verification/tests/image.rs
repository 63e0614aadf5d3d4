//! End-to-end scenarios against a synthetic ext4 image: 4,096-byte
//! blocks, 256-byte inodes, a `/test` directory holding `test.bin`
//! (5,000 bytes of `0x5A`), `whole.bin` (8,192 bytes of `0xA5`) and an
//! empty file.

use ext4::{FileSystem, MemDisk};

fn w16(img: &mut Vec<u8>, off: usize, v: u16) {
    img[off..off + 2].copy_from_slice(&v.to_le_bytes());
}

fn w32(img: &mut Vec<u8>, off: usize, v: u32) {
    img[off..off + 4].copy_from_slice(&v.to_le_bytes());
}

const BS: usize = 4096;
const INODE_TABLE_BLOCK: usize = 4;

fn write_inode(img: &mut Vec<u8>, num: usize, mode: u16, size: u32, first_block: u32, nblocks: u16) {
    let off = INODE_TABLE_BLOCK * BS + (num - 1) * 256;
    w16(img, off + 0x00, mode);
    w32(img, off + 0x04, size);
    w16(img, off + 0x1A, 1); // links_count
    w32(img, off + 0x20, 0x0008_0000); // extents flag
    // extent-tree root in the block area
    w16(img, off + 0x28, 0xF30A); // magic
    w16(img, off + 0x2A, if nblocks == 0 { 0 } else { 1 }); // entries
    w16(img, off + 0x2C, 4); // max
    w16(img, off + 0x2E, 0); // depth
    if nblocks > 0 {
        w32(img, off + 0x34, 0); // first logical block
        w16(img, off + 0x38, nblocks); // length
        w16(img, off + 0x3A, 0); // physical high
        w32(img, off + 0x3C, first_block); // physical low
    }
}

fn dirent(img: &mut Vec<u8>, off: usize, inode: u32, rec_len: u16, name: &[u8], ftype: u8) {
    w32(img, off, inode);
    w16(img, off + 4, rec_len);
    img[off + 6] = name.len() as u8;
    img[off + 7] = ftype;
    img[off + 8..off + 8 + name.len()].copy_from_slice(name);
}

fn build_image() -> Vec<u8> {
    let mut img = vec![0u8; 64 * BS];
    // superblock at byte 1,024
    w32(&mut img, 1024 + 0x00, 16); // inodes_count
    w32(&mut img, 1024 + 0x04, 64); // blocks_count_lo
    w32(&mut img, 1024 + 0x0C, 40); // free_blocks_count_lo
    w32(&mut img, 1024 + 0x10, 2); // free_inodes_count
    w32(&mut img, 1024 + 0x14, 0); // first_data_block
    w32(&mut img, 1024 + 0x18, 2); // log_block_size -> 4,096
    w32(&mut img, 1024 + 0x20, 32768); // blocks_per_group
    w32(&mut img, 1024 + 0x28, 16); // inodes_per_group
    w16(&mut img, 1024 + 0x38, 0xEF53); // magic
    w16(&mut img, 1024 + 0x3A, 1); // state: clean
    w16(&mut img, 1024 + 0x3C, 1); // errors: continue
    w32(&mut img, 1024 + 0x4C, 1); // rev_level
    w16(&mut img, 1024 + 0x58, 256); // inode_size
    w32(&mut img, 1024 + 0x60, 0x42); // incompat: file type + extents
    for i in 0..16 {
        img[1024 + 0x68 + i] = (i as u8) * 0x11; // uuid
    }
    img[1024 + 0x78..1024 + 0x7F].copy_from_slice(b"testvol");
    w16(&mut img, 1024 + 0xFE, 64); // desc_size

    // group 0 descriptor at block 1
    w32(&mut img, BS + 0x08, INODE_TABLE_BLOCK as u32); // inode_table_lo

    // inodes: 2 root dir (block 8), 11 /test dir (block 9),
    // 12 test.bin (blocks 10-11), 13 whole.bin (blocks 12-13),
    // 14 empty file
    write_inode(&mut img, 2, 0x41ED, BS as u32, 8, 1);
    write_inode(&mut img, 11, 0x41ED, BS as u32, 9, 1);
    write_inode(&mut img, 12, 0x81A4, 5000, 10, 2);
    write_inode(&mut img, 13, 0x81A4, 8192, 12, 2);
    write_inode(&mut img, 14, 0x81A4, 0, 0, 0);

    // root directory data, block 8
    let b8 = 8 * BS;
    dirent(&mut img, b8, 2, 12, b".", 2);
    dirent(&mut img, b8 + 12, 2, 12, b"..", 2);
    dirent(&mut img, b8 + 24, 11, (BS - 24) as u16, b"test", 2);

    // /test directory data, block 9
    let b9 = 9 * BS;
    dirent(&mut img, b9, 11, 12, b".", 2);
    dirent(&mut img, b9 + 12, 2, 12, b"..", 2);
    dirent(&mut img, b9 + 24, 12, 20, b"test.bin", 1);
    dirent(&mut img, b9 + 44, 13, 20, b"whole.bin", 1);
    dirent(&mut img, b9 + 64, 14, (BS - 64) as u16, b"empty", 1);

    // file data
    for i in 0..5000 {
        img[10 * BS + i] = 0x5A;
    }
    for i in 0..8192 {
        img[12 * BS + i] = 0xA5;
    }
    img
}

fn mount() -> FileSystem<MemDisk> {
    FileSystem::new(MemDisk::new(build_image())).unwrap()
}

/// Mounting succeeds exactly on a well-formed superblock: a short
/// device, a bad magic, or unsound geometry each yield absence.
#[test]
fn mount_rejects_unsound_images() {
    assert!(FileSystem::new(MemDisk::new(vec![0u8; 1024])).is_none());
    let mut bad_magic = build_image();
    bad_magic[1024 + 0x38] = 0;
    assert!(FileSystem::new(MemDisk::new(bad_magic)).is_none());
    let mut zero_ipg = build_image();
    for i in 0..4 {
        zero_ipg[1024 + 0x28 + i] = 0; // inodes_per_group = 0
    }
    assert!(FileSystem::new(MemDisk::new(zero_ipg)).is_none());
    let mut tiny_inode = build_image();
    tiny_inode[1024 + 0x58] = 64; // inode_size = 64, below a full record
    tiny_inode[1024 + 0x59] = 0;
    assert!(FileSystem::new(MemDisk::new(tiny_inode)).is_none());
    let mut wild_log = build_image();
    wild_log[1024 + 0x18] = 60; // log_block_size far out of range
    assert!(FileSystem::new(MemDisk::new(wild_log)).is_none());
    assert!(FileSystem::new(MemDisk::new(build_image())).is_some());
}

#[test]
fn mount_reads_superblock() {
    let fs = mount();
    assert_eq!(fs.sb().block_size(), 4096);
    assert_eq!(fs.sb().inode_size(), 256);
    assert!(fs.feature_file_type());
}

#[test]
fn info_mentions_magic_and_uuid() {
    let fs = mount();
    let info = fs.info();
    assert!(info.contains("ef53"));
    assert!(info.contains("00112233-4455-6677-8899-aabbccddeeff"));
}

#[test]
fn root_inode_is_a_directory() {
    let mut fs = mount();
    let root = fs.root_inode().unwrap();
    assert!(root.mode().is_dir());
    assert_eq!(root.size(), 4096);
}

#[test]
fn open_root_lists_dot_dotdot_and_test() {
    let mut fs = mount();
    let root = fs.open("/").unwrap();
    assert!(root.mode().is_dir());
    let entries = root.read_dir(&mut fs).unwrap();
    let names: Vec<Vec<u8>> = entries.iter().map(|e| e.name().clone()).collect();
    assert!(names.contains(&b".".to_vec()));
    assert!(names.contains(&b"..".to_vec()));
    assert!(names.contains(&b"test".to_vec()));
}

#[test]
fn open_missing_path_is_absent() {
    let mut fs = mount();
    assert!(fs.open("/nonexistent").is_none());
}

#[test]
fn open_test_dir_lists_test_bin() {
    let mut fs = mount();
    let dir = fs.open("/test").unwrap();
    assert!(dir.mode().is_dir());
    let entries = dir.read_dir(&mut fs).unwrap();
    let names: Vec<Vec<u8>> = entries.iter().map(|e| e.name().clone()).collect();
    assert!(names.contains(&b"test.bin".to_vec()));
    let bin = entries.iter().find(|e| e.name() == b"test.bin").unwrap();
    assert!(bin.mode().is_file());
    assert_eq!(bin.entry.inode, 12);
    assert_eq!(bin.len(), 20);
    assert_eq!(bin.inode().size(), 5000);
}

#[test]
fn open_missing_in_subdir_is_absent() {
    let mut fs = mount();
    assert!(fs.open("/test/missing").is_none());
}

#[test]
fn read_file_in_block_sized_steps() {
    let mut fs = mount();
    let mut f = fs.open("/test/test.bin").unwrap();
    assert_eq!(f.size(), 5000);
    assert!(f.mode().is_file());
    assert_eq!(f.name(), b"test.bin");
    let first = f.read(&mut fs, 4096).unwrap();
    assert_eq!(first.len(), 4096);
    assert!(first.iter().all(|&b| b == 0x5A));
    let second = f.read(&mut fs, 4096).unwrap();
    assert_eq!(second.len(), 904);
    assert!(second.iter().all(|&b| b == 0x5A));
    let third = f.read(&mut fs, 4096).unwrap();
    assert_eq!(third.len(), 0);
    assert!(f.is_eof());
}

/// Read round trip: the concatenation of every read until EOF is the
/// file's logical contents and the counts sum to the size.
#[test]
fn read_round_trip_concatenates_to_file() {
    let mut fs = mount();
    let mut f = fs.open("/test/test.bin").unwrap();
    let mut all: Vec<u8> = Vec::new();
    let mut total = 0usize;
    loop {
        let chunk = f.read(&mut fs, 1000).unwrap();
        if chunk.is_empty() {
            break;
        }
        total += chunk.len();
        all.extend_from_slice(&chunk);
    }
    assert!(f.is_eof());
    assert_eq!(total, 5000);
    assert_eq!(all, vec![0x5A; 5000]);
}

/// Reading to the end in one call returns the whole file; picking up
/// mid-stream returns exactly the remainder.
#[test]
fn read_to_end_returns_whole_file() {
    let mut fs = mount();
    let mut f = fs.open("/test/test.bin").unwrap();
    let all = f.read_to_end(&mut fs, 1000).unwrap();
    assert_eq!(all, vec![0x5A; 5000]);
    assert!(f.is_eof());
    let more = f.read_to_end(&mut fs, 1000).unwrap();
    assert!(more.is_empty());

    let mut g = fs.open("/test/test.bin").unwrap();
    let head = g.read(&mut fs, 4000).unwrap();
    let tail = g.read_to_end(&mut fs, 512).unwrap();
    assert_eq!(head.len(), 4000);
    assert_eq!(tail.len(), 1000);
    assert!(tail.iter().all(|&b| b == 0x5A));
}

/// A file sized an exact multiple of the block size reads in whole
/// blocks with no tail.
#[test]
fn whole_block_file_has_no_tail() {
    let mut fs = mount();
    let mut f = fs.open("/test/whole.bin").unwrap();
    assert_eq!(f.size(), 8192);
    let a = f.read(&mut fs, 4096).unwrap();
    assert_eq!(a.len(), 4096);
    let b = f.read(&mut fs, 4096).unwrap();
    assert_eq!(b.len(), 4096);
    assert!(a.iter().chain(b.iter()).all(|&x| x == 0xA5));
    let c = f.read(&mut fs, 4096).unwrap();
    assert_eq!(c.len(), 0);
    assert!(f.is_eof());
}

/// An inode with zero extents and size 0 reads 0 bytes and is
/// immediately EOF.
#[test]
fn empty_file_reads_nothing() {
    let mut fs = mount();
    let mut f = fs.open("/test/empty").unwrap();
    assert_eq!(f.size(), 0);
    assert!(f.is_eof());
    let v = f.read(&mut fs, 100).unwrap();
    assert!(v.is_empty());
    assert!(f.is_eof());
}

/// Two successive opens of one path yield handles with identical
/// size, mode and name, and independent cursors.
#[test]
fn open_twice_is_idempotent_with_independent_cursors() {
    let mut fs = mount();
    let mut a = fs.open("/test/test.bin").unwrap();
    let b = fs.open("/test/test.bin").unwrap();
    assert_eq!(a.size(), b.size());
    assert_eq!(a.mode().bits(), b.mode().bits());
    assert_eq!(a.name(), b.name());
    let first = a.read(&mut fs, 100).unwrap();
    assert_eq!(first.len(), 100);
    assert!(!a.is_eof() || a.size() == 100);
    // b's cursor is untouched
    assert!(!b.is_eof());
    let mut b = b;
    let again = b.read(&mut fs, 100).unwrap();
    assert_eq!(again, first);
}

#[test]
fn read_dir_reports_child_modes() {
    let mut fs = mount();
    let root = fs.open("/").unwrap();
    let entries = root.read_dir(&mut fs).unwrap();
    for e in &entries {
        if e.name() == b"test" {
            assert!(e.mode().is_dir());
            assert!(e.inode().mode().is_dir());
        }
    }
}

#[test]
fn facade_block_and_inode_helpers() {
    let mut fs = mount();
    let block = fs.read_block(10).unwrap();
    assert_eq!(block.len(), 4096);
    assert!(block.iter().all(|&b| b == 0x5A));
    assert!(fs.read_block(100).is_err());
    let inode = fs.read_inode(12).unwrap();
    assert_eq!(inode.size(), 5000);
    assert!(inode.mode().is_file());
    assert!(inode.flags().has_extents());
    let tree = inode.blocks().unwrap();
    assert_eq!(tree.data_blocks(), vec![10, 11]);
}

/// Every inode number in `[1, inodes_count]` has its record inside the
/// device: each one can be located and read.
#[test]
fn all_inode_records_lie_on_the_device() {
    let mut fs = mount();
    let count = fs.sb().inodes_count();
    for n in 1..=count {
        assert!(fs.read_inode(n).is_some(), "inode {} not locatable", n);
    }
}

/// For a regular file the union of the leaf extents' logical ranges is
/// a prefix of `[0, ceil(size / block_size))`: every logical block up
/// to the file's end resolves, in order, with no hole.
#[test]
fn file_extents_cover_a_prefix() {
    let mut fs = mount();
    let inode = fs.read_inode(12).unwrap();
    let tree = inode.blocks().unwrap();
    let nblocks = (inode.size() + 4095) / 4096;
    assert_eq!(nblocks, 2);
    let mut expected_next = None;
    for l in 0..nblocks {
        let phys = tree.resolve(l as u32);
        assert!(phys.is_some(), "logical block {} is a hole", l);
        if let Some(prev) = expected_next {
            assert!(phys.unwrap() == prev);
        }
        expected_next = Some(phys.unwrap() + 1);
    }
    assert_eq!(tree.resolve(nblocks as u32), None);
    assert_eq!(tree.data_blocks().len() as u64, nblocks);
}

#[test]
fn handle_reads_blocks_by_logical_index() {
    let mut fs = mount();
    let f = fs.open("/test/test.bin").unwrap();
    let block = f.read_block(&mut fs, 0).unwrap();
    assert_eq!(block.len(), 4096);
    assert!(block.iter().all(|&b| b == 0x5A));
    let tail = f.read_block(&mut fs, 1).unwrap();
    assert_eq!(tail.len(), 4096);
    assert_eq!(tail[903], 0x5A);
    assert_eq!(tail[904], 0);
}

#[test]
fn error_kinds_from_the_facade() {
    let mut fs = mount();
    // reading past the device: a short read against the device
    assert!(matches!(fs.read_block(100), Err(ext4::Error::UnexpectedEof(_))));
    // a legacy block-map inode: the extent path is the only one supported
    let legacy = ext4::Inode::from_bytes(&[0u8; 128]).unwrap();
    assert!(!legacy.flags().has_extents());
    assert!(matches!(
        fs.file_blocks(&legacy),
        Err(ext4::Error::InvalidInput(_))
    ));
    // a corrupt extent root: structural violation mid-walk
    let mut bad = vec![0u8; 128];
    bad[0x22] = 0x08; // extents flag, 0x0008_0000 little-endian
    bad[0x04] = 1; // nonzero size forces a resolution against the bad root
    let bad_inode = ext4::Inode::from_bytes(&bad).unwrap();
    assert!(bad_inode.flags().has_extents());
    assert!(matches!(
        fs.file_blocks(&bad_inode),
        Err(ext4::Error::InvalidData(_))
    ));
}

#[test]
fn open_handle_on_directory_regardless_of_mode() {
    let mut fs = mount();
    // open returns a handle whatever the final inode's mode is
    let d = fs.open("/test").unwrap();
    assert!(d.mode().is_dir());
    assert!(!d.mode().is_file());
    assert_eq!(d.name(), b"test");
    assert_eq!(d.size(), 4096);
}
