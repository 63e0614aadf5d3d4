use ext4::{
    bytes_eq, parse_dir_block, read_fixed_bytes, read_u16_le, read_u32_le, read_u64_le, split_path,
    u64_to_dec, DirEntry, EncryptAlgos, Error, ExtentTree, FsState, Group, GroupDesc, HashAlgorithm,
    IFlags, MemDisk, Mode, OnErrors, SuperBlock, OS,
};

fn w16(img: &mut Vec<u8>, off: usize, v: u16) {
    img[off..off + 2].copy_from_slice(&v.to_le_bytes());
}

fn w32(img: &mut Vec<u8>, off: usize, v: u32) {
    img[off..off + 4].copy_from_slice(&v.to_le_bytes());
}

#[test]
fn decode_little_endian_words() {
    let b = [0x01u8, 0x02, 0x03, 0x04, 0x05, 0x06, 0x07, 0x08, 0xFF];
    assert_eq!(read_u16_le(&b, 0).unwrap(), 0x0201);
    assert_eq!(read_u16_le(&b, 7).unwrap(), 0xFF08);
    assert_eq!(read_u32_le(&b, 0).unwrap(), 0x04030201);
    assert_eq!(read_u32_le(&b, 3).unwrap(), 0x07060504);
    assert_eq!(read_u64_le(&b, 0).unwrap(), 0x0807060504030201);
    assert!(matches!(read_u16_le(&b, 8), Err(Error::InvalidData(_))));
    assert!(matches!(read_u32_le(&b, 6), Err(Error::InvalidData(_))));
    assert!(matches!(read_u64_le(&b, 2), Err(Error::InvalidData(_))));
}

#[test]
fn decode_fixed_bytes() {
    let b = [9u8, 8, 7, 6, 5];
    assert_eq!(read_fixed_bytes(&b, 1, 3).unwrap(), vec![8, 7, 6]);
    assert_eq!(read_fixed_bytes(&b, 5, 0).unwrap(), Vec::<u8>::new());
    assert!(matches!(read_fixed_bytes(&b, 3, 3), Err(Error::InvalidData(_))));
}

#[test]
fn mode_type_predicates() {
    let d = Mode::from_bits(0x41ED);
    assert!(d.is_dir());
    assert!(!d.is_file());
    let f = Mode::from_bits(0x81A4);
    assert!(f.is_file());
    assert!(!f.is_dir());
    assert!(Mode::from_bits(0xA1FF).is_symlink());
    assert!(Mode::from_bits(0x1000).is_fifo());
    assert!(Mode::from_bits(0x2000).is_char_device());
    assert!(Mode::from_bits(0x6000).is_block_device());
    assert!(Mode::from_bits(0xC000).is_socket());
    // the nibble is an enumeration: carrying a type's bits is not being
    // that type
    let blk = Mode::from_bits(0x61FF);
    assert!(blk.is_block_device());
    assert!(!blk.is_dir());
    assert!(!blk.is_char_device());
    let sym = Mode::from_bits(0xA000);
    assert!(sym.is_symlink());
    assert!(!sym.is_file());
    let sock = Mode::from_bits(0xC000);
    assert!(sock.is_socket());
    assert!(!sock.is_file());
    assert!(!sock.is_dir());
    assert_eq!(f.file_type().bits(), 0x8000);
    assert_eq!(f.perm(), 0o644);
    assert_eq!(d.perm(), 0o755);
}

#[test]
fn mode_render_ten_chars() {
    assert_eq!(Mode::from_bits(0x41ED).render(), "drwxr-xr-x");
    assert_eq!(Mode::from_bits(0x81A4).render(), "-rw-r--r--");
    assert_eq!(Mode::from_bits(0xA1FF).render(), "lrwxrwxrwx");
    assert_eq!(Mode::from_bits(0x1000).render(), "p---------");
    assert_eq!(Mode::from_bits(0x2180).render(), "crw-------");
    assert_eq!(Mode::from_bits(0x6000).render(), "b---------");
    assert_eq!(Mode::from_bits(0xC000).render(), "s---------");
}

#[test]
fn iflags_extents_bit() {
    assert!(IFlags::from_bits(0x00080000).has_extents());
    assert!(!IFlags::from_bits(0x00040000).has_extents());
    assert!(IFlags::from_bits(0x000C0000).contains(IFlags::EXTENTS | IFlags::HUGE_FILE));
}

#[test]
fn raw_enum_words() {
    assert_eq!(FsState::from_raw(1), Some(FsState::Cleanly));
    assert_eq!(FsState::from_raw(2), Some(FsState::Errors));
    assert_eq!(FsState::from_raw(4), Some(FsState::Recovered));
    assert_eq!(FsState::from_raw(3), None);
    assert_eq!(OnErrors::from_raw(3), Some(OnErrors::Panic));
    assert_eq!(OnErrors::from_raw(0), None);
    assert_eq!(OS::from_raw(0), Some(OS::Linux));
    assert_eq!(OS::from_raw(4), Some(OS::Lites));
    assert_eq!(OS::from_raw(9), None);
    assert_eq!(HashAlgorithm::from_raw(1), Some(HashAlgorithm::HalfMD4));
    assert_eq!(HashAlgorithm::from_raw(6), None);
    assert_eq!(EncryptAlgos::from_raw(0), Some(EncryptAlgos::NotEncrypted));
    assert_eq!(EncryptAlgos::from_raw(1), Some(EncryptAlgos::Aes256Xts));
    assert_eq!(EncryptAlgos::from_raw(7), None);
}

#[test]
fn decimal_rendering() {
    assert_eq!(u64_to_dec(0), "0");
    assert_eq!(u64_to_dec(7), "7");
    assert_eq!(u64_to_dec(5000), "5000");
    assert_eq!(u64_to_dec(u64::MAX), "18446744073709551615");
}

fn sample_superblock_bytes() -> Vec<u8> {
    let mut b = vec![0u8; 1024];
    w32(&mut b, 0x00, 16); // inodes_count
    w32(&mut b, 0x04, 64); // blocks_count_lo
    w32(&mut b, 0x0C, 10); // free_blocks_count_lo
    w32(&mut b, 0x10, 4); // free_inodes_count
    w32(&mut b, 0x14, 0); // first_data_block
    w32(&mut b, 0x18, 2); // log_block_size -> 4096
    w32(&mut b, 0x20, 32768); // blocks_per_group
    w32(&mut b, 0x28, 16); // inodes_per_group
    w16(&mut b, 0x38, 0xEF53); // magic
    w16(&mut b, 0x3A, 1); // state
    w16(&mut b, 0x3C, 1); // errors
    w16(&mut b, 0x3E, 3); // minor rev
    w32(&mut b, 0x48, 0); // creator os
    w32(&mut b, 0x4C, 1); // rev level
    w16(&mut b, 0x58, 256); // inode_size
    w32(&mut b, 0x60, 0x42); // incompat: file type + extents
    w32(&mut b, 0x64, 0x2); // ro compat: large file
    for i in 0..16 {
        b[0x68 + i] = (i as u8) * 0x11;
    }
    b[0x78..0x7F].copy_from_slice(b"testvol");
    w16(&mut b, 0xFE, 64); // desc_size
    b
}

#[test]
fn superblock_fields_and_geometry() {
    let bytes = sample_superblock_bytes();
    let sb = SuperBlock::from_buffer(&bytes).unwrap();
    assert!(sb.is_valid());
    assert!(sb.well_formed());
    assert_eq!(sb.block_size(), 4096);
    assert_eq!(sb.inode_size(), 256);
    assert_eq!(sb.inodes_count(), 16);
    assert_eq!(sb.free_inodes_count(), 4);
    assert_eq!(sb.block_count(), 64);
    assert_eq!(sb.free_block_count(), 10);
    assert_eq!(sb.blocks_per_group(), 32768);
    assert_eq!(sb.inodes_per_group(), 16);
    assert_eq!(sb.first_data_block(), 0);
    assert_eq!(sb.get_groups_count(), 1);
    assert_eq!(sb.fs_state(), Some(FsState::Cleanly));
    assert_eq!(sb.on_errors(), Some(OnErrors::Continue));
    assert_eq!(sb.os(), Some(OS::Linux));
    assert!(sb.feature_in_compat().contains(0x40));
    assert!(sb.feature_ro_compat().contains(0x2));
    assert!(!sb.has_sb_backup());
    assert_eq!(sb.name(), b"testvol\0\0\0\0\0\0\0\0\0".to_vec());
}

#[test]
fn superblock_uuid_grouping() {
    let bytes = sample_superblock_bytes();
    let sb = SuperBlock::from_buffer(&bytes).unwrap();
    assert_eq!(sb.uuid(), "00112233-4455-6677-8899-aabbccddeeff");
}

#[test]
fn superblock_decode_is_deterministic() {
    let bytes = sample_superblock_bytes();
    let a = SuperBlock::from_buffer(&bytes).unwrap();
    let b = SuperBlock::from_buffer(&bytes).unwrap();
    assert_eq!(a.inodes_count, b.inodes_count);
    assert_eq!(a.log_block_size, b.log_block_size);
    assert_eq!(a.magic, b.magic);
    assert_eq!(a.uuid, b.uuid);
    assert_eq!(a.volume_name, b.volume_name);
    assert_eq!(a.uuid(), b.uuid());
    assert_eq!(a.block_size(), b.block_size());
}

#[test]
fn superblock_bad_magic_is_absent() {
    let mut bytes = sample_superblock_bytes();
    w16(&mut bytes, 0x38, 0xAAAA);
    assert!(SuperBlock::from_buffer(&bytes).is_none());
    assert!(SuperBlock::from_buffer(&bytes[..100]).is_none());
}

#[test]
fn superblock_info_mentions_magic_and_uuid() {
    let bytes = sample_superblock_bytes();
    let sb = SuperBlock::from_buffer(&bytes).unwrap();
    let info = sb.describe();
    assert!(info.contains("ef53"));
    assert!(info.contains("00112233-4455-6677-8899-aabbccddeeff"));
    assert!(info.contains("rev 1.3"));
    assert!(info.contains("10/64"));
    assert!(info.contains("4/16"));
    assert!(info.contains("(extents)"));
    assert!(info.contains("(large files)"));
    assert!(!info.contains("(64bit)"));
}

#[test]
fn group_descriptor_decoding() {
    let mut b = vec![0u8; 64];
    w32(&mut b, 0x00, 3); // block bitmap
    w32(&mut b, 0x04, 4); // inode bitmap
    w32(&mut b, 0x08, 5); // inode table lo
    w16(&mut b, 0x0C, 100); // free blocks lo
    w32(&mut b, 0x28, 1); // inode table hi
    let d = GroupDesc::from_bytes(&b).unwrap();
    assert_eq!(d.block_bitmap_lo, 3);
    assert_eq!(d.inode_bitmap_lo, 4);
    assert_eq!(d.inode_table_lo, 5);
    assert_eq!(d.free_blocks_count_lo, 100);
    assert_eq!(d.inode_table_hi, 1);
    assert!(GroupDesc::from_bytes(&b[..63]).is_none());
}

/// The descriptor table starts at byte 2,048 for 1,024-byte blocks and
/// at `block_size` for larger blocks.
#[test]
fn gdt_base_depends_on_block_size() {
    // 1,024-byte blocks: descriptor for group 0 is read at byte 2,048.
    let mut img = vec![0u8; 8192];
    w32(&mut img, 1024 + 0x00, 8); // inodes_count
    w32(&mut img, 1024 + 0x04, 8); // blocks_count
    w32(&mut img, 1024 + 0x18, 0); // log_block_size -> 1024
    w32(&mut img, 1024 + 0x20, 8); // blocks_per_group
    w32(&mut img, 1024 + 0x28, 8); // inodes_per_group
    w16(&mut img, 1024 + 0x38, 0xEF53);
    w16(&mut img, 1024 + 0x58, 128); // inode_size
    w32(&mut img, 2048 + 0x08, 77); // group 0 inode_table_lo at byte 2048
    let mut disk = MemDisk::new(img);
    let sb = SuperBlock::new(&mut disk).unwrap();
    assert!(sb.well_formed());
    assert_eq!(sb.block_size(), 1024);
    let g = Group::new(&mut disk, &sb, 0).unwrap();
    assert_eq!(g.inode_table(), 77);

    // 4,096-byte blocks: descriptor for group 0 is read at byte 4,096.
    let mut img = vec![0u8; 16384];
    w32(&mut img, 1024 + 0x00, 16);
    w32(&mut img, 1024 + 0x04, 4);
    w32(&mut img, 1024 + 0x18, 2); // log_block_size -> 4096
    w32(&mut img, 1024 + 0x20, 32768);
    w32(&mut img, 1024 + 0x28, 16);
    w16(&mut img, 1024 + 0x38, 0xEF53);
    w16(&mut img, 1024 + 0x58, 256);
    w32(&mut img, 4096 + 0x08, 99); // group 0 inode_table_lo at byte 4096
    let mut disk = MemDisk::new(img);
    let sb = SuperBlock::new(&mut disk).unwrap();
    assert_eq!(sb.block_size(), 4096);
    let g = Group::new(&mut disk, &sb, 0).unwrap();
    assert_eq!(g.inode_table(), 99);
}

#[test]
fn group_inode_mapping() {
    let mut img = vec![0u8; 8192];
    w32(&mut img, 1024 + 0x00, 16);
    w32(&mut img, 1024 + 0x04, 8);
    w32(&mut img, 1024 + 0x18, 0);
    w32(&mut img, 1024 + 0x20, 8);
    w32(&mut img, 1024 + 0x28, 4); // 4 inodes per group
    w16(&mut img, 1024 + 0x38, 0xEF53);
    w16(&mut img, 1024 + 0x58, 128);
    w32(&mut img, 2048 + 0x08, 5);
    w32(&mut img, 2048 + 64 + 0x08, 6); // group 1 descriptor
    let mut disk = MemDisk::new(img);
    let sb = SuperBlock::new(&mut disk).unwrap();
    // Inodes 1..=4 are in group 0; inode 5 starts group 1.
    let g0 = Group::get_group(&mut disk, &sb, 4).unwrap();
    assert_eq!(g0.num, 0);
    assert_eq!(g0.inode_table(), 5);
    assert_eq!(g0.first_inode_num(), 1);
    let g1 = Group::get_group(&mut disk, &sb, 5).unwrap();
    assert_eq!(g1.num, 1);
    assert_eq!(g1.inode_table(), 6);
    assert_eq!(g1.first_inode_num(), 5);
    assert_eq!(g0.first_block_num(), 0);
    assert_eq!(g1.first_block_num(), 8);
    assert!(Group::get_group(&mut disk, &sb, 0).is_none());
}

fn leaf_node(entries: &[(u32, u16, u64)]) -> Vec<u8> {
    let mut b = vec![0u8; 60];
    w16(&mut b, 0, 0xF30A);
    w16(&mut b, 2, entries.len() as u16);
    w16(&mut b, 4, 4);
    w16(&mut b, 6, 0); // depth
    for (i, &(lblk, len, phys)) in entries.iter().enumerate() {
        let off = 12 + 12 * i;
        w32(&mut b, off, lblk);
        w16(&mut b, off + 4, len);
        w16(&mut b, off + 6, (phys >> 32) as u16);
        w32(&mut b, off + 8, phys as u32);
    }
    b
}

#[test]
fn extent_tree_parse_and_resolve() {
    let b = leaf_node(&[(0, 2, 100), (2, 3, 500)]);
    let t = ExtentTree::new(&b).unwrap();
    assert!(t.is_valid());
    assert_eq!(t.header.entries, 2);
    assert_eq!(t.resolve(0), Some(100));
    assert_eq!(t.resolve(1), Some(101));
    assert_eq!(t.resolve(2), Some(500));
    assert_eq!(t.resolve(4), Some(502));
    assert_eq!(t.resolve(5), None); // past the mapped range: a hole
    assert_eq!(t.data_blocks(), vec![100, 101, 500, 501, 502]);
}

/// Leaf extents must be sorted with disjoint ranges; a violating root
/// is rejected.
#[test]
fn extent_tree_rejects_unsorted_leaves() {
    let sorted = leaf_node(&[(0, 2, 100), (2, 1, 200)]);
    assert!(ExtentTree::new(&sorted).is_some());
    let overlapping = leaf_node(&[(0, 2, 100), (1, 1, 200)]);
    assert!(ExtentTree::new(&overlapping).is_none());
    let backwards = leaf_node(&[(5, 1, 100), (0, 1, 200)]);
    assert!(ExtentTree::new(&backwards).is_none());
}

#[test]
fn extent_tree_rejects_bad_magic_and_counts() {
    let mut bad_magic = leaf_node(&[(0, 1, 9)]);
    w16(&mut bad_magic, 0, 0x1234);
    assert!(ExtentTree::new(&bad_magic).is_none());
    let mut too_many = leaf_node(&[(0, 1, 9)]);
    w16(&mut too_many, 2, 5); // entries > max
    assert!(ExtentTree::new(&too_many).is_none());
    let mut wide = leaf_node(&[(0, 1, 9)]);
    w16(&mut wide, 4, 9); // max > 4 at the root
    assert!(ExtentTree::new(&wide).is_none());
}

#[test]
fn extent_uninitialized_region_is_zeros() {
    // Stored length 32,770 encodes 2 uninitialized blocks.
    let b = leaf_node(&[(0, 32770, 100)]);
    let t = ExtentTree::new(&b).unwrap();
    assert_eq!(t.resolve(0), None);
    assert_eq!(t.resolve(1), None);
    assert_eq!(t.resolve(2), None);
}

#[test]
fn empty_extent_tree_is_empty_file() {
    let b = leaf_node(&[]);
    let t = ExtentTree::new(&b).unwrap();
    assert_eq!(t.resolve(0), None);
    assert_eq!(t.data_blocks(), Vec::<u64>::new());
}

fn dirent_at(b: &mut Vec<u8>, off: usize, inode: u32, rec_len: u16, name: &[u8], ftype: u8) {
    w32(b, off, inode);
    w16(b, off + 4, rec_len);
    b[off + 6] = name.len() as u8;
    b[off + 7] = ftype;
    b[off + 8..off + 8 + name.len()].copy_from_slice(name);
}

#[test]
fn dirent_from_bytes() {
    let mut b = vec![0u8; 64];
    dirent_at(&mut b, 0, 12, 16, b"test.bin", 1);
    let (e, name) = DirEntry::from_bytes(&b).unwrap();
    assert_eq!(e.inode, 12);
    assert_eq!(e.rec_len, 16);
    assert_eq!(e.name_len, 8);
    assert_eq!(e.file_type, 1);
    assert_eq!(e.len(), 16);
    assert_eq!(name, b"test.bin".to_vec());
    // A tombstone terminates iteration.
    let zero = vec![0u8; 64];
    assert!(DirEntry::from_bytes(&zero).is_none());
    assert!(DirEntry::from_bytes(&b[..4]).is_none());
}

/// The sum of `rec_len` over yielded entries reaches the block size, or
/// iteration stops at a tombstone.
#[test]
fn dir_block_iteration_covers_block_or_stops() {
    let mut b = vec![0u8; 128];
    dirent_at(&mut b, 0, 2, 12, b".", 2);
    dirent_at(&mut b, 12, 2, 12, b"..", 2);
    dirent_at(&mut b, 24, 11, 104, b"sub", 2); // last record extends to block end
    let entries = parse_dir_block(&b);
    assert_eq!(entries.len(), 3);
    let total: usize = entries.iter().map(|p| p.0.rec_len as usize).sum();
    assert_eq!(total, 128);
    assert_eq!(entries[2].1, b"sub".to_vec());

    let mut with_tombstone = vec![0u8; 128];
    dirent_at(&mut with_tombstone, 0, 2, 12, b".", 2);
    // record at offset 12 keeps inode 0: iteration stops there
    let entries = parse_dir_block(&with_tombstone);
    assert_eq!(entries.len(), 1);
    let total: usize = entries.iter().map(|p| p.0.rec_len as usize).sum();
    assert!(total <= 128);
}

#[test]
fn dir_block_rejects_bad_rec_len() {
    let mut b = vec![0u8; 32];
    dirent_at(&mut b, 0, 2, 4, b".", 2); // rec_len below the header size
    assert!(parse_dir_block(&b).is_empty());
}

#[test]
fn path_splitting() {
    let comps = split_path(b"/test/test.bin");
    assert_eq!(comps, vec![b"test".to_vec(), b"test.bin".to_vec()]);
    assert_eq!(split_path(b"/"), Vec::<Vec<u8>>::new());
    assert_eq!(split_path(b""), Vec::<Vec<u8>>::new());
    assert_eq!(split_path(b"//a//b/"), vec![b"a".to_vec(), b"b".to_vec()]);
    assert_eq!(split_path(b"abc"), vec![b"abc".to_vec()]);
}

#[test]
fn byte_string_equality() {
    assert!(bytes_eq(b"abc", b"abc"));
    assert!(!bytes_eq(b"abc", b"abd"));
    assert!(!bytes_eq(b"abc", b"ab"));
    assert!(bytes_eq(b"", b""));
}

#[test]
fn memdisk_reads() {
    let data: Vec<u8> = (0u8..100).collect();
    let mut d = MemDisk::new(data);
    assert_eq!(d.len(), 100);
    let v = ext4::Disk::read_at(&mut d, 10, 5).unwrap();
    assert_eq!(v, vec![10, 11, 12, 13, 14]);
    assert!(ext4::Disk::read_at(&mut d, 98, 5).is_err());
    ext4::Disk::seek_to(&mut d, 20);
    let v = ext4::Disk::read(&mut d, 3).unwrap();
    assert_eq!(v, vec![20, 21, 22]);
    let v = ext4::Disk::read(&mut d, 2).unwrap();
    assert_eq!(v, vec![23, 24]);
    let v = ext4::Disk::read_block(&mut d, 10, 4).unwrap();
    assert_eq!(v, (40u8..50).collect::<Vec<u8>>());
}

#[test]
fn find_backup_probes_odd_groups() {
    // 1,024-byte blocks, 8 blocks per group, 32 blocks: 4 groups.
    // Odd groups 1 and 3 start at blocks 8 and 24; probes look at
    // blocks 9 and 25.
    let mut img = vec![0u8; 32 * 1024];
    w32(&mut img, 1024 + 0x00, 8);
    w32(&mut img, 1024 + 0x04, 32);
    w32(&mut img, 1024 + 0x18, 0); // 1,024-byte blocks
    w32(&mut img, 1024 + 0x20, 8);
    w32(&mut img, 1024 + 0x28, 2);
    w16(&mut img, 1024 + 0x38, 0xEF53);
    w16(&mut img, 1024 + 0x58, 128);
    // a decodable backup at block 9, garbage at block 25
    w16(&mut img, 9 * 1024 + 0x38, 0xEF53);
    let mut disk = MemDisk::new(img);
    let sb = SuperBlock::new(&mut disk).unwrap();
    assert_eq!(sb.get_groups_count(), 4);
    let backups = sb.find_backup(&mut disk);
    assert_eq!(backups, vec![9]);
}

#[test]
fn default_inode_is_zeroed() {
    let d = <ext4::Inode as Default>::default();
    assert_eq!(d.size(), 0);
    assert_eq!(d.blocks_count(), 0);
    assert_eq!(d.mode().bits(), 0);
    assert!(!d.flags().has_extents());
    assert!(d.blocks().is_none());
}

#[test]
fn error_constructors_carry_kinds() {
    assert!(matches!(Error::invalid_input(), Error::InvalidInput(_)));
    assert!(matches!(Error::not_found(), Error::NotFound(_)));
    assert!(matches!(Error::io_error(), Error::IOError(_)));
    assert!(matches!(Error::unexpected_eof(), Error::UnexpectedEof(_)));
    assert!(matches!(Error::invalid_data(), Error::InvalidData(_)));
}
