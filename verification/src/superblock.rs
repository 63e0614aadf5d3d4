//! The superblock: the root metadata record describing filesystem-wide
//! geometry and features.
//!
//! A fixed 1,024-byte record located at byte offset 1,024 of the device.
//! Decoding is field-by-field little-endian; `is_decode_of` states, byte
//! for byte, what every decoded field is.

use vstd::prelude::*;
use vstd::arithmetic::power2::{pow2, lemma2_to64, lemma2_to64_rest, lemma_pow2_strictly_increases};
use vstd::bits::lemma_u64_shl_is_mul;
use crate::decode::{le_u16, le_u32, get_u16, get_u32};
use crate::device::Disk;
use crate::render::{hex_range, dec_render, append_hex_range, append_dec};

verus! {

/// Compatible feature bits.
#[derive(Debug, Copy, Clone, PartialEq, Eq, Structural)]
pub struct FeatureCompat {
    bits: u32,
}

impl FeatureCompat {
    pub const DIR_PREALLOC: u32 = 0x0001;

    pub const IMAGIC_INODES: u32 = 0x0002;

    pub const HAS_JOURNAL: u32 = 0x0004;

    pub const EXT_ATTR: u32 = 0x0008;

    pub const RESIZE_INODE: u32 = 0x0010;

    pub const DIR_INDEX: u32 = 0x0020;

    pub const SPARSE_SUPER2: u32 = 0x0200;

    pub const FAST_COMMIT: u32 = 0x0400;

    pub const STABLE_INODES: u32 = 0x0800;

    pub const ORPHAN_FILE: u32 = 0x1000;

    pub closed spec fn spec_bits(&self) -> u32 {
        self.bits
    }

    #[verifier::when_used_as_spec(spec_bits)]
    pub fn bits(&self) -> (r: u32)
        ensures
            r == self.spec_bits(),
    {
        self.bits
    }

    pub fn from_bits(bits: u32) -> (r: FeatureCompat)
        ensures
            r.bits() == bits,
    {
        FeatureCompat { bits }
    }

    /// Whether every bit of `flags` is set.
    pub fn contains(&self, flags: u32) -> (r: bool)
        ensures
            r == (self.bits() & flags == flags),
    {
        self.bits & flags == flags
    }
}

/// Incompatible feature bits.
#[derive(Debug, Copy, Clone, PartialEq, Eq, Structural)]
pub struct FeatureInCompat {
    bits: u32,
}

impl FeatureInCompat {
    pub const COMPRESSION: u32 = 0x0001;

    /// Directory entries record the child's file type.
    pub const FILE_TYPE: u32 = 0x0002;

    pub const RECOVER: u32 = 0x0004;

    pub const JOURNAL_DEV: u32 = 0x0008;

    pub const META_BG: u32 = 0x0010;

    /// Inodes may carry extent trees.
    pub const EXTENTS: u32 = 0x0040;

    /// Block numbers are 64-bit wide.
    pub const IS_64BIT: u32 = 0x0080;

    pub const MMP: u32 = 0x0100;

    pub const FLEX_BG: u32 = 0x0200;

    pub const EA_INODE: u32 = 0x0400;

    pub const DIR_DATA: u32 = 0x1000;

    pub const CSUM_SEED: u32 = 0x2000;

    pub const LARGE_DIR: u32 = 0x4000;

    pub const INLINE_DATA: u32 = 0x8000;

    pub const ENCRYPT: u32 = 0x10000;

    pub const CASE_FOLD: u32 = 0x20000;

    pub closed spec fn spec_bits(&self) -> u32 {
        self.bits
    }

    #[verifier::when_used_as_spec(spec_bits)]
    pub fn bits(&self) -> (r: u32)
        ensures
            r == self.spec_bits(),
    {
        self.bits
    }

    pub fn from_bits(bits: u32) -> (r: FeatureInCompat)
        ensures
            r.bits() == bits,
    {
        FeatureInCompat { bits }
    }

    /// Whether every bit of `flags` is set.
    pub fn contains(&self, flags: u32) -> (r: bool)
        ensures
            r == (self.bits() & flags == flags),
    {
        self.bits & flags == flags
    }
}

/// Read-only-compatible feature bits.
#[derive(Debug, Copy, Clone, PartialEq, Eq, Structural)]
pub struct FeatureRoCompat {
    bits: u32,
}

impl FeatureRoCompat {
    pub const SPARSE_SUPER: u32 = 0x0001;

    pub const LARGE_FILE: u32 = 0x0002;

    pub const BTREE_DIR: u32 = 0x0004;

    pub const HUGE_FILE: u32 = 0x0008;

    pub const GDT_CSUM: u32 = 0x0010;

    pub const DIR_NLINK: u32 = 0x0020;

    pub const EXTRA_ISIZE: u32 = 0x0040;

    pub const QUOTA: u32 = 0x0100;

    pub const BIG_ALLOC: u32 = 0x0200;

    pub const METADATA_CSUM: u32 = 0x0400;

    pub const READONLY: u32 = 0x1000;

    pub const PROJECT: u32 = 0x2000;

    pub const VERITY: u32 = 0x8000;

    pub const ORPHAN_PRESENT: u32 = 0x10000;

    pub closed spec fn spec_bits(&self) -> u32 {
        self.bits
    }

    #[verifier::when_used_as_spec(spec_bits)]
    pub fn bits(&self) -> (r: u32)
        ensures
            r == self.spec_bits(),
    {
        self.bits
    }

    pub fn from_bits(bits: u32) -> (r: FeatureRoCompat)
        ensures
            r.bits() == bits,
    {
        FeatureRoCompat { bits }
    }

    /// Whether every bit of `flags` is set.
    pub fn contains(&self, flags: u32) -> (r: bool)
        ensures
            r == (self.bits() & flags == flags),
    {
        self.bits & flags == flags
    }
}

/// Filesystem state word.
#[derive(Debug, Copy, Clone, PartialEq, Eq, Structural)]
pub enum FsState {
    Cleanly,
    Errors,
    Recovered,
}

/// The state named by a raw state word, if any.
pub open spec fn spec_fs_state(v: u16) -> Option<FsState> {
    if v == 1 {
        Some(FsState::Cleanly)
    } else if v == 2 {
        Some(FsState::Errors)
    } else if v == 4 {
        Some(FsState::Recovered)
    } else {
        None
    }
}

impl FsState {
    pub fn from_raw(v: u16) -> (r: Option<FsState>)
        ensures
            r == spec_fs_state(v),
    {
        if v == 1 {
            Some(FsState::Cleanly)
        } else if v == 2 {
            Some(FsState::Errors)
        } else if v == 4 {
            Some(FsState::Recovered)
        } else {
            None
        }
    }
}

/// Behaviour on detecting errors.
#[derive(Debug, Copy, Clone, PartialEq, Eq, Structural)]
pub enum OnErrors {
    Continue,
    Remount,
    Panic,
}

/// The behaviour named by a raw errors word, if any.
pub open spec fn spec_on_errors(v: u16) -> Option<OnErrors> {
    if v == 1 {
        Some(OnErrors::Continue)
    } else if v == 2 {
        Some(OnErrors::Remount)
    } else if v == 3 {
        Some(OnErrors::Panic)
    } else {
        None
    }
}

impl OnErrors {
    pub fn from_raw(v: u16) -> (r: Option<OnErrors>)
        ensures
            r == spec_on_errors(v),
    {
        if v == 1 {
            Some(OnErrors::Continue)
        } else if v == 2 {
            Some(OnErrors::Remount)
        } else if v == 3 {
            Some(OnErrors::Panic)
        } else {
            None
        }
    }
}

/// Creator operating system.
#[derive(Debug, Copy, Clone, PartialEq, Eq, Structural)]
pub enum OS {
    Linux,
    Hurd,
    Masix,
    FreeBSD,
    Lites,
}

/// The operating system named by a raw creator word, if any.
pub open spec fn spec_os(v: u32) -> Option<OS> {
    if v == 0 {
        Some(OS::Linux)
    } else if v == 1 {
        Some(OS::Hurd)
    } else if v == 2 {
        Some(OS::Masix)
    } else if v == 3 {
        Some(OS::FreeBSD)
    } else if v == 4 {
        Some(OS::Lites)
    } else {
        None
    }
}

impl OS {
    pub fn from_raw(v: u32) -> (r: Option<OS>)
        ensures
            r == spec_os(v),
    {
        if v == 0 {
            Some(OS::Linux)
        } else if v == 1 {
            Some(OS::Hurd)
        } else if v == 2 {
            Some(OS::Masix)
        } else if v == 3 {
            Some(OS::FreeBSD)
        } else if v == 4 {
            Some(OS::Lites)
        } else {
            None
        }
    }
}

/// Directory hash algorithm selector.
#[derive(Debug, Copy, Clone, PartialEq, Eq, Structural)]
pub enum HashAlgorithm {
    Legacy,
    HalfMD4,
    Tea,
    LegacyUnsigned,
    HalfMD4Unsigned,
    TeaUnsigned,
}

/// The hash algorithm named by a raw selector byte, if any.
pub open spec fn spec_hash_algorithm(v: u8) -> Option<HashAlgorithm> {
    if v == 0 {
        Some(HashAlgorithm::Legacy)
    } else if v == 1 {
        Some(HashAlgorithm::HalfMD4)
    } else if v == 2 {
        Some(HashAlgorithm::Tea)
    } else if v == 3 {
        Some(HashAlgorithm::LegacyUnsigned)
    } else if v == 4 {
        Some(HashAlgorithm::HalfMD4Unsigned)
    } else if v == 5 {
        Some(HashAlgorithm::TeaUnsigned)
    } else {
        None
    }
}

impl HashAlgorithm {
    pub fn from_raw(v: u8) -> (r: Option<HashAlgorithm>)
        ensures
            r == spec_hash_algorithm(v),
    {
        if v == 0 {
            Some(HashAlgorithm::Legacy)
        } else if v == 1 {
            Some(HashAlgorithm::HalfMD4)
        } else if v == 2 {
            Some(HashAlgorithm::Tea)
        } else if v == 3 {
            Some(HashAlgorithm::LegacyUnsigned)
        } else if v == 4 {
            Some(HashAlgorithm::HalfMD4Unsigned)
        } else if v == 5 {
            Some(HashAlgorithm::TeaUnsigned)
        } else {
            None
        }
    }
}

/// Encryption algorithms word.
#[derive(Debug, Copy, Clone, PartialEq, Eq, Structural)]
pub enum EncryptAlgos {
    NotEncrypted,
    Aes256Xts,
    Aes256Gcm,
    Aes256Cbc,
}

/// The encryption algorithm named by a raw word, if any.
pub open spec fn spec_encrypt_algos(v: u32) -> Option<EncryptAlgos> {
    if v == 0 {
        Some(EncryptAlgos::NotEncrypted)
    } else if v == 1 {
        Some(EncryptAlgos::Aes256Xts)
    } else if v == 2 {
        Some(EncryptAlgos::Aes256Gcm)
    } else if v == 3 {
        Some(EncryptAlgos::Aes256Cbc)
    } else {
        None
    }
}

impl EncryptAlgos {
    pub fn from_raw(v: u32) -> (r: Option<EncryptAlgos>)
        ensures
            r == spec_encrypt_algos(v),
    {
        if v == 0 {
            Some(EncryptAlgos::NotEncrypted)
        } else if v == 1 {
            Some(EncryptAlgos::Aes256Xts)
        } else if v == 2 {
            Some(EncryptAlgos::Aes256Gcm)
        } else if v == 3 {
            Some(EncryptAlgos::Aes256Cbc)
        } else {
            None
        }
    }
}

/// The decoded superblock. Fields mirror the on-disk record; split
/// low/high halves are recombined by the accessors.
#[derive(Debug)]
pub struct SuperBlock {
    pub inodes_count: u32,
    pub blocks_count_lo: u32,
    pub free_blocks_count_lo: u32,
    pub free_inodes_count: u32,
    pub first_data_block: u32,
    pub log_block_size: u32,
    pub blocks_per_group: u32,
    pub inodes_per_group: u32,
    pub magic: u16,
    pub state: u16,
    pub errors: u16,
    pub minor_rev_level: u16,
    pub creator_os: u32,
    pub rev_level: u32,
    pub inode_size: u16,
    pub feature_compat: FeatureCompat,
    pub feature_in_compat: FeatureInCompat,
    pub feature_ro_compat: FeatureRoCompat,
    pub uuid: Vec<u8>,
    pub volume_name: Vec<u8>,
    pub desc_size: u16,
    pub blocks_count_hi: u32,
    pub free_blocks_count_hi: u32,
    pub backup_bg_first: u32,
    pub backup_bg_second: u32,
    pub encrypt_algos: u32,
}

impl SuperBlock {
    /// Size in bytes of the on-disk record.
    pub const SIZE: usize = 1024;

    /// Byte offset of the primary superblock on the device.
    pub const OFFSET: usize = 1024;

    /// The superblock signature.
    pub const MAGIC: u16 = 0xef53;

    /// Every field of `self` is the little-endian decode of its slot in
    /// the 1,024-byte record `s`.
    pub open spec fn is_decode_of(self, s: Seq<u8>) -> bool {
        &&& s.len() >= 1024
        &&& self.inodes_count == le_u32(s, 0x00)
        &&& self.blocks_count_lo == le_u32(s, 0x04)
        &&& self.free_blocks_count_lo == le_u32(s, 0x0C)
        &&& self.free_inodes_count == le_u32(s, 0x10)
        &&& self.first_data_block == le_u32(s, 0x14)
        &&& self.log_block_size == le_u32(s, 0x18)
        &&& self.blocks_per_group == le_u32(s, 0x20)
        &&& self.inodes_per_group == le_u32(s, 0x28)
        &&& self.magic == le_u16(s, 0x38)
        &&& self.state == le_u16(s, 0x3A)
        &&& self.errors == le_u16(s, 0x3C)
        &&& self.minor_rev_level == le_u16(s, 0x3E)
        &&& self.creator_os == le_u32(s, 0x48)
        &&& self.rev_level == le_u32(s, 0x4C)
        &&& self.inode_size == le_u16(s, 0x58)
        &&& self.feature_compat.bits() == le_u32(s, 0x5C)
        &&& self.feature_in_compat.bits() == le_u32(s, 0x60)
        &&& self.feature_ro_compat.bits() == le_u32(s, 0x64)
        &&& self.uuid@ == s.subrange(0x68, 0x78)
        &&& self.volume_name@ == s.subrange(0x78, 0x88)
        &&& self.desc_size == le_u16(s, 0xFE)
        &&& self.blocks_count_hi == le_u32(s, 0x150)
        &&& self.free_blocks_count_hi == le_u32(s, 0x158)
        &&& self.backup_bg_first == le_u32(s, 0x24C)
        &&& self.backup_bg_second == le_u32(s, 0x250)
        &&& self.encrypt_algos == le_u32(s, 0x254)
    }

    /// Decode a superblock from the start of `buffer`. Absent when the
    /// buffer is shorter than the record or the magic mismatches.
    pub fn from_buffer(buffer: &[u8]) -> (r: Option<SuperBlock>)
        ensures
            r matches Some(sb) ==> sb.is_decode_of(buffer@),
            (r is Some) <==> (buffer@.len() >= 1024 && le_u16(buffer@, 0x38)
                == SuperBlock::MAGIC),
    {
        if buffer.len() < 1024 {
            return None;
        }
        let magic = get_u16(buffer, 0x38);
        if magic != SuperBlock::MAGIC {
            return None;
        }
        let uuid = sub_vec(buffer, 0x68, 0x78);
        let volume_name = sub_vec(buffer, 0x78, 0x88);
        Some(
            SuperBlock {
                inodes_count: get_u32(buffer, 0x00),
                blocks_count_lo: get_u32(buffer, 0x04),
                free_blocks_count_lo: get_u32(buffer, 0x0C),
                free_inodes_count: get_u32(buffer, 0x10),
                first_data_block: get_u32(buffer, 0x14),
                log_block_size: get_u32(buffer, 0x18),
                blocks_per_group: get_u32(buffer, 0x20),
                inodes_per_group: get_u32(buffer, 0x28),
                magic,
                state: get_u16(buffer, 0x3A),
                errors: get_u16(buffer, 0x3C),
                minor_rev_level: get_u16(buffer, 0x3E),
                creator_os: get_u32(buffer, 0x48),
                rev_level: get_u32(buffer, 0x4C),
                inode_size: get_u16(buffer, 0x58),
                feature_compat: FeatureCompat::from_bits(get_u32(buffer, 0x5C)),
                feature_in_compat: FeatureInCompat::from_bits(get_u32(buffer, 0x60)),
                feature_ro_compat: FeatureRoCompat::from_bits(get_u32(buffer, 0x64)),
                uuid,
                volume_name,
                desc_size: get_u16(buffer, 0xFE),
                blocks_count_hi: get_u32(buffer, 0x150),
                free_blocks_count_hi: get_u32(buffer, 0x158),
                backup_bg_first: get_u32(buffer, 0x24C),
                backup_bg_second: get_u32(buffer, 0x250),
                encrypt_algos: get_u32(buffer, 0x254),
            },
        )
    }

    /// Read the primary superblock from the device: 1,024 bytes at
    /// offset 1,024. Absent when the device is too short or the magic
    /// mismatches.
    pub fn new<D: Disk>(f: &mut D) -> (r: Option<SuperBlock>)
        ensures
            final(f).contents() == old(f).contents(),
            r matches Some(sb) ==> sb.is_decode_of(old(f).contents().subrange(1024, 2048)),
            (r is Some) <==> (old(f).contents().len() >= 2048 && le_u16(
                old(f).contents().subrange(1024, 2048),
                0x38,
            ) == SuperBlock::MAGIC),
    {
        match f.read_at(1024, 1024) {
            Ok(buf) => SuperBlock::from_buffer(buf.as_slice()),
            Err(_) => None,
        }
    }

    /// Whether the magic signature matches.
    pub fn is_valid(&self) -> (r: bool)
        ensures
            r == (self.magic == SuperBlock::MAGIC),
    {
        self.magic == SuperBlock::MAGIC
    }

    /// The block size in bytes: `1024 << log_block_size`.
    pub open spec fn spec_block_size(&self) -> nat {
        1024 * pow2(self.log_block_size as nat)
    }

    /// Geometry soundness: valid magic, a block size the arithmetic can
    /// carry, at least one block and inode per group, and an inode size
    /// that holds a full record and divides the block size.
    pub open spec fn spec_well_formed(&self) -> bool {
        &&& self.magic == SuperBlock::MAGIC
        &&& self.log_block_size <= 32
        &&& self.blocks_per_group > 0
        &&& self.inodes_per_group > 0
        &&& self.inode_size >= 128
        &&& self.spec_block_size() % (self.inode_size as nat) == 0
    }

    /// Check geometry soundness.
    pub fn well_formed(&self) -> (r: bool)
        ensures
            r == self.spec_well_formed(),
    {
        if self.magic != SuperBlock::MAGIC {
            return false;
        }
        if self.log_block_size > 32 {
            return false;
        }
        if self.blocks_per_group == 0 || self.inodes_per_group == 0 || self.inode_size < 128 {
            return false;
        }
        let bs = self.block_size();
        bs % (self.inode_size as u64) == 0
    }

    /// The block size in bytes.
    pub fn block_size(&self) -> (r: u64)
        requires
            self.log_block_size <= 53,
        ensures
            r == self.spec_block_size(),
    {
        proof {
            lemma2_to64();
            lemma2_to64_rest();
            if self.log_block_size < 53 {
                lemma_pow2_strictly_increases(self.log_block_size as nat, 53);
            }
            lemma_u64_shl_is_mul(1024u64, self.log_block_size as u64);
        }
        1024u64 << (self.log_block_size as u64)
    }

    /// Total block count, low and high halves recombined.
    pub fn block_count(&self) -> (r: u64)
        ensures
            r == self.blocks_count_lo + self.blocks_count_hi * 0x1_0000_0000,
    {
        self.blocks_count_lo as u64 + self.blocks_count_hi as u64 * 0x1_0000_0000
    }

    /// Free block count, low and high halves recombined.
    pub fn free_block_count(&self) -> (r: u64)
        ensures
            r == self.free_blocks_count_lo + self.free_blocks_count_hi * 0x1_0000_0000,
    {
        self.free_blocks_count_lo as u64 + self.free_blocks_count_hi as u64 * 0x1_0000_0000
    }

    /// Total inode count.
    pub fn inodes_count(&self) -> (r: u64)
        ensures
            r == self.inodes_count,
    {
        self.inodes_count as u64
    }

    /// Free inode count.
    pub fn free_inodes_count(&self) -> (r: u64)
        ensures
            r == self.free_inodes_count,
    {
        self.free_inodes_count as u64
    }

    /// Inodes per block group.
    pub fn inodes_per_group(&self) -> (r: u64)
        ensures
            r == self.inodes_per_group,
    {
        self.inodes_per_group as u64
    }

    /// Blocks per block group.
    pub fn blocks_per_group(&self) -> (r: u64)
        ensures
            r == self.blocks_per_group,
    {
        self.blocks_per_group as u64
    }

    /// The block number of the first data block.
    pub fn first_data_block(&self) -> (r: u64)
        ensures
            r == self.first_data_block,
    {
        self.first_data_block as u64
    }

    /// The on-disk inode record size in bytes.
    pub fn inode_size(&self) -> (r: u64)
        ensures
            r == self.inode_size,
    {
        self.inode_size as u64
    }

    /// The compatible feature set.
    pub fn feature_compat(&self) -> (r: FeatureCompat)
        ensures
            r == self.feature_compat,
    {
        self.feature_compat
    }

    /// The incompatible feature set.
    pub fn feature_in_compat(&self) -> (r: FeatureInCompat)
        ensures
            r == self.feature_in_compat,
    {
        self.feature_in_compat
    }

    /// The read-only-compatible feature set.
    pub fn feature_ro_compat(&self) -> (r: FeatureRoCompat)
        ensures
            r == self.feature_ro_compat,
    {
        self.feature_ro_compat
    }

    /// The filesystem state, if the raw word names one.
    pub fn fs_state(&self) -> (r: Option<FsState>)
        ensures
            r == spec_fs_state(self.state),
    {
        FsState::from_raw(self.state)
    }

    /// The on-errors behaviour, if the raw word names one.
    pub fn on_errors(&self) -> (r: Option<OnErrors>)
        ensures
            r == spec_on_errors(self.errors),
    {
        OnErrors::from_raw(self.errors)
    }

    /// The creator operating system, if the raw word names one.
    pub fn os(&self) -> (r: Option<OS>)
        ensures
            r == spec_os(self.creator_os),
    {
        OS::from_raw(self.creator_os)
    }

    /// The encryption algorithm, if the raw word names one.
    pub fn encrypt_algo(&self) -> (r: Option<EncryptAlgos>)
        ensures
            r == spec_encrypt_algos(self.encrypt_algos),
    {
        EncryptAlgos::from_raw(self.encrypt_algos)
    }

    /// Number of block groups: `ceil(block_count / blocks_per_group)`.
    pub open spec fn spec_group_count(&self) -> nat {
        let bc = (self.blocks_count_lo + self.blocks_count_hi * 0x1_0000_0000) as nat;
        let bpg = self.blocks_per_group as nat;
        if bc % bpg == 0 {
            bc / bpg
        } else {
            bc / bpg + 1
        }
    }

    /// Number of block groups.
    pub fn get_groups_count(&self) -> (r: u64)
        requires
            self.spec_well_formed(),
        ensures
            r == self.spec_group_count(),
    {
        let bc = self.block_count();
        let bpg = self.blocks_per_group as u64;
        let count = bc / bpg;
        if bc % bpg == 0 {
            count
        } else {
            proof {
                assert(count < 0xFFFF_FFFF_FFFF_FFFFu64) by (nonlinear_arith)
                    requires
                        bpg >= 1,
                        bc % bpg != 0,
                        count == bc / bpg,
                        bc <= 0xFFFF_FFFF_FFFF_FFFFu64,
                ;
            }
            count + 1
        }
    }

    /// Whether sparse-super2 backup groups are recorded.
    pub fn has_sb_backup(&self) -> (r: bool)
        ensures
            r == (self.feature_compat.bits() & FeatureCompat::SPARSE_SUPER2
                == FeatureCompat::SPARSE_SUPER2),
    {
        self.feature_compat.contains(FeatureCompat::SPARSE_SUPER2)
    }

    /// The two groups recorded as holding sparse-super2 backups.
    pub fn backups(&self) -> (r: (u32, u32))
        ensures
            r.0 == self.backup_bg_first,
            r.1 == self.backup_bg_second,
    {
        (self.backup_bg_first, self.backup_bg_second)
    }

    /// The volume UUID rendered as 8-4-4-4-12 lower-case hex groups, or
    /// empty when the stored UUID is not 16 bytes long.
    pub open spec fn spec_uuid_render(&self) -> Seq<char> {
        if self.uuid@.len() == 16 {
            hex_range(self.uuid@, 0, 4) + "-"@ + hex_range(self.uuid@, 4, 6) + "-"@ + hex_range(
                self.uuid@,
                6,
                8,
            ) + "-"@ + hex_range(self.uuid@, 8, 10) + "-"@ + hex_range(self.uuid@, 10, 16)
        } else {
            Seq::empty()
        }
    }

    /// Render the volume UUID.
    pub fn uuid(&self) -> (r: String)
        ensures
            r@ == self.spec_uuid_render(),
    {
        let mut s = String::new();
        if self.uuid.len() != 16 {
            proof {
                assert(s@ =~= self.spec_uuid_render());
            }
            return s;
        }
        append_hex_range(&mut s, &self.uuid, 0, 4);
        s.append("-");
        append_hex_range(&mut s, &self.uuid, 4, 6);
        s.append("-");
        append_hex_range(&mut s, &self.uuid, 6, 8);
        s.append("-");
        append_hex_range(&mut s, &self.uuid, 8, 10);
        s.append("-");
        append_hex_range(&mut s, &self.uuid, 10, 16);
        proof {
            assert(s@ =~= self.spec_uuid_render());
        }
        s
    }

    /// The raw volume label bytes; callers decide rendering.
    pub fn name(&self) -> (r: Vec<u8>)
        ensures
            r@ == self.volume_name@,
    {
        let mut v: Vec<u8> = Vec::new();
        let mut i: usize = 0;
        let n = self.volume_name.len();
        while i < n
            invariant
                i <= n == self.volume_name@.len(),
                v@ == self.volume_name@.subrange(0, i as int),
            decreases n - i,
        {
            v.push(self.volume_name[i]);
            i += 1;
            proof {
                assert(v@ =~= self.volume_name@.subrange(0, i as int));
            }
        }
        proof {
            assert(v@ =~= self.volume_name@);
        }
        v
    }

    /// The textual summary `info` renders: the magic acknowledgment,
    /// revision, UUID, block and inode usage, and feature tags.
    pub open spec fn spec_info(&self) -> Seq<char> {
        "ext4 magic ef53 rev "@ + dec_render(self.rev_level as nat) + "."@ + dec_render(
            self.minor_rev_level as nat,
        ) + " UUID="@ + self.spec_uuid_render() + " block "@ + dec_render(
            (self.free_blocks_count_lo + self.free_blocks_count_hi * 0x1_0000_0000) as nat,
        ) + "/"@ + dec_render(
            (self.blocks_count_lo + self.blocks_count_hi * 0x1_0000_0000) as nat,
        ) + " inode "@ + dec_render(self.free_inodes_count as nat) + "/"@ + dec_render(
            self.inodes_count as nat,
        ) + (if self.feature_in_compat.bits() & FeatureInCompat::IS_64BIT
            == FeatureInCompat::IS_64BIT {
            " (64bit)"@
        } else {
            Seq::empty()
        }) + (if self.feature_in_compat.bits() & FeatureInCompat::EXTENTS
            == FeatureInCompat::EXTENTS {
            " (extents)"@
        } else {
            Seq::empty()
        }) + (if self.feature_ro_compat.bits() & FeatureRoCompat::LARGE_FILE
            == FeatureRoCompat::LARGE_FILE {
            " (large files)"@
        } else {
            Seq::empty()
        }) + (if self.feature_ro_compat.bits() & FeatureRoCompat::HUGE_FILE
            == FeatureRoCompat::HUGE_FILE {
            " (huge files)"@
        } else {
            Seq::empty()
        })
    }

    /// Render the textual summary.
    pub fn describe(&self) -> (r: String)
        ensures
            r@ == self.spec_info(),
    {
        let mut s = String::new();
        s.append("ext4 magic ef53 rev ");
        append_dec(&mut s, self.rev_level as u64);
        s.append(".");
        append_dec(&mut s, self.minor_rev_level as u64);
        s.append(" UUID=");
        let u = self.uuid();
        s.append(u.as_str());
        s.append(" block ");
        append_dec(&mut s, self.free_block_count());
        s.append("/");
        append_dec(&mut s, self.block_count());
        s.append(" inode ");
        append_dec(&mut s, self.free_inodes_count as u64);
        s.append("/");
        append_dec(&mut s, self.inodes_count as u64);
        if self.feature_in_compat.contains(FeatureInCompat::IS_64BIT) {
            s.append(" (64bit)");
        }
        if self.feature_in_compat.contains(FeatureInCompat::EXTENTS) {
            s.append(" (extents)");
        }
        if self.feature_ro_compat.contains(FeatureRoCompat::LARGE_FILE) {
            s.append(" (large files)");
        }
        if self.feature_ro_compat.contains(FeatureRoCompat::HUGE_FILE) {
            s.append(" (huge files)");
        }
        proof {
            assert(s@ =~= self.spec_info());
        }
        s
    }

    /// Whether probing group `g` finds a decodable backup superblock:
    /// the group is odd, the first block after its start is on the
    /// device, and the record there carries the magic.
    pub open spec fn spec_backup_probe(&self, disk: Seq<u8>, g: nat) -> bool {
        let off = (self.blocks_per_group * g + 1) * self.spec_block_size();
        &&& g % 2 == 1
        &&& off + 1024 <= disk.len()
        &&& le_u16(disk, off as int + 0x38) == SuperBlock::MAGIC
    }

    /// The block numbers of the backup superblocks found among the
    /// first `count` groups, in ascending group order.
    pub open spec fn spec_find_backup(&self, disk: Seq<u8>, count: nat) -> Seq<u64>
        decreases count,
    {
        if count == 0 {
            Seq::empty()
        } else {
            let g = (count - 1) as nat;
            let prev = self.spec_find_backup(disk, g);
            if self.spec_backup_probe(disk, g) {
                prev.push((self.blocks_per_group * g + 1) as u64)
            } else {
                prev
            }
        }
    }

    /// Probe the odd-numbered groups for backup superblocks and return
    /// the block numbers of those whose record decodes with valid magic.
    pub fn find_backup<D: Disk>(&self, f: &mut D) -> (r: Vec<u64>)
        requires
            self.spec_well_formed(),
            old(f).contents().len() <= u64::MAX,
        ensures
            final(f).contents() == old(f).contents(),
            r@ == self.spec_find_backup(old(f).contents(), self.spec_group_count()),
    {
        let mut backup: Vec<u64> = Vec::new();
        let count = self.get_groups_count();
        let bs = self.block_size();
        let bpg = self.blocks_per_group as u64;
        let mut g: u64 = 0;
        proof {
            assert(backup@ =~= self.spec_find_backup(old(f).contents(), 0));
        }
        while g < count
            invariant
                g <= count,
                bpg == self.blocks_per_group,
                bs == self.spec_block_size(),
                f.contents() == old(f).contents(),
                f.contents().len() <= u64::MAX,
                backup@ == self.spec_find_backup(old(f).contents(), g as nat),
            decreases count - g,
        {
            if g % 2 == 1 {
                let blk_opt = match bpg.checked_mul(g) {
                    Some(p) => p.checked_add(1),
                    None => None,
                };
                let off_opt = match blk_opt {
                    Some(b) => b.checked_mul(bs),
                    None => None,
                };
                match off_opt {
                    Some(off) => {
                        match f.read_at(off, 1024) {
                            Ok(buf) => {
                                let magic = get_u16(buf.as_slice(), 0x38);
                                if magic == SuperBlock::MAGIC {
                                    backup.push(blk_opt.unwrap());
                                }
                            },
                            Err(_) => {},
                        }
                    },
                    None => {
                        proof {
                            vstd::arithmetic::power2::lemma_pow2_pos(self.log_block_size as nat);
                            lemma_backup_mul_high(
                                self.blocks_per_group as nat,
                                g as nat,
                                self.spec_block_size(),
                                f.contents().len() as nat,
                            );
                        }
                    },
                }
            }
            g += 1;
        }
        backup
    }
}

/// When the block-offset product leaves `u64`, the probe offset is past
/// any device addressable within `u64`.
proof fn lemma_backup_mul_high(bpg: nat, g: nat, bs: nat, dl: nat)
    requires
        bs >= 1024,
        dl <= u64::MAX,
        bpg * g + 1 > u64::MAX || (bpg * g + 1) * bs > u64::MAX,
    ensures
        (bpg * g + 1) * bs + 1024 > dl,
{
    if bpg * g + 1 > u64::MAX {
        assert((bpg * g + 1) * bs >= bpg * g + 1) by (nonlinear_arith)
            requires
                bs >= 1,
        ;
    }
}

/// Whether the record bytes `s` decode to a well-formed superblock:
/// valid magic and the geometry invariants, stated over the raw bytes.
pub open spec fn spec_record_well_formed(s: Seq<u8>) -> bool {
    &&& le_u16(s, 0x38) == SuperBlock::MAGIC
    &&& le_u32(s, 0x18) <= 32
    &&& le_u32(s, 0x20) > 0
    &&& le_u32(s, 0x28) > 0
    &&& le_u16(s, 0x58) >= 128
    &&& (1024 * pow2(le_u32(s, 0x18) as nat)) % (le_u16(s, 0x58) as nat) == 0
}

/// A decoded superblock is well-formed exactly when its record is.
pub proof fn lemma_record_well_formed(sb: SuperBlock, s: Seq<u8>)
    requires
        sb.is_decode_of(s),
    ensures
        sb.spec_well_formed() <==> spec_record_well_formed(s),
{
}

/// Decoding a superblock twice from the same bytes yields identical
/// fields: the decode relation is a function of the record.
pub proof fn lemma_superblock_decode_deterministic(a: SuperBlock, b: SuperBlock, s: Seq<u8>)
    requires
        a.is_decode_of(s),
        b.is_decode_of(s),
    ensures
        a.inodes_count == b.inodes_count,
        a.blocks_count_lo == b.blocks_count_lo,
        a.free_blocks_count_lo == b.free_blocks_count_lo,
        a.free_inodes_count == b.free_inodes_count,
        a.first_data_block == b.first_data_block,
        a.log_block_size == b.log_block_size,
        a.blocks_per_group == b.blocks_per_group,
        a.inodes_per_group == b.inodes_per_group,
        a.magic == b.magic,
        a.state == b.state,
        a.errors == b.errors,
        a.minor_rev_level == b.minor_rev_level,
        a.creator_os == b.creator_os,
        a.rev_level == b.rev_level,
        a.inode_size == b.inode_size,
        a.feature_compat == b.feature_compat,
        a.feature_in_compat == b.feature_in_compat,
        a.feature_ro_compat == b.feature_ro_compat,
        a.uuid@ == b.uuid@,
        a.volume_name@ == b.volume_name@,
        a.desc_size == b.desc_size,
        a.blocks_count_hi == b.blocks_count_hi,
        a.free_blocks_count_hi == b.free_blocks_count_hi,
        a.backup_bg_first == b.backup_bg_first,
        a.backup_bg_second == b.backup_bg_second,
        a.encrypt_algos == b.encrypt_algos,
{
}

fn sub_vec(s: &[u8], from: usize, to: usize) -> (r: Vec<u8>)
    requires
        from <= to <= s@.len(),
    ensures
        r@ == s@.subrange(from as int, to as int),
{
    let mut v: Vec<u8> = Vec::new();
    let mut i: usize = from;
    while i < to
        invariant
            from <= i <= to <= s@.len(),
            v@ == s@.subrange(from as int, i as int),
        decreases to - i,
    {
        v.push(s[i]);
        i += 1;
        proof {
            assert(v@ =~= s@.subrange(from as int, i as int));
        }
    }
    v
}

} // verus!
