//! Block-group descriptors: locating each group's bitmaps and inode table.
//!
//! The descriptor table lives immediately after the superblock block:
//! at byte 2,048 when the block size is 1,024, else at `block_size`.
//! Descriptors are read at a 64-byte stride and only their first 64
//! bytes are interpreted; unused tail bytes of wider descriptors carry
//! no meaning for a reader.

use vstd::prelude::*;
use crate::decode::{le_u16, le_u32, get_u16, get_u32};
use crate::device::Disk;
use crate::superblock::SuperBlock;

verus! {

/// One block-group descriptor, low and high halves as stored.
#[derive(Debug, Copy, Clone, PartialEq, Eq, Structural)]
pub struct GroupDesc {
    pub block_bitmap_lo: u32,
    pub inode_bitmap_lo: u32,
    pub inode_table_lo: u32,
    pub free_blocks_count_lo: u16,
    pub free_inodes_count_lo: u16,
    pub used_dirs_count_lo: u16,
    pub flags: u16,
    pub checksum: u16,
    pub block_bitmap_hi: u32,
    pub inode_bitmap_hi: u32,
    pub inode_table_hi: u32,
    pub free_blocks_count_hi: u16,
    pub free_inodes_count_hi: u16,
}

impl GroupDesc {
    /// Every field of `self` is the little-endian decode of its slot in
    /// the 64-byte record `s`.
    pub open spec fn is_decode_of(self, s: Seq<u8>) -> bool {
        &&& s.len() >= 64
        &&& self.block_bitmap_lo == le_u32(s, 0x00)
        &&& self.inode_bitmap_lo == le_u32(s, 0x04)
        &&& self.inode_table_lo == le_u32(s, 0x08)
        &&& self.free_blocks_count_lo == le_u16(s, 0x0C)
        &&& self.free_inodes_count_lo == le_u16(s, 0x0E)
        &&& self.used_dirs_count_lo == le_u16(s, 0x10)
        &&& self.flags == le_u16(s, 0x12)
        &&& self.checksum == le_u16(s, 0x1E)
        &&& self.block_bitmap_hi == le_u32(s, 0x20)
        &&& self.inode_bitmap_hi == le_u32(s, 0x24)
        &&& self.inode_table_hi == le_u32(s, 0x28)
        &&& self.free_blocks_count_hi == le_u16(s, 0x2C)
        &&& self.free_inodes_count_hi == le_u16(s, 0x2E)
    }

    /// Decode a descriptor from the start of `buffer`.
    pub fn from_bytes(buffer: &[u8]) -> (r: Option<GroupDesc>)
        ensures
            r matches Some(d) ==> d.is_decode_of(buffer@),
            (r is Some) <==> buffer@.len() >= 64,
    {
        if buffer.len() < 64 {
            return None;
        }
        Some(
            GroupDesc {
                block_bitmap_lo: get_u32(buffer, 0x00),
                inode_bitmap_lo: get_u32(buffer, 0x04),
                inode_table_lo: get_u32(buffer, 0x08),
                free_blocks_count_lo: get_u16(buffer, 0x0C),
                free_inodes_count_lo: get_u16(buffer, 0x0E),
                used_dirs_count_lo: get_u16(buffer, 0x10),
                flags: get_u16(buffer, 0x12),
                checksum: get_u16(buffer, 0x1E),
                block_bitmap_hi: get_u32(buffer, 0x20),
                inode_bitmap_hi: get_u32(buffer, 0x24),
                inode_table_hi: get_u32(buffer, 0x28),
                free_blocks_count_hi: get_u16(buffer, 0x2C),
                free_inodes_count_hi: get_u16(buffer, 0x2E),
            },
        )
    }
}

/// The byte offset where the group-descriptor table begins: byte 2,048
/// when the block size is 1,024, else one block in.
pub open spec fn spec_gdt_base(block_size: nat) -> nat {
    if block_size == 1024 {
        2048
    } else {
        block_size
    }
}

/// The byte offset of group `g`'s descriptor.
pub open spec fn spec_gdt_offset(block_size: nat, g: nat) -> nat {
    spec_gdt_base(block_size) + g * 64
}

/// When the block size is 1,024 the descriptor table starts at byte
/// 2,048; for every larger block size it starts at `block_size`.
pub proof fn lemma_gdt_base_placement(block_size: nat)
    ensures
        block_size == 1024 ==> spec_gdt_base(block_size) == 2048,
        block_size != 1024 ==> spec_gdt_base(block_size) == block_size,
{
}

/// One block group: its descriptor, the filesystem geometry it was read
/// under, and its group number.
#[derive(Debug)]
pub struct Group<'a> {
    pub desc: GroupDesc,
    pub sb: &'a SuperBlock,
    pub num: u64,
}

impl<'a> Group<'a> {
    /// The descriptor stride and the number of bytes interpreted.
    pub const DESC_SIZE: usize = 64;

    /// Read group `group_num`'s descriptor from the device. Absent when
    /// the descriptor does not lie within the device.
    pub fn new<D: Disk>(f: &mut D, sb: &'a SuperBlock, group_num: u64) -> (r: Option<Group<'a>>)
        requires
            sb.spec_well_formed(),
            old(f).contents().len() <= u64::MAX,
        ensures
            final(f).contents() == old(f).contents(),
            (r is Some) <==> spec_gdt_offset(sb.spec_block_size(), group_num as nat) + 64 <= old(
                f,
            ).contents().len(),
            r matches Some(g) ==> {
                &&& g.desc.is_decode_of(
                    old(f).contents().subrange(
                        spec_gdt_offset(sb.spec_block_size(), group_num as nat) as int,
                        spec_gdt_offset(sb.spec_block_size(), group_num as nat) as int + 64,
                    ),
                )
                &&& g.num == group_num
                &&& g.sb == sb
            },
    {
        let bs = sb.block_size();
        let base: u64 = if bs == 1024 {
            2048
        } else {
            bs
        };
        let off_opt = match group_num.checked_mul(64) {
            Some(p) => p.checked_add(base),
            None => None,
        };
        let off = match off_opt {
            Some(o) => o,
            None => {
                proof {
                    assert(spec_gdt_offset(sb.spec_block_size(), group_num as nat) + 64
                        > old(f).contents().len());
                }
                return None;
            },
        };
        match f.read_at(off, 64) {
            Ok(buf) => {
                match GroupDesc::from_bytes(buf.as_slice()) {
                    Some(desc) => Some(Group { desc, sb, num: group_num }),
                    None => None,
                }
            },
            Err(_) => None,
        }
    }

    /// The first block of this group:
    /// `first_data_block + num * blocks_per_group`.
    pub fn first_block_num(&self) -> (r: u64)
        requires
            self.num * self.sb.blocks_per_group + self.sb.first_data_block <= u64::MAX,
        ensures
            r == self.num * self.sb.blocks_per_group + self.sb.first_data_block,
    {
        self.num * (self.sb.blocks_per_group as u64) + (self.sb.first_data_block as u64)
    }

    /// The first inode number of this group: `num * inodes_per_group + 1`.
    pub fn first_inode_num(&self) -> (r: u64)
        requires
            self.num * self.sb.inodes_per_group + 1 <= u64::MAX,
        ensures
            r == self.num * self.sb.inodes_per_group + 1,
    {
        self.num * (self.sb.inodes_per_group as u64) + 1
    }

    /// The block number of this group's inode table, halves recombined.
    pub fn inode_table(&self) -> (r: u64)
        ensures
            r == self.desc.inode_table_lo + self.desc.inode_table_hi * 0x1_0000_0000,
    {
        self.desc.inode_table_lo as u64 + self.desc.inode_table_hi as u64 * 0x1_0000_0000
    }

    /// The group that holds 1-based inode `inode_num`:
    /// `(inode_num - 1) / inodes_per_group`. Absent for inode 0 and when
    /// the group's descriptor is off the device.
    pub fn get_group<D: Disk>(f: &mut D, sb: &'a SuperBlock, inode_num: u64) -> (r: Option<
        Group<'a>,
    >)
        requires
            sb.spec_well_formed(),
            old(f).contents().len() <= u64::MAX,
        ensures
            final(f).contents() == old(f).contents(),
            inode_num == 0 ==> r is None,
            inode_num >= 1 ==> {
                let g = ((inode_num - 1) as nat / sb.inodes_per_group as nat);
                &&& (r is Some) <==> spec_gdt_offset(sb.spec_block_size(), g) + 64 <= old(
                    f,
                ).contents().len()
                &&& (r matches Some(grp) ==> {
                    &&& grp.desc.is_decode_of(
                        old(f).contents().subrange(
                            spec_gdt_offset(sb.spec_block_size(), g) as int,
                            spec_gdt_offset(sb.spec_block_size(), g) as int + 64,
                        ),
                    )
                    &&& grp.num == g
                    &&& grp.sb == sb
                })
            },
    {
        if inode_num == 0 {
            return None;
        }
        let group_num = (inode_num - 1) / (sb.inodes_per_group as u64);
        Group::new(f, sb, group_num)
    }
}

} // verus!
