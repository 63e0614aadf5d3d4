//! Inodes: the fixed-size records describing filesystem objects.
//!
//! An inode is located by group: group `(n - 1) / inodes_per_group`,
//! slot `(n - 1) % inodes_per_group`, at byte offset
//! `inode_table * block_size + slot * inode_size`. Only the extent
//! path is interpreted; legacy indirect block maps are unsupported.

use vstd::prelude::*;
use vstd::arithmetic::div_mod::lemma_mod_bound;
use vstd::arithmetic::mul::lemma_mul_inequality;
use crate::decode::{le_u16, le_u32, get_u16, get_u32, read_fixed_bytes};
use crate::device::Disk;
use crate::extent_tree::{ExtentTree, spec_node_valid, spec_header};
use crate::group::{Group, spec_gdt_offset};
use crate::stat::{Mode, IFlags};
use crate::superblock::SuperBlock;

verus! {

/// One decoded inode record.
#[derive(Debug)]
pub struct Inode {
    pub mode: Mode,
    pub size_lo: u32,
    pub links_count: u16,
    pub blocks_lo: u32,
    pub flags: IFlags,
    /// The 60-byte block area: an extent tree when the extents flag is
    /// set, a legacy block map otherwise.
    pub block: Vec<u8>,
    pub size_high: u32,
    pub blocks_high: u16,
}

/// The block number of the inode table of group `g`, read from the
/// group's descriptor on `disk` under geometry `sb`.
pub open spec fn spec_itable_of_group(disk: Seq<u8>, sb: SuperBlock, g: nat) -> nat {
    let off = spec_gdt_offset(sb.spec_block_size(), g) as int;
    le_u32(disk, off + 0x08) as nat + le_u32(disk, off + 0x28) as nat * 0x1_0000_0000
}

/// The group holding 1-based inode `n`.
pub open spec fn spec_inode_group(sb: SuperBlock, n: nat) -> nat
    recommends
        n >= 1,
        sb.inodes_per_group > 0,
{
    (n - 1) as nat / sb.inodes_per_group as nat
}

/// The slot of 1-based inode `n` within its group's inode table.
pub open spec fn spec_inode_slot(sb: SuperBlock, n: nat) -> nat
    recommends
        n >= 1,
        sb.inodes_per_group > 0,
{
    (n - 1) as nat % sb.inodes_per_group as nat
}

/// The byte offset of inode `n`'s record on the device.
pub open spec fn spec_inode_offset(disk: Seq<u8>, sb: SuperBlock, n: nat) -> nat {
    spec_itable_of_group(disk, sb, spec_inode_group(sb, n)) * sb.spec_block_size()
        + spec_inode_slot(sb, n) * sb.inode_size as nat
}

/// Whether inode `n`'s record can be read: the inode number is 1-based,
/// its group descriptor lies on the device, and the record itself lies
/// on the device.
pub open spec fn spec_inode_readable(disk: Seq<u8>, sb: SuperBlock, n: nat) -> bool {
    &&& n >= 1
    &&& spec_gdt_offset(sb.spec_block_size(), spec_inode_group(sb, n)) + 64 <= disk.len()
    &&& spec_inode_offset(disk, sb, n) + sb.inode_size as nat <= disk.len()
}

impl Inode {
    /// Every field of `self` is the little-endian decode of its slot in
    /// the record `s`.
    pub open spec fn is_decode_of(self, s: Seq<u8>) -> bool {
        &&& s.len() >= 128
        &&& self.mode.bits() == le_u16(s, 0x00)
        &&& self.size_lo == le_u32(s, 0x04)
        &&& self.links_count == le_u16(s, 0x1A)
        &&& self.blocks_lo == le_u32(s, 0x1C)
        &&& self.flags.bits() == le_u32(s, 0x20)
        &&& self.block@ == s.subrange(0x28, 0x64)
        &&& self.size_high == le_u32(s, 0x6C)
        &&& self.blocks_high == le_u16(s, 0x74)
    }

    /// Decode an inode from the start of `buffer`.
    pub fn from_bytes(buffer: &[u8]) -> (r: Option<Inode>)
        ensures
            r matches Some(inode) ==> inode.is_decode_of(buffer@),
            (r is Some) <==> buffer@.len() >= 128,
    {
        if buffer.len() < 128 {
            return None;
        }
        let block = match read_fixed_bytes(buffer, 0x28, 60) {
            Ok(b) => b,
            Err(_) => {
                return None;
            },
        };
        Some(
            Inode {
                mode: Mode::from_bits(get_u16(buffer, 0x00)),
                size_lo: get_u32(buffer, 0x04),
                links_count: get_u16(buffer, 0x1A),
                blocks_lo: get_u32(buffer, 0x1C),
                flags: IFlags::from_bits(get_u32(buffer, 0x20)),
                block,
                size_high: get_u32(buffer, 0x6C),
                blocks_high: get_u16(buffer, 0x74),
            },
        )
    }

    /// Read inode `inode_num` from the device. Absent exactly when the
    /// record cannot be located within the device.
    pub fn new<D: Disk>(f: &mut D, inode_num: u64, sb: &SuperBlock) -> (r: Option<Inode>)
        requires
            sb.spec_well_formed(),
            old(f).contents().len() <= u64::MAX,
        ensures
            final(f).contents() == old(f).contents(),
            (r is Some) <==> spec_inode_readable(old(f).contents(), *sb, inode_num as nat),
            r matches Some(inode) ==> inode.is_decode_of(
                old(f).contents().subrange(
                    spec_inode_offset(old(f).contents(), *sb, inode_num as nat) as int,
                    spec_inode_offset(old(f).contents(), *sb, inode_num as nat) + sb.inode_size,
                ),
            ),
    {
        let group = match Group::get_group(f, sb, inode_num) {
            Some(g) => g,
            None => {
                return None;
            },
        };
        let itable = group.inode_table();
        let block_size = sb.block_size();
        let inode_size = sb.inode_size();
        let slot = (inode_num - 1) % (sb.inodes_per_group as u64);
        proof {
            lemma_mod_bound((inode_num - 1) as int, sb.inodes_per_group as int);
            assert(slot * inode_size + inode_size <= 0x1_0000_0000 * 0x1_0000u64) by (
            nonlinear_arith)
                requires
                    slot < 0x1_0000_0000,
                    inode_size <= 0x1_0000,
                    slot * inode_size + inode_size >= 0,
            ;
        }
        let slot_off = slot * inode_size;
        let offset = match itable.checked_mul(block_size) {
            Some(p) => p.checked_add(slot_off),
            None => None,
        };
        let offset = match offset {
            Some(o) => o,
            None => {
                proof {
                    lemma_itable_offset_high(
                        spec_itable_of_group(old(f).contents(), *sb, (inode_num - 1) as nat
                            / sb.inodes_per_group as nat),
                        sb.spec_block_size(),
                        slot_off as nat,
                        old(f).contents().len(),
                    );
                }
                return None;
            },
        };
        if inode_size > u64::MAX - offset {
            return None;
        }
        match f.read_at(offset, inode_size as usize) {
            Ok(buf) => Inode::from_bytes(buf.as_slice()),
            Err(_) => None,
        }
    }

    /// The mode word.
    pub fn mode(&self) -> (r: Mode)
        ensures
            r == self.mode,
    {
        self.mode
    }

    /// The inode flag word.
    pub fn flags(&self) -> (r: IFlags)
        ensures
            r == self.flags,
    {
        self.flags
    }

    /// The 512-byte-sector count, halves recombined.
    pub fn blocks_count(&self) -> (r: u64)
        ensures
            r == self.blocks_lo + self.blocks_high * 0x1_0000_0000,
    {
        self.blocks_lo as u64 + self.blocks_high as u64 * 0x1_0000_0000
    }

    /// The file size in bytes, halves recombined.
    pub open spec fn spec_size(&self) -> nat {
        self.size_lo as nat + self.size_high as nat * 0x1_0000_0000
    }

    /// The file size in bytes.
    pub fn size(&self) -> (r: u64)
        ensures
            r == self.spec_size(),
    {
        self.size_lo as u64 + self.size_high as u64 * 0x1_0000_0000
    }

    /// Whether the block area is to be read as an extent tree.
    pub fn has_extents(&self) -> (r: bool)
        ensures
            r == (self.flags.bits() & IFlags::EXTENTS == IFlags::EXTENTS),
    {
        self.flags.has_extents()
    }

    /// Parse the extent-tree root from the block area. Absent when the
    /// extents flag is clear or the root is not a well-formed node.
    pub fn blocks(&self) -> (r: Option<ExtentTree>)
        ensures
            (r is Some) <==> (self.flags.bits() & IFlags::EXTENTS == IFlags::EXTENTS
                && spec_node_valid(self.block@) && spec_header(self.block@, 0).max <= 4),
            r matches Some(t) ==> t.is_decode_of(self.block@),
    {
        if !self.flags.has_extents() {
            return None;
        }
        ExtentTree::new(self.block.as_slice())
    }
}

impl Default for Inode {
    /// The all-zero inode: no mode bits, no size, an empty block area.
    fn default() -> (r: Inode)
        ensures
            r.mode.bits() == 0,
            r.size_lo == 0,
            r.links_count == 0,
            r.blocks_lo == 0,
            r.flags.bits() == 0,
            r.block@ == Seq::<u8>::empty(),
            r.size_high == 0,
            r.blocks_high == 0,
    {
        Inode {
            mode: Mode::from_bits(0),
            size_lo: 0,
            links_count: 0,
            blocks_lo: 0,
            flags: IFlags::from_bits(0),
            block: Vec::new(),
            size_high: 0,
            blocks_high: 0,
        }
    }
}

/// When the table-offset product leaves `u64`, the record is past any
/// device addressable within `u64`.
proof fn lemma_itable_offset_high(itable: nat, bs: nat, slot_off: nat, dl: nat)
    requires
        dl <= u64::MAX,
        itable * bs > u64::MAX || itable * bs + slot_off > u64::MAX,
    ensures
        itable * bs + slot_off + 1 > dl,
{
}

/// Decoding an inode twice from the same record yields identical
/// fields; with `open`'s contract this gives path-resolution
/// idempotence: two successive resolutions of one path against one
/// image state return handles with equal inode fields, name, size and
/// mode.
pub proof fn lemma_inode_decode_deterministic(a: Inode, b: Inode, s: Seq<u8>)
    requires
        a.is_decode_of(s),
        b.is_decode_of(s),
    ensures
        a.mode == b.mode,
        a.size_lo == b.size_lo,
        a.links_count == b.links_count,
        a.blocks_lo == b.blocks_lo,
        a.flags == b.flags,
        a.block@ == b.block@,
        a.size_high == b.size_high,
        a.blocks_high == b.blocks_high,
        a.spec_size() == b.spec_size(),
{
    crate::stat::lemma_mode_eq(a.mode, b.mode);
    crate::stat::lemma_iflags_eq(a.flags, b.flags);
}

/// For every inode number within a group whose inode table lies on the
/// device, the computed record offset lies on the device too: the slot
/// formula stays inside the table.
pub proof fn lemma_inode_offset_within_device(disk: Seq<u8>, sb: SuperBlock, n: nat)
    requires
        sb.spec_well_formed(),
        n >= 1,
        spec_itable_of_group(disk, sb, spec_inode_group(sb, n)) * sb.spec_block_size()
            + sb.inodes_per_group * sb.inode_size <= disk.len(),
    ensures
        spec_inode_offset(disk, sb, n) + sb.inode_size <= disk.len(),
{
    let ipg = sb.inodes_per_group as nat;
    let isize = sb.inode_size as nat;
    let slot = spec_inode_slot(sb, n);
    lemma_mod_bound((n - 1) as int, ipg as int);
    assert(slot + 1 <= ipg);
    lemma_mul_inequality((slot + 1) as int, ipg as int, isize as int);
    assert((slot + 1) * isize == slot * isize + isize) by (nonlinear_arith);
}

} // verus!
