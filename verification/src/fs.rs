//! The filesystem facade: owns the block device, reads the superblock,
//! and composes groups, inodes and extent trees into path resolution
//! and file access.

use vstd::prelude::*;
use vstd::string::StringSliceAdditionalSpecFns;
use crate::device::Disk;
use crate::dir::{DirEntry, spec_dir_entries, parse_dir_block, entry_views};
use crate::error::Error;
use crate::file::{Ext4File, spec_block_bytes, spec_dir_all_entries, lemma_all_entries_prefix};
use crate::extent_tree::{
    ExtentTree, Extent, spec_node_valid, spec_header, spec_leaf_at, spec_idx_at,
};
use crate::inode::{Inode, spec_inode_readable, spec_inode_offset};
use crate::superblock::{SuperBlock, spec_record_well_formed, lemma_record_well_formed};
use vstd::arithmetic::power2::pow2;

verus! {

/// The root directory's inode number.
pub const ROOT_INODE_NUM: u64 = 2;

/// How many blocks a file of `size` bytes occupies:
/// `ceil(size / block_size)`.
pub open spec fn spec_nblocks(size: nat, bs: nat) -> nat
    recommends
        bs > 0,
{
    if size % bs == 0 {
        size / bs
    } else {
        size / bs + 1
    }
}

/// The physical block of a child index record, halves recombined.
pub open spec fn spec_idx_child(x: crate::extent_tree::ExtentIdx) -> nat {
    x.ei_leaf_lo as nat + x.ei_leaf_hi as nat * 0x1_0000_0000
}

/// The last index record among `0..n` of node `s` whose logical start
/// is at or below `l`, if any.
pub open spec fn spec_find_index(s: Seq<u8>, n: int, l: nat) -> Option<int>
    decreases n,
{
    if n <= 0 {
        None
    } else if spec_idx_at(s, n - 1).ei_block <= l {
        Some(n - 1)
    } else {
        spec_find_index(s, n - 1, l)
    }
}

/// The leaf records of node `s`.
pub open spec fn spec_leaves(s: Seq<u8>) -> Seq<Extent> {
    Seq::new(spec_header(s, 0).entries as nat, |i: int| spec_leaf_at(s, i))
}

/// Resolve logical block `l` through the extent-tree node `node`,
/// following index records into child nodes on `disk`. The outer option
/// is absent on a structural violation (bad node, child off the device,
/// or a child whose depth does not step down by one); the inner option
/// is absent when `l` is a hole or in an uninitialized region.
pub open spec fn spec_resolve_node(disk: Seq<u8>, bs: nat, node: Seq<u8>, l: nat) -> Option<
    Option<u64>,
>
    decreases spec_header(node, 0).depth,
{
    if !spec_node_valid(node) {
        None
    } else {
        let h = spec_header(node, 0);
        if h.depth == 0 {
            Some(ExtentTree::spec_resolve(spec_leaves(node), l))
        } else {
            match spec_find_index(node, h.entries as int, l) {
                Option::None => Some(None),
                Option::Some(i) => {
                    let coff = spec_idx_child(spec_idx_at(node, i)) * bs;
                    if coff + bs <= disk.len() {
                        let cnode = disk.subrange(coff as int, (coff + bs) as int);
                        if spec_header(cnode, 0).depth == h.depth - 1 {
                            spec_resolve_node(disk, bs, cnode, l)
                        } else {
                            None
                        }
                    } else {
                        None
                    }
                },
            }
        }
    }
}

/// The resolved block list of a file whose extent-tree root lives in
/// `area` and whose size is `size`: one entry per logical block, zero
/// standing for a hole or an uninitialized region.
pub open spec fn spec_file_blocks(disk: Seq<u8>, bs: nat, area: Seq<u8>, size: nat) -> Seq<u64> {
    Seq::new(
        spec_nblocks(size, bs),
        |i: int|
            match spec_resolve_node(disk, bs, area, i as nat) {
                Option::Some(Option::Some(b)) => b,
                _ => 0,
            },
    )
}

/// Whether every logical block of such a file resolves without a
/// structural violation, the file's logical space fits the on-disk
/// format, and every mapped block lies on the device.
pub open spec fn spec_file_blocks_ok(disk: Seq<u8>, bs: nat, area: Seq<u8>, size: nat) -> bool {
    &&& spec_nblocks(size, bs) <= 0x1_0000_0000
    &&& forall|i: nat|
        i < spec_nblocks(size, bs) ==> (#[trigger] spec_resolve_node(disk, bs, area, i) matches Some(
            o,
        ) && (o matches Some(b) ==> (b + 1) * bs <= disk.len()))
}

/// Whether the device bytes mount: the primary superblock record is
/// present at byte 1,024, it is well-formed, and its block size is
/// addressable through `usize`.
pub open spec fn spec_mountable(disk: Seq<u8>) -> bool {
    &&& disk.len() >= 2048
    &&& spec_record_well_formed(disk.subrange(1024, 2048))
    &&& 1024 * pow2(crate::decode::le_u32(disk.subrange(1024, 2048), 0x18) as nat) <= usize::MAX
}

/// A mounted filesystem: the decoded superblock and the device it was
/// read from.
pub struct FileSystem<D: Disk> {
    pub sb: SuperBlock,
    pub disk: D,
}

impl<D: Disk> FileSystem<D> {
    /// The facade's invariant: sound geometry, a device addressable
    /// through `u64`, and whole blocks addressable through `usize`.
    pub open spec fn wf(&self) -> bool {
        &&& self.sb.spec_well_formed()
        &&& self.disk.contents().len() <= u64::MAX
        &&& self.sb.spec_block_size() <= usize::MAX
    }

    /// Mount: read the superblock and check its geometry. Succeeds
    /// exactly when the device carries a well-formed superblock record
    /// at byte 1,024 whose block size the machine can address; absent
    /// when the device is too short, the magic mismatches, or the
    /// geometry is unsound.
    pub fn new(disk: D) -> (r: Option<FileSystem<D>>)
        requires
            disk.contents().len() <= u64::MAX,
        ensures
            (r is Some) <==> spec_mountable(disk.contents()),
            r matches Some(fs) ==> {
                &&& fs.wf()
                &&& fs.disk.contents() == disk.contents()
                &&& fs.sb.is_decode_of(disk.contents().subrange(1024, 2048))
            },
    {
        let mut disk = disk;
        let sb = match SuperBlock::new(&mut disk) {
            Some(sb) => sb,
            None => {
                return None;
            },
        };
        proof {
            lemma_record_well_formed(sb, disk.contents().subrange(1024, 2048));
        }
        if !sb.well_formed() {
            return None;
        }
        if sb.block_size() > usize::MAX as u64 {
            return None;
        }
        Some(FileSystem { sb, disk })
    }

    /// The decoded superblock.
    pub fn sb(&self) -> (r: &SuperBlock)
        ensures
            r == &self.sb,
    {
        &self.sb
    }

    /// Whether directory entries record each child's file type.
    pub fn feature_file_type(&self) -> (r: bool)
        ensures
            r == (self.sb.feature_in_compat.bits() & crate::superblock::FeatureInCompat::FILE_TYPE
                == crate::superblock::FeatureInCompat::FILE_TYPE),
    {
        self.sb.feature_in_compat().contains(crate::superblock::FeatureInCompat::FILE_TYPE)
    }

    /// The superblock's textual summary.
    pub fn info(&self) -> (r: String)
        ensures
            r@ == self.sb.spec_info(),
    {
        self.sb.describe()
    }

    /// Read one whole block.
    pub fn read_block(&mut self, block_num: u64) -> (r: Result<Vec<u8>, Error>)
        requires
            old(self).wf(),
        ensures
            final(self).sb == old(self).sb,
            final(self).disk.contents() == old(self).disk.contents(),
            final(self).wf(),
            (r is Ok) <==> (block_num * old(self).sb.spec_block_size() + old(
                self,
            ).sb.spec_block_size() <= old(self).disk.contents().len()),
            r matches Ok(v) ==> v@ == old(self).disk.contents().subrange(
                block_num * old(self).sb.spec_block_size(),
                block_num * old(self).sb.spec_block_size() + old(self).sb.spec_block_size(),
            ),
            r matches Err(e) ==> e is UnexpectedEof,
    {
        let bs = self.sb.block_size();
        self.disk.read_block(bs, block_num)
    }

    /// Read and decode inode `inode_num`. Absent exactly when the
    /// record cannot be located within the device.
    pub fn read_inode(&mut self, inode_num: u64) -> (r: Option<Inode>)
        requires
            old(self).wf(),
        ensures
            final(self).sb == old(self).sb,
            final(self).disk.contents() == old(self).disk.contents(),
            final(self).wf(),
            (r is Some) <==> spec_inode_readable(
                old(self).disk.contents(),
                old(self).sb,
                inode_num as nat,
            ),
            r matches Some(inode) ==> inode.is_decode_of(
                old(self).disk.contents().subrange(
                    spec_inode_offset(old(self).disk.contents(), old(self).sb, inode_num as nat)
                        as int,
                    spec_inode_offset(old(self).disk.contents(), old(self).sb, inode_num as nat)
                        + old(self).sb.inode_size,
                ),
            ),
    {
        Inode::new(&mut self.disk, inode_num, &self.sb)
    }

    /// Read the root directory's inode.
    pub fn root_inode(&mut self) -> (r: Option<Inode>)
        requires
            old(self).wf(),
        ensures
            final(self).sb == old(self).sb,
            final(self).disk.contents() == old(self).disk.contents(),
            final(self).wf(),
            (r is Some) <==> spec_inode_readable(
                old(self).disk.contents(),
                old(self).sb,
                ROOT_INODE_NUM as nat,
            ),
            r matches Some(inode) ==> inode.is_decode_of(
                old(self).disk.contents().subrange(
                    spec_inode_offset(
                        old(self).disk.contents(),
                        old(self).sb,
                        ROOT_INODE_NUM as nat,
                    ) as int,
                    spec_inode_offset(
                        old(self).disk.contents(),
                        old(self).sb,
                        ROOT_INODE_NUM as nat,
                    ) + old(self).sb.inode_size,
                ),
            ),
    {
        self.read_inode(ROOT_INODE_NUM)
    }

    /// Resolve one logical block of a file through its extent tree,
    /// reading child nodes from the device as indexes direct.
    pub fn resolve_block(&mut self, inode: &Inode, logical: u32) -> (r: Result<Option<u64>, Error>)
        requires
            old(self).wf(),
        ensures
            final(self).sb == old(self).sb,
            final(self).disk.contents() == old(self).disk.contents(),
            final(self).wf(),
            (r matches Ok(o) ==> spec_resolve_node(
                old(self).disk.contents(),
                old(self).sb.spec_block_size(),
                inode.block@,
                logical as nat,
            ) == Some(o)),
            (r is Err) <==> spec_resolve_node(
                old(self).disk.contents(),
                old(self).sb.spec_block_size(),
                inode.block@,
                logical as nat,
            ) is None,
            r matches Err(e) ==> e is InvalidData,
    {
        let bs = self.sb.block_size();
        let mut tree = match ExtentTree::from_block(inode.block.as_slice()) {
            Some(t) => t,
            None => {
                return Err(Error::invalid_data());
            },
        };
        let ghost gnode: Seq<u8> = inode.block@;
        let mut gnode = Ghost(gnode);
        loop
            invariant
                self.wf(),
                self.sb == old(self).sb,
                self.disk.contents() == old(self).disk.contents(),
                bs == self.sb.spec_block_size(),
                spec_node_valid(gnode@),
                tree.is_decode_of(gnode@),
                spec_resolve_node(
                    old(self).disk.contents(),
                    old(self).sb.spec_block_size(),
                    inode.block@,
                    logical as nat,
                ) == spec_resolve_node(
                    old(self).disk.contents(),
                    old(self).sb.spec_block_size(),
                    gnode@,
                    logical as nat,
                ),
            decreases tree.header.depth,
        {
            if tree.header.depth == 0 {
                let r = tree.resolve(logical);
                proof {
                    assert(tree.extents@ =~= spec_leaves(gnode@));
                }
                return Ok(r);
            }
            let n = tree.indexes.len();
            let mut found: Option<usize> = None;
            let mut j: usize = 0;
            while j < n
                invariant
                    j <= n == tree.indexes@.len(),
                    tree.is_decode_of(gnode@),
                    spec_node_valid(gnode@),
                    tree.header.depth > 0,
                    match found {
                        Option::Some(b) => spec_find_index(gnode@, j as int, logical as nat)
                            == Some(b as int) && b < j,
                        Option::None => spec_find_index(gnode@, j as int, logical as nat) is None,
                    },
                decreases n - j,
            {
                if tree.indexes[j].ei_block <= logical {
                    found = Some(j);
                }
                j += 1;
            }
            let i = match found {
                Some(i) => i,
                None => {
                    return Ok(None);
                },
            };
            let x = tree.indexes[i];
            let child = x.ei_leaf_lo as u64 + x.ei_leaf_hi as u64 * 0x1_0000_0000;
            proof {
                assert(tree.indexes@[i as int] == spec_idx_at(gnode@, i as int));
                assert(spec_header(gnode@, 0).entries == tree.indexes@.len());
                assert(spec_find_index(
                    gnode@,
                    spec_header(gnode@, 0).entries as int,
                    logical as nat,
                ) == Some(i as int));
                assert(child == spec_idx_child(spec_idx_at(gnode@, i as int)));
            }
            let coff = match child.checked_mul(bs) {
                Some(c) => c,
                None => {
                    return Err(Error::invalid_data());
                },
            };
            if bs > u64::MAX - coff {
                return Err(Error::invalid_data());
            }
            match self.disk.read_at(coff, bs as usize) {
                Ok(buf) => {
                    proof {
                        assert(buf@ == self.disk.contents().subrange(
                            coff as int,
                            coff as int + bs as int,
                        ));
                    }
                    let child_tree = match ExtentTree::from_block(buf.as_slice()) {
                        Some(t) => t,
                        None => {
                            proof {
                                let cnode = self.disk.contents().subrange(
                                    coff as int,
                                    coff as int + bs as int,
                                );
                                assert(!spec_node_valid(cnode));
                                assert(spec_resolve_node(
                                    old(self).disk.contents(),
                                    old(self).sb.spec_block_size(),
                                    cnode,
                                    logical as nat,
                                ) is None);
                            }
                            return Err(Error::invalid_data());
                        },
                    };
                    if child_tree.header.depth != tree.header.depth - 1 {
                        return Err(Error::invalid_data());
                    }
                    proof {
                        gnode@ = old(self).disk.contents().subrange(
                            coff as int,
                            coff as int + bs as int,
                        );
                    }
                    tree = child_tree;
                },
                Err(_) => {
                    return Err(Error::invalid_data());
                },
            }
        }
    }

    /// Resolve every logical block of a file, zero standing for a hole,
    /// probing that each mapped block lies on the device.
    pub fn file_blocks(&mut self, inode: &Inode) -> (r: Result<Vec<u64>, Error>)
        requires
            old(self).wf(),
        ensures
            final(self).sb == old(self).sb,
            final(self).disk.contents() == old(self).disk.contents(),
            final(self).wf(),
            (r is Ok) <==> (inode.flags.bits() & crate::stat::IFlags::EXTENTS
                == crate::stat::IFlags::EXTENTS && spec_file_blocks_ok(
                old(self).disk.contents(),
                old(self).sb.spec_block_size(),
                inode.block@,
                inode.spec_size(),
            )),
            r matches Ok(v) ==> v@ == spec_file_blocks(
                old(self).disk.contents(),
                old(self).sb.spec_block_size(),
                inode.block@,
                inode.spec_size(),
            ),
            r matches Err(e) ==> (if inode.flags.bits() & crate::stat::IFlags::EXTENTS
                != crate::stat::IFlags::EXTENTS {
                e is InvalidInput
            } else {
                e is InvalidData || e is UnexpectedEof
            }),
    {
        if !inode.has_extents() {
            return Err(Error::invalid_input());
        }
        let size = inode.size();
        let bs = self.sb.block_size();
        proof {
            vstd::arithmetic::power2::lemma_pow2_pos(self.sb.log_block_size as nat);
            assert(bs >= 1024);
            assert(size / bs < 0xFFFF_FFFF_FFFF_FFFFu64) by (nonlinear_arith)
                requires
                    bs >= 1024,
                    size <= 0xFFFF_FFFF_FFFF_FFFFu64,
            ;
        }
        let nblocks = if size % bs == 0 {
            size / bs
        } else {
            size / bs + 1
        };
        if nblocks > 0x1_0000_0000 {
            return Err(Error::invalid_data());
        }
        let ghost contents = self.disk.contents();
        let ghost gbs = self.sb.spec_block_size();
        let ghost area = inode.block@;
        let ghost gsize = inode.spec_size();
        let mut blocks: Vec<u64> = Vec::new();
        let mut l: u64 = 0;
        while l < nblocks
            invariant
                self.wf(),
                self.sb == old(self).sb,
                self.disk.contents() == old(self).disk.contents(),
                contents == old(self).disk.contents(),
                gbs == old(self).sb.spec_block_size(),
                area == inode.block@,
                gsize == inode.spec_size(),
                bs == gbs,
                l <= nblocks <= 0x1_0000_0000,
                nblocks == spec_nblocks(gsize, gbs),
                inode.flags.bits() & crate::stat::IFlags::EXTENTS == crate::stat::IFlags::EXTENTS,
                blocks@.len() == l,
                forall|i: int|
                    0 <= i < l ==> blocks@[i] == spec_file_blocks(contents, gbs, area, gsize)[i],
                forall|i: nat|
                    i < l ==> (#[trigger] spec_resolve_node(contents, gbs, area, i) matches Some(
                        o,
                    ) && (o matches Some(b) ==> (b + 1) * gbs <= contents.len())),
            decreases nblocks - l,
        {
            match self.resolve_block(inode, l as u32) {
                Ok(Some(b)) => {
                    proof {
                        assert((b + 1) * gbs == b * gbs + gbs) by (nonlinear_arith);
                    }
                    match self.read_block(b) {
                        Ok(_) => {
                            blocks.push(b);
                        },
                        Err(_) => {
                            return Err(Error::unexpected_eof());
                        },
                    }
                },
                Ok(None) => {
                    blocks.push(0);
                },
                Err(e) => {
                    return Err(e);
                },
            }
            l += 1;
        }
        proof {
            assert(blocks@ =~= spec_file_blocks(contents, gbs, area, gsize));
        }
        Ok(blocks)
    }

    /// Find the first live entry named `name` in the directory `inode`
    /// and return its child inode number.
    pub fn dir_lookup(&mut self, inode: &Inode, name: &[u8]) -> (r: Result<Option<u32>, Error>)
        requires
            old(self).wf(),
        ensures
            final(self).sb == old(self).sb,
            final(self).disk.contents() == old(self).disk.contents(),
            final(self).wf(),
            (r is Ok) <==> (inode.flags.bits() & crate::stat::IFlags::EXTENTS
                == crate::stat::IFlags::EXTENTS && spec_file_blocks_ok(
                old(self).disk.contents(),
                old(self).sb.spec_block_size(),
                inode.block@,
                inode.spec_size(),
            )),
            r matches Ok(o) ==> o == spec_dir_lookup(
                old(self).disk.contents(),
                old(self).sb.spec_block_size(),
                inode.block@,
                inode.spec_size(),
                name@,
            ),
    {
        let ghost disk = old(self).disk.contents();
        let ghost gbs = old(self).sb.spec_block_size();
        let blocks = match self.file_blocks(inode) {
            Ok(b) => b,
            Err(e) => {
                return Err(e);
            },
        };
        proof {
            assert forall|i: int|
                0 <= i < blocks@.len() implies (#[trigger] blocks@[i] == 0 || (blocks@[i] + 1)
                * gbs <= disk.len()) by {
                assert(crate::file::spec_resolve_node_ok(disk, gbs, inode.block@, i as nat));
            }
        }
        let ghost gblocks = blocks@;
        let nb = blocks.len();
        let ghost es_all = spec_dir_all_entries(disk, gbs, gblocks, nb as int);
        let bs = self.sb.block_size();
        let mut k: usize = 0;
        let ghost mut scanned: int = 0;
        proof {
            assert(es_all.skip(0) =~= es_all);
        }
        while k < nb
            invariant
                k <= nb == gblocks.len(),
                self.wf(),
                self.sb == old(self).sb,
                self.disk.contents() == old(self).disk.contents(),
                disk == old(self).disk.contents(),
                gbs == old(self).sb.spec_block_size(),
                bs == gbs,
                gblocks == blocks@,
                inode.flags.bits() & crate::stat::IFlags::EXTENTS == crate::stat::IFlags::EXTENTS,
                spec_file_blocks_ok(disk, gbs, inode.block@, inode.spec_size()),
                gblocks == spec_file_blocks(disk, gbs, inode.block@, inode.spec_size()),
                forall|i: int|
                    0 <= i < gblocks.len() ==> (#[trigger] gblocks[i] == 0 || (gblocks[i] + 1)
                        * gbs <= disk.len()),
                es_all == spec_dir_all_entries(disk, gbs, gblocks, nb as int),
                scanned == spec_dir_all_entries(disk, gbs, gblocks, k as int).len(),
                0 <= scanned <= es_all.len(),
                spec_find_named(es_all, name@) == spec_find_named(
                    es_all.skip(scanned),
                    name@,
                ),
            decreases nb - k,
        {
            let blk = blocks[k];
            let ghost es_k = spec_dir_all_entries(disk, gbs, gblocks, k as int);
            let ghost bb = spec_block_bytes(disk, gbs, blk);
            let ghost es_k1 = spec_dir_all_entries(disk, gbs, gblocks, k as int + 1);
            proof {
                assert(es_k1 == es_k + spec_dir_entries(bb, 0));
                lemma_all_entries_prefix(disk, gbs, gblocks, k as int + 1, nb as int);
            }
            if blk == 0 {
                proof {
                    vstd::arithmetic::power2::lemma_pow2_pos(self.sb.log_block_size as nat);
                    assert(bb.len() == gbs && gbs >= 1024);
                    assert(bb[0] == 0u8 && bb[1] == 0u8 && bb[2] == 0u8 && bb[3] == 0u8);
                    assert(crate::decode::le_u32(bb, 0) == 0);
                    assert(!crate::dir::spec_dirent_ok(bb, 0));
                    assert(spec_dir_entries(bb, 0) =~= Seq::<(DirEntry, Seq<u8>)>::empty());
                    assert(es_k1 =~= es_k);
                }
                k += 1;
                continue;
            }
            proof {
                assert((blk + 1) * gbs == blk * gbs + gbs) by (nonlinear_arith);
            }
            let data = match self.read_block(blk) {
                Ok(d) => d,
                Err(_) => {
                    proof {
                        assert(false);
                    }
                    return Err(Error::io_error());
                },
            };
            proof {
                assert(data@ == bb);
            }
            let pairs = parse_dir_block(data.as_slice());
            proof {
                assert(entry_views(pairs@) =~= spec_dir_entries(bb, 0));
            }
            let np = pairs.len();
            let mut j: usize = 0;
            while j < np
                invariant
                    j <= np == pairs@.len(),
                    k < nb == gblocks.len(),
                    self.wf(),
                    self.sb == old(self).sb,
                    self.disk.contents() == old(self).disk.contents(),
                    disk == old(self).disk.contents(),
                    gbs == old(self).sb.spec_block_size(),
                    gblocks == blocks@,
                    inode.flags.bits() & crate::stat::IFlags::EXTENTS
                        == crate::stat::IFlags::EXTENTS,
                    spec_file_blocks_ok(disk, gbs, inode.block@, inode.spec_size()),
                    gblocks == spec_file_blocks(disk, gbs, inode.block@, inode.spec_size()),
                    es_all == spec_dir_all_entries(disk, gbs, gblocks, nb as int),
                    es_k == spec_dir_all_entries(disk, gbs, gblocks, k as int),
                    es_k1 == spec_dir_all_entries(disk, gbs, gblocks, k as int + 1),
                    es_k1 == es_k + entry_views(pairs@),
                    es_k1.len() <= es_all.len(),
                    forall|m: int|
                        0 <= m < es_k1.len() ==> #[trigger] es_all[m] == es_k1[m],
                    forall|i: int|
                        0 <= i < pairs@.len() ==> (#[trigger] pairs@[i].0, pairs@[i].1@)
                            == entry_views(pairs@)[i],
                    scanned == es_k.len() + j,
                    spec_find_named(es_all, name@) == spec_find_named(
                        es_all.skip(scanned),
                        name@,
                    ),
                decreases np - j,
            {
                proof {
                    assert(es_all[scanned] == es_k1[scanned]);
                    assert(es_k1[scanned] == entry_views(pairs@)[j as int]);
                    assert(es_all.skip(scanned)[0] == es_all[scanned]);
                }
                if bytes_eq(pairs[j].1.as_slice(), name) {
                    let e = pairs[j].0;
                    proof {
                        assert(spec_find_named(es_all.skip(scanned), name@) == Some(e.inode));
                    }
                    return Ok(Some(e.inode));
                }
                proof {
                    assert(es_all.skip(scanned).drop_first() =~= es_all.skip(scanned + 1));
                }
                j += 1;
                proof {
                    scanned = scanned + 1;
                }
            }
            k += 1;
        }
        proof {
            assert(scanned == es_all.len());
            assert(es_all.skip(scanned) =~= Seq::<(DirEntry, Seq<u8>)>::empty());
        }
        Ok(None)
    }

    /// Resolve `path` to a file handle: split on `/`, walk from the
    /// root inode, match each component byte-wise among the directory's
    /// entries, and open a handle on the final inode whatever its mode.
    /// Absent when a component is missing or the image is not readable
    /// along the walk.
    pub fn open(&mut self, path: &str) -> (r: Option<Ext4File>)
        requires
            old(self).wf(),
        ensures
            final(self).sb == old(self).sb,
            final(self).disk.contents() == old(self).disk.contents(),
            final(self).wf(),
            ({
                let disk = old(self).disk.contents();
                let sb = old(self).sb;
                let res = spec_open(disk, sb, path.spec_bytes());
                let comps = spec_components_from(path.spec_bytes(), 0);
                &&& ((r is Some) <==> (res matches Some(m) && spec_rec_has_extents(
                    spec_inode_rec(disk, sb, m),
                ) && spec_file_blocks_ok(
                    disk,
                    sb.spec_block_size(),
                    spec_rec_area(spec_inode_rec(disk, sb, m)),
                    spec_rec_size(spec_inode_rec(disk, sb, m)),
                )))
                &&& (r matches Some(h) ==> {
                    let m = res.unwrap();
                    &&& h.inode.is_decode_of(spec_inode_rec(disk, sb, m))
                    &&& h.pos == 0
                    &&& h.wf(final(self))
                    &&& h.blocks@ == spec_file_blocks(
                        disk,
                        sb.spec_block_size(),
                        spec_rec_area(spec_inode_rec(disk, sb, m)),
                        spec_rec_size(spec_inode_rec(disk, sb, m)),
                    )
                    &&& h.name@ == (if comps.len() == 0 {
                        seq![47u8]
                    } else {
                        comps.last()
                    })
                })
            }),
    {
        let ghost disk = old(self).disk.contents();
        let ghost sb0 = old(self).sb;
        let comps = split_path(path.as_bytes());
        let ghost gcomps = spec_components_from(path.spec_bytes(), 0);
        let mut cur = match self.read_inode(ROOT_INODE_NUM) {
            Some(i) => i,
            None => {
                return None;
            },
        };
        let ghost mut cur_num: nat = 2;
        let nc = comps.len();
        let mut idx: usize = 0;
        while idx < nc
            invariant
                idx <= nc == comps@.len(),
                self.wf(),
                self.sb == old(self).sb,
                self.disk.contents() == old(self).disk.contents(),
                disk == old(self).disk.contents(),
                sb0 == old(self).sb,
                gcomps.len() == nc,
                forall|i: int| 0 <= i < nc ==> #[trigger] comps@[i]@ == gcomps[i],
                spec_inode_readable(disk, sb0, cur_num),
                cur.is_decode_of(spec_inode_rec(disk, sb0, cur_num)),
                spec_open(disk, sb0, path.spec_bytes()) == spec_walk(
                    disk,
                    sb0,
                    cur_num,
                    gcomps,
                    idx as int,
                ),
            decreases nc - idx,
        {
            proof {
                assert(cur.block@ == spec_rec_area(spec_inode_rec(disk, sb0, cur_num)));
                assert(cur.spec_size() == spec_rec_size(spec_inode_rec(disk, sb0, cur_num)));
                assert(cur.flags.bits() == crate::decode::le_u32(
                    spec_inode_rec(disk, sb0, cur_num),
                    0x20,
                ));
            }
            let child = match self.dir_lookup(&cur, comps[idx].as_slice()) {
                Ok(Some(c)) => c,
                Ok(None) => {
                    return None;
                },
                Err(_) => {
                    return None;
                },
            };
            let next = match self.read_inode(child as u64) {
                Some(i) => i,
                None => {
                    return None;
                },
            };
            cur = next;
            proof {
                cur_num = child as nat;
            }
            idx += 1;
        }
        proof {
            assert(spec_open(disk, sb0, path.spec_bytes()) == Some(cur_num));
            assert(cur.block@ == spec_rec_area(spec_inode_rec(disk, sb0, cur_num)));
            assert(cur.spec_size() == spec_rec_size(spec_inode_rec(disk, sb0, cur_num)));
            assert(cur.flags.bits() == crate::decode::le_u32(
                spec_inode_rec(disk, sb0, cur_num),
                0x20,
            ));
        }
        let name_vec: Vec<u8> = if nc == 0 {
            let mut v: Vec<u8> = Vec::new();
            v.push(47u8);
            proof {
                assert(v@ =~= seq![47u8]);
            }
            v
        } else {
            crate::file::copy_bytes(&comps[nc - 1])
        };
        match Ext4File::new(self, cur, name_vec) {
            Ok(h) => Some(h),
            Err(_) => None,
        }
    }
}

/// The first live entry of `entries` whose name is `name`, if any,
/// yielding its child inode number.
pub open spec fn spec_find_named(entries: Seq<(DirEntry, Seq<u8>)>, name: Seq<u8>) -> Option<u32>
    decreases entries.len(),
{
    if entries.len() == 0 {
        None
    } else if entries[0].1 == name {
        Some(entries[0].0.inode)
    } else {
        spec_find_named(entries.drop_first(), name)
    }
}

/// Look a name up in a directory whose extent-tree root lives in `area`
/// and whose size is `size`: the first matching entry's child inode
/// number, or absent when there is none or the directory's blocks
/// cannot be resolved.
pub open spec fn spec_dir_lookup(
    disk: Seq<u8>,
    bs: nat,
    area: Seq<u8>,
    size: nat,
    name: Seq<u8>,
) -> Option<u32> {
    if !spec_file_blocks_ok(disk, bs, area, size) {
        None
    } else {
        let blocks = spec_file_blocks(disk, bs, area, size);
        spec_find_named(spec_dir_all_entries(disk, bs, blocks, blocks.len() as int), name)
    }
}

/// The first offset at or after `j` where `p` holds a `/`, or the end.
pub open spec fn spec_token_end(p: Seq<u8>, j: int) -> int
    decreases p.len() - j,
{
    if j < 0 || j >= p.len() || p[j] == 47 {
        j
    } else {
        spec_token_end(p, j + 1)
    }
}

/// A token's end lies between its start and the end of the path.
pub proof fn lemma_token_end_bounds(p: Seq<u8>, j: int)
    requires
        0 <= j <= p.len(),
    ensures
        j <= spec_token_end(p, j) <= p.len(),
        j < p.len() && p[j] != 47 ==> spec_token_end(p, j) > j,
    decreases p.len() - j,
{
    if j < p.len() && p[j] != 47 {
        lemma_token_end_bounds(p, j + 1);
    }
}

/// The path components of `p` from offset `j` on: the maximal runs of
/// non-`/` bytes, empty components dropped.
pub open spec fn spec_components_from(p: Seq<u8>, j: int) -> Seq<Seq<u8>>
    decreases p.len() - j,
    via spec_components_from_decreases
{
    if j < 0 || j >= p.len() {
        Seq::empty()
    } else if p[j] == 47 {
        spec_components_from(p, j + 1)
    } else {
        seq![p.subrange(j, spec_token_end(p, j))] + spec_components_from(p, spec_token_end(p, j))
    }
}

#[via_fn]
proof fn spec_components_from_decreases(p: Seq<u8>, j: int) {
    if 0 <= j < p.len() && p[j] != 47 {
        lemma_token_end_bounds(p, j);
    }
}

/// Split a path on `/`, dropping empty components.
pub fn split_path(p: &[u8]) -> (r: Vec<Vec<u8>>)
    ensures
        r@.len() == spec_components_from(p@, 0).len(),
        forall|i: int|
            0 <= i < r@.len() ==> #[trigger] r@[i]@ == spec_components_from(p@, 0)[i],
{
    let n = p.len();
    let mut r: Vec<Vec<u8>> = Vec::new();
    let mut j: usize = 0;
    proof {
        assert(views_of(r@) =~= Seq::<Seq<u8>>::empty());
    }
    while j < n
        invariant
            j <= n == p@.len(),
            spec_components_from(p@, 0) == views_of(r@) + spec_components_from(p@, j as int),
            views_of(r@).len() == r@.len(),
            forall|i: int| 0 <= i < r@.len() ==> #[trigger] r@[i]@ == views_of(r@)[i],
        decreases n - j,
    {
        if p[j] == 47 {
            j += 1;
        } else {
            let start = j;
            let mut e: usize = j;
            while e < n && p[e] != 47
                invariant
                    start <= e <= n == p@.len(),
                    spec_token_end(p@, start as int) == spec_token_end(p@, e as int),
                decreases n - e,
            {
                e += 1;
            }
            proof {
                assert(spec_token_end(p@, e as int) == e);
                assert(spec_token_end(p@, start as int) == e);
            }
            let tok = match crate::decode::read_fixed_bytes(p, start, e - start) {
                Ok(t) => t,
                Err(_) => {
                    proof {
                        assert(false);
                    }
                    return r;
                },
            };
            r.push(tok);
            proof {
                assert(views_of(r@) =~= views_of(r@.drop_last()).push(
                    p@.subrange(start as int, e as int),
                ));
                assert(spec_components_from(p@, start as int) == seq![
                    p@.subrange(start as int, e as int),
                ] + spec_components_from(p@, e as int));
                assert(views_of(r@) + spec_components_from(p@, e as int) =~= views_of(
                    r@.drop_last(),
                ) + spec_components_from(p@, start as int));
            }
            j = e;
        }
    }
    proof {
        assert(spec_components_from(p@, n as int) =~= Seq::<Seq<u8>>::empty());
        assert(spec_components_from(p@, 0) =~= views_of(r@));
    }
    r
}

/// The byte sequences of a list of byte vectors.
pub open spec fn views_of(v: Seq<Vec<u8>>) -> Seq<Seq<u8>> {
    Seq::new(v.len(), |i: int| v[i]@)
}

/// Whether two byte strings hold the same bytes.
pub fn bytes_eq(a: &[u8], b: &[u8]) -> (r: bool)
    ensures
        r == (a@ == b@),
{
    let n = a.len();
    if n != b.len() {
        return false;
    }
    let mut i: usize = 0;
    while i < n
        invariant
            i <= n == a@.len(),
            n == b@.len(),
            forall|m: int| 0 <= m < i ==> a@[m] == b@[m],
        decreases n - i,
    {
        if a[i] != b[i] {
            return false;
        }
        i += 1;
    }
    proof {
        assert(a@ =~= b@);
    }
    true
}

/// The on-disk record bytes of inode `n`.
pub open spec fn spec_inode_rec(disk: Seq<u8>, sb: SuperBlock, n: nat) -> Seq<u8> {
    disk.subrange(
        spec_inode_offset(disk, sb, n) as int,
        spec_inode_offset(disk, sb, n) + sb.inode_size,
    )
}

/// The 60-byte block area of an inode record.
pub open spec fn spec_rec_area(rec: Seq<u8>) -> Seq<u8> {
    rec.subrange(0x28, 0x64)
}

/// The size field of an inode record, halves recombined.
pub open spec fn spec_rec_size(rec: Seq<u8>) -> nat {
    crate::decode::le_u32(rec, 0x04) as nat + crate::decode::le_u32(rec, 0x6C) as nat
        * 0x1_0000_0000
}

/// Whether an inode record carries the extents flag.
pub open spec fn spec_rec_has_extents(rec: Seq<u8>) -> bool {
    crate::decode::le_u32(rec, 0x20) & 0x00080000 == 0x00080000
}

/// Walk the remaining path components from inode `n`: look each one up
/// in the current directory and step to the child, absent when a
/// component is missing, a directory cannot be resolved, or a child
/// inode cannot be located.
pub open spec fn spec_walk(
    disk: Seq<u8>,
    sb: SuperBlock,
    n: nat,
    comps: Seq<Seq<u8>>,
    k: int,
) -> Option<nat>
    decreases comps.len() - k,
{
    if k < 0 || k >= comps.len() {
        Some(n)
    } else {
        let rec = spec_inode_rec(disk, sb, n);
        if !spec_rec_has_extents(rec) {
            None
        } else {
            match spec_dir_lookup(
                disk,
                sb.spec_block_size(),
                spec_rec_area(rec),
                spec_rec_size(rec),
                comps[k],
            ) {
                Option::Some(c) => {
                    if spec_inode_readable(disk, sb, c as nat) {
                        spec_walk(disk, sb, c as nat, comps, k + 1)
                    } else {
                        None
                    }
                },
                Option::None => None,
            }
        }
    }
}

/// Resolve a path against an image: start at the root inode and walk
/// its components.
pub open spec fn spec_open(disk: Seq<u8>, sb: SuperBlock, path: Seq<u8>) -> Option<nat> {
    if !spec_inode_readable(disk, sb, 2) {
        None
    } else {
        spec_walk(disk, sb, 2, spec_components_from(path, 0), 0)
    }
}

/// Path resolution is idempotent: resolving one path twice against one
/// image state reaches the same inode record, so the two handles carry
/// equal inode fields, and with them equal size and mode. `open` leaves
/// the image state unchanged, so two successive calls resolve against
/// the same state.
pub proof fn lemma_open_idempotent(disk: Seq<u8>, sb: SuperBlock, path: Seq<u8>, a: Inode, b: Inode)
    requires
        spec_open(disk, sb, path) is Some,
        a.is_decode_of(spec_inode_rec(disk, sb, spec_open(disk, sb, path).unwrap())),
        b.is_decode_of(spec_inode_rec(disk, sb, spec_open(disk, sb, path).unwrap())),
    ensures
        a.mode == b.mode,
        a.flags == b.flags,
        a.spec_size() == b.spec_size(),
        a.block@ == b.block@,
{
    crate::inode::lemma_inode_decode_deterministic(
        a,
        b,
        spec_inode_rec(disk, sb, spec_open(disk, sb, path).unwrap()),
    );
}

} // verus!
