//! Extent-tree nodes: mapping logical block numbers to physical blocks.
//!
//! A node is a 12-byte header followed by 12-byte records: leaf extents
//! at depth zero, indexes pointing to child nodes above. The root node
//! lives in an inode's 60-byte block area and holds at most four
//! records; child nodes fill a whole disk block. Parsing validates the
//! magic and that leaf extents are sorted and disjoint.

use vstd::prelude::*;
use crate::decode::{le_u16, le_u32, get_u16, get_u32};

verus! {

/// The 12-byte header every extent-tree node begins with.
#[derive(Debug, Copy, Clone, PartialEq, Eq, Structural)]
pub struct ExtentHeader {
    pub magic: u16,
    pub entries: u16,
    pub max: u16,
    pub depth: u16,
    pub generation: u32,
}

/// A leaf extent: a run of logical blocks mapped to a run of physical
/// blocks.
#[derive(Debug, Copy, Clone, PartialEq, Eq, Structural)]
pub struct Extent {
    pub ee_block: u32,
    pub ee_len: u16,
    pub ee_start_hi: u16,
    pub ee_start_lo: u32,
}

/// An index record: the logical start of a child node's coverage and
/// the physical block where the child lives.
#[derive(Debug, Copy, Clone, PartialEq, Eq, Structural)]
pub struct ExtentIdx {
    pub ei_block: u32,
    pub ei_leaf_lo: u32,
    pub ei_leaf_hi: u16,
}

/// The header stored at byte offset `off` of `s`.
pub open spec fn spec_header(s: Seq<u8>, off: int) -> ExtentHeader {
    ExtentHeader {
        magic: le_u16(s, off),
        entries: le_u16(s, off + 2),
        max: le_u16(s, off + 4),
        depth: le_u16(s, off + 6),
        generation: le_u32(s, off + 8),
    }
}

/// The leaf extent stored at byte offset `off` of `s`.
pub open spec fn spec_extent(s: Seq<u8>, off: int) -> Extent {
    Extent {
        ee_block: le_u32(s, off),
        ee_len: le_u16(s, off + 4),
        ee_start_hi: le_u16(s, off + 6),
        ee_start_lo: le_u32(s, off + 8),
    }
}

/// The index record stored at byte offset `off` of `s`.
pub open spec fn spec_extent_idx(s: Seq<u8>, off: int) -> ExtentIdx {
    ExtentIdx {
        ei_block: le_u32(s, off),
        ei_leaf_lo: le_u32(s, off + 4),
        ei_leaf_hi: le_u16(s, off + 8),
    }
}

/// The `i`-th record of the node `s`, read as a leaf extent.
pub open spec fn spec_leaf_at(s: Seq<u8>, i: int) -> Extent {
    spec_extent(s, 12 + 12 * i)
}

/// The `i`-th record of the node `s`, read as an index.
pub open spec fn spec_idx_at(s: Seq<u8>, i: int) -> ExtentIdx {
    spec_extent_idx(s, 12 + 12 * i)
}

impl Extent {
    /// How many logical blocks the extent covers. A stored length above
    /// 32,768 encodes an uninitialized region of that many blocks less
    /// 32,768.
    pub open spec fn spec_covered_len(&self) -> nat {
        if self.ee_len <= 32768 {
            self.ee_len as nat
        } else {
            (self.ee_len - 32768) as nat
        }
    }

    /// Whether the extent is an uninitialized (pre-allocated, unwritten)
    /// region, whose reads yield zeros.
    pub open spec fn spec_uninit(&self) -> bool {
        self.ee_len > 32768
    }

    /// The physical block where the extent's run starts.
    pub open spec fn spec_physical_start(&self) -> nat {
        self.ee_start_lo as nat + self.ee_start_hi as nat * 0x1_0000_0000
    }

    /// Whether logical block `l` falls in the extent's covered range.
    pub open spec fn spec_covers(&self, l: nat) -> bool {
        self.ee_block <= l < self.ee_block + self.spec_covered_len()
    }

    /// How many logical blocks the extent covers.
    pub fn covered_len(&self) -> (r: u16)
        ensures
            r == self.spec_covered_len(),
    {
        if self.ee_len <= 32768 {
            self.ee_len
        } else {
            self.ee_len - 32768
        }
    }

    /// Whether the extent is an uninitialized region.
    pub fn is_uninit(&self) -> (r: bool)
        ensures
            r == self.spec_uninit(),
    {
        self.ee_len > 32768
    }

    /// The physical block where the extent's run starts.
    pub fn physical_start(&self) -> (r: u64)
        ensures
            r == self.spec_physical_start(),
    {
        self.ee_start_lo as u64 + self.ee_start_hi as u64 * 0x1_0000_0000
    }
}

/// Leaf records `i` and `i + 1` of node `s` are in order and their
/// covered ranges do not overlap.
pub open spec fn spec_leaf_pair_ok(s: Seq<u8>, i: int) -> bool {
    spec_leaf_at(s, i).ee_block + spec_leaf_at(s, i).spec_covered_len() <= spec_leaf_at(
        s,
        i + 1,
    ).ee_block
}

/// Leaf records `0..n` of node `s` are sorted by logical start and
/// adjacent covered ranges do not overlap.
pub open spec fn spec_leaves_sorted(s: Seq<u8>, n: int) -> bool {
    forall|i: int| 0 <= i < n - 1 ==> #[trigger] spec_leaf_pair_ok(s, i)
}

/// Index records `i` and `i + 1` of node `s` are in strictly ascending
/// order of logical start.
pub open spec fn spec_idx_pair_ok(s: Seq<u8>, i: int) -> bool {
    spec_idx_at(s, i).ei_block < spec_idx_at(s, i + 1).ei_block
}

/// Index records `0..n` of node `s` have strictly increasing logical
/// starts.
pub open spec fn spec_idxs_sorted(s: Seq<u8>, n: int) -> bool {
    forall|i: int| 0 <= i < n - 1 ==> #[trigger] spec_idx_pair_ok(s, i)
}

/// Whether the bytes `s` form a well-formed extent-tree node: magic,
/// record count within capacity and within the bytes, and ordered
/// records.
pub open spec fn spec_node_valid(s: Seq<u8>) -> bool {
    let h = spec_header(s, 0);
    &&& s.len() >= 12
    &&& h.magic == ExtentTree::MAGIC
    &&& h.entries <= h.max
    &&& 12 + h.entries * 12 <= s.len()
    &&& (h.depth == 0 ==> spec_leaves_sorted(s, h.entries as int))
    &&& (h.depth > 0 ==> spec_idxs_sorted(s, h.entries as int))
}


fn get_leaf(block: &[u8], i: usize) -> (e: Extent)
    requires
        12 + 12 * i + 12 <= block@.len(),
    ensures
        e == spec_leaf_at(block@, i as int),
{
    let l = block.len();
    assert(12 + 12 * i + 12 <= l);
    let off = 12 + 12 * i;
    Extent {
        ee_block: get_u32(block, off),
        ee_len: get_u16(block, off + 4),
        ee_start_hi: get_u16(block, off + 6),
        ee_start_lo: get_u32(block, off + 8),
    }
}

fn get_idx(block: &[u8], i: usize) -> (x: ExtentIdx)
    requires
        12 + 12 * i + 12 <= block@.len(),
    ensures
        x == spec_idx_at(block@, i as int),
{
    let l = block.len();
    assert(12 + 12 * i + 12 <= l);
    let off = 12 + 12 * i;
    ExtentIdx {
        ei_block: get_u32(block, off),
        ei_leaf_lo: get_u32(block, off + 4),
        ei_leaf_hi: get_u16(block, off + 8),
    }
}

/// One parsed extent-tree node: the root when taken from an inode's
/// block area, or a child node read from a disk block.
#[derive(Debug)]
pub struct ExtentTree {
    pub header: ExtentHeader,
    /// The leaf records, when `header.depth == 0`.
    pub extents: Vec<Extent>,
    /// The index records, when `header.depth > 0`.
    pub indexes: Vec<ExtentIdx>,
}

impl ExtentTree {
    /// The extent-tree node signature.
    pub const MAGIC: u16 = 0xf30a;

    /// The records of `self` are exactly the records of the node bytes
    /// `s`.
    pub open spec fn is_decode_of(self, s: Seq<u8>) -> bool {
        &&& self.header == spec_header(s, 0)
        &&& if self.header.depth == 0 {
            &&& self.extents@.len() == self.header.entries
            &&& self.indexes@.len() == 0
            &&& forall|i: int|
                0 <= i < self.header.entries ==> self.extents@[i] == #[trigger] spec_leaf_at(s, i)
        } else {
            &&& self.indexes@.len() == self.header.entries
            &&& self.extents@.len() == 0
            &&& forall|i: int|
                0 <= i < self.header.entries ==> self.indexes@[i] == #[trigger] spec_idx_at(s, i)
        }
    }

    /// Parse a node from `block`. Absent when the node is not
    /// well-formed.
    #[verifier::rlimit(50)]
    pub fn from_block(block: &[u8]) -> (r: Option<ExtentTree>)
        ensures
            (r is Some) <==> spec_node_valid(block@),
            r matches Some(t) ==> t.is_decode_of(block@),
    {
        let l = block.len();
        if l < 12 {
            return None;
        }
        let header = ExtentHeader {
            magic: get_u16(block, 0),
            entries: get_u16(block, 2),
            max: get_u16(block, 4),
            depth: get_u16(block, 6),
            generation: get_u32(block, 8),
        };
        if header.magic != ExtentTree::MAGIC {
            return None;
        }
        if header.entries > header.max {
            return None;
        }
        let n = header.entries as usize;
        if n > (l - 12) / 12 {
            return None;
        }
        let mut extents: Vec<Extent> = Vec::new();
        let mut indexes: Vec<ExtentIdx> = Vec::new();
        if header.depth == 0 {
            let mut i: usize = 0;
            while i < n
                invariant
                    i <= n,
                    12 + n * 12 <= l == block@.len(),
                    header == spec_header(block@, 0),
                    header.magic == ExtentTree::MAGIC,
                    header.depth == 0,
                    header.entries <= header.max,
                    n == header.entries,
                    extents@.len() == i,
                    forall|k: int| 0 <= k < i ==> extents@[k] == #[trigger] spec_leaf_at(block@, k),
                    forall|k: int| 0 <= k < i - 1 ==> #[trigger] spec_leaf_pair_ok(block@, k),
                decreases n - i,
            {
                let e = get_leaf(block, i);
                if i > 0 {
                    let prev = extents[i - 1];
                    let prev_end = prev.ee_block as u64 + prev.covered_len() as u64;
                    if prev_end > e.ee_block as u64 {
                        proof {
                            assert(!spec_leaf_pair_ok(block@, i as int - 1));
                            assert(!spec_leaves_sorted(block@, n as int));
                        }
                        return None;
                    }
                }
                extents.push(e);
                proof {
                    if i > 0 {
                        assert(spec_leaf_pair_ok(block@, i as int - 1));
                    }
                }
                i += 1;
            }
            proof {
                assert(spec_leaves_sorted(block@, n as int));
            }
        } else {
            let mut i: usize = 0;
            while i < n
                invariant
                    i <= n,
                    12 + n * 12 <= l == block@.len(),
                    header == spec_header(block@, 0),
                    header.magic == ExtentTree::MAGIC,
                    header.depth > 0,
                    header.entries <= header.max,
                    n == header.entries,
                    indexes@.len() == i,
                    forall|k: int| 0 <= k < i ==> indexes@[k] == #[trigger] spec_idx_at(block@, k),
                    forall|k: int| 0 <= k < i - 1 ==> #[trigger] spec_idx_pair_ok(block@, k),
                decreases n - i,
            {
                let x = get_idx(block, i);
                if i > 0 {
                    let prev = indexes[i - 1];
                    if prev.ei_block >= x.ei_block {
                        proof {
                            assert(!spec_idx_pair_ok(block@, i as int - 1));
                            assert(!spec_idxs_sorted(block@, n as int));
                        }
                        return None;
                    }
                }
                indexes.push(x);
                proof {
                    if i > 0 {
                        assert(spec_idx_pair_ok(block@, i as int - 1));
                    }
                }
                i += 1;
            }
            proof {
                assert(spec_idxs_sorted(block@, n as int));
            }
        }
        Some(ExtentTree { header, extents, indexes })
    }

    /// Parse the root node from an inode's block area. Absent when the
    /// node is not well-formed or claims more than the four records the
    /// area can hold.
    pub fn new(block: &[u8]) -> (r: Option<ExtentTree>)
        ensures
            (r is Some) <==> (spec_node_valid(block@) && spec_header(block@, 0).max <= 4),
            r matches Some(t) ==> t.is_decode_of(block@),
    {
        if block.len() < 12 {
            return None;
        }
        let max = get_u16(block, 4);
        if max > 4 {
            return None;
        }
        ExtentTree::from_block(block)
    }

    /// Whether the header carries the node signature.
    pub fn is_valid(&self) -> (r: bool)
        ensures
            r == (self.header.magic == ExtentTree::MAGIC),
    {
        self.header.magic == ExtentTree::MAGIC
    }

    /// The physical block holding logical block `l`, resolved against
    /// the first covering leaf record; absent when `l` is a hole or
    /// falls in an uninitialized region.
    pub open spec fn spec_resolve(es: Seq<Extent>, l: nat) -> Option<u64>
        decreases es.len(),
    {
        if es.len() == 0 {
            None
        } else if es[0].spec_covers(l) {
            if es[0].spec_uninit() {
                None
            } else {
                Some((es[0].spec_physical_start() + l - es[0].ee_block) as u64)
            }
        } else {
            Self::spec_resolve(es.drop_first(), l)
        }
    }

    /// Resolve logical block `l` through this node's leaf records.
    pub fn resolve(&self, l: u32) -> (r: Option<u64>)
        requires
            self.header.depth == 0,
        ensures
            r == Self::spec_resolve(self.extents@, l as nat),
    {
        let n = self.extents.len();
        let mut i: usize = 0;
        proof {
            assert(self.extents@.skip(0) =~= self.extents@);
        }
        while i < n
            invariant
                i <= n == self.extents@.len(),
                self.header.depth == 0,
                Self::spec_resolve(self.extents@, l as nat) == Self::spec_resolve(
                    self.extents@.skip(i as int),
                    l as nat,
                ),
            decreases n - i,
        {
            let e = self.extents[i];
            proof {
                assert(self.extents@.skip(i as int)[0] == e);
                assert(self.extents@.skip(i as int).drop_first() =~= self.extents@.skip(
                    i as int + 1,
                ));
            }
            let clen = e.covered_len();
            if e.ee_block as u64 <= l as u64 && (l as u64) < e.ee_block as u64 + clen as u64 {
                if e.is_uninit() {
                    return None;
                }
                let phys = e.physical_start();
                return Some(phys + (l - e.ee_block) as u64);
            }
            i += 1;
        }
        proof {
            assert(self.extents@.skip(n as int) =~= Seq::<Extent>::empty());
        }
        None
    }

    /// The physical block numbers of the leaf records' runs, flattened
    /// in record order.
    pub open spec fn spec_run(e: Extent) -> Seq<u64> {
        Seq::new(e.spec_covered_len(), |i: int| (e.spec_physical_start() + i) as u64)
    }

    /// The flattened runs of the first `k` leaf records.
    pub open spec fn spec_runs(es: Seq<Extent>, k: int) -> Seq<u64>
        decreases k,
    {
        if k <= 0 {
            Seq::empty()
        } else {
            Self::spec_runs(es, k - 1) + Self::spec_run(es[k - 1])
        }
    }

    /// Flatten the leaf records' physical runs, in record order.
    pub fn data_blocks(&self) -> (r: Vec<u64>)
        requires
            self.header.depth == 0,
        ensures
            r@ == Self::spec_runs(self.extents@, self.extents@.len() as int),
    {
        let mut blocks: Vec<u64> = Vec::new();
        let n = self.extents.len();
        let mut i: usize = 0;
        proof {
            assert(blocks@ =~= Self::spec_runs(self.extents@, 0));
        }
        while i < n
            invariant
                i <= n == self.extents@.len(),
                blocks@ == Self::spec_runs(self.extents@, i as int),
            decreases n - i,
        {
            let e = self.extents[i];
            let start = e.physical_start();
            let len = e.covered_len() as u64;
            let mut j: u64 = 0;
            while j < len
                invariant
                    j <= len == e.spec_covered_len(),
                    start == e.spec_physical_start(),
                    blocks@ == Self::spec_runs(self.extents@, i as int) + Self::spec_run(e).take(
                        j as int,
                    ),
                decreases len - j,
            {
                blocks.push(start + j);
                j += 1;
                proof {
                    assert(Self::spec_run(e).take(j as int) =~= Self::spec_run(e).take(
                        j as int - 1,
                    ).push((e.spec_physical_start() + j - 1) as u64));
                }
            }
            proof {
                assert(Self::spec_run(e).take(len as int) =~= Self::spec_run(e));
                assert(self.extents@[i as int] == e);
            }
            i += 1;
        }
        blocks
    }
}

/// In a well-formed leaf node the records' logical ranges are pairwise
/// disjoint and sorted: every earlier record ends at or before a later
/// one begins.
pub proof fn lemma_leaves_pairwise_disjoint(s: Seq<u8>, n: int, i: int, j: int)
    requires
        spec_leaves_sorted(s, n),
        0 <= i < j < n,
    ensures
        spec_leaf_at(s, i).ee_block + spec_leaf_at(s, i).spec_covered_len() <= spec_leaf_at(
            s,
            j,
        ).ee_block,
    decreases j - i,
{
    if j == i + 1 {
        assert(spec_leaf_pair_ok(s, i));
    } else {
        lemma_leaves_pairwise_disjoint(s, n, i, j - 1);
        assert(spec_leaf_pair_ok(s, j - 1));
    }
}

/// The same, stated of a parsed node's record list.
pub proof fn lemma_tree_extents_disjoint(t: ExtentTree, s: Seq<u8>, i: int, j: int)
    requires
        t.is_decode_of(s),
        spec_node_valid(s),
        t.header.depth == 0,
        0 <= i < j < t.extents@.len(),
    ensures
        t.extents@[i].ee_block + t.extents@[i].spec_covered_len() <= t.extents@[j].ee_block,
{
    lemma_leaves_pairwise_disjoint(s, t.header.entries as int, i, j);
}

} // verus!
