//! Directory entries: variable-length records inside a directory's data
//! blocks.
//!
//! Iteration within a block starts at offset 0 and advances by each
//! record's `rec_len`; it stops at a record with inode 0 (a tombstone),
//! at a malformed record, or at the block's end. Names are raw bytes;
//! callers decide rendering.

use vstd::prelude::*;
use crate::decode::{le_u16, le_u32, get_u16, get_u32, read_fixed_bytes};
use crate::inode::Inode;
use crate::stat::Mode;

verus! {

/// The fixed 8-byte header of one directory record.
#[derive(Debug, Copy, Clone, PartialEq, Eq, Structural)]
pub struct DirEntry {
    pub inode: u32,
    pub rec_len: u16,
    pub name_len: u8,
    pub file_type: u8,
}

/// The record header stored at byte offset `off` of `s`.
pub open spec fn spec_dirent(s: Seq<u8>, off: int) -> DirEntry {
    DirEntry {
        inode: le_u32(s, off),
        rec_len: le_u16(s, off + 4),
        name_len: s[off + 6],
        file_type: s[off + 7],
    }
}

/// Whether the record at `off` is sound and live: it fits in the block,
/// is not a tombstone, advances the cursor, and holds its own name.
pub open spec fn spec_dirent_ok(s: Seq<u8>, off: int) -> bool {
    let e = spec_dirent(s, off);
    &&& off + 8 <= s.len()
    &&& e.inode != 0
    &&& e.rec_len >= 8
    &&& off + e.rec_len <= s.len()
    &&& 8 + e.name_len <= e.rec_len
}

/// The live records of block `s` from offset `off` on, each with its
/// name bytes, in iteration order.
pub open spec fn spec_dir_entries(s: Seq<u8>, off: int) -> Seq<(DirEntry, Seq<u8>)>
    decreases s.len() - off,
{
    if off < 0 || off + 8 > s.len() || !spec_dirent_ok(s, off) {
        Seq::empty()
    } else {
        let e = spec_dirent(s, off);
        seq![(e, s.subrange(off + 8, off + 8 + e.name_len))] + spec_dir_entries(
            s,
            off + e.rec_len,
        )
    }
}

impl DirEntry {
    /// Decode the record at the start of `buffer` together with its
    /// name. Absent for a short buffer, a tombstone, or a record that
    /// cannot hold its own name.
    pub fn from_bytes(buffer: &[u8]) -> (r: Option<(DirEntry, Vec<u8>)>)
        ensures
            (r is Some) <==> spec_dirent_ok(buffer@, 0),
            r matches Some(p) ==> p.0 == spec_dirent(buffer@, 0) && p.1@ == buffer@.subrange(
                8,
                8 + p.0.name_len,
            ),
    {
        if buffer.len() < 8 {
            return None;
        }
        let e = DirEntry {
            inode: get_u32(buffer, 0),
            rec_len: get_u16(buffer, 4),
            name_len: buffer[6],
            file_type: buffer[7],
        };
        if e.inode == 0 || e.rec_len < 8 || e.rec_len as usize > buffer.len() || 8 + e.name_len
            as u16 > e.rec_len {
            return None;
        }
        let name = match read_fixed_bytes(buffer, 8, e.name_len as usize) {
            Ok(n) => n,
            Err(_) => {
                return None;
            },
        };
        Some((e, name))
    }

    /// The record length: how far the cursor advances past this record.
    pub fn len(&self) -> (r: usize)
        ensures
            r == self.rec_len,
    {
        self.rec_len as usize
    }
}

/// The live records of one directory block, with their names, in
/// iteration order.
pub fn parse_dir_block(block: &[u8]) -> (r: Vec<(DirEntry, Vec<u8>)>)
    ensures
        r@.len() == spec_dir_entries(block@, 0).len(),
        forall|i: int|
            0 <= i < r@.len() ==> #[trigger] r@[i].0 == spec_dir_entries(block@, 0)[i].0
                && r@[i].1@ == spec_dir_entries(block@, 0)[i].1,
{
    let l = block.len();
    let mut out: Vec<(DirEntry, Vec<u8>)> = Vec::new();
    let mut off: usize = 0;
    loop
        invariant
            off <= l == block@.len(),
            spec_dir_entries(block@, 0) =~= entry_views(out@) + spec_dir_entries(
                block@,
                off as int,
            ),
            out@.len() == entry_views(out@).len(),
            forall|i: int|
                0 <= i < out@.len() ==> #[trigger] out@[i].0 == entry_views(out@)[i].0
                    && out@[i].1@ == entry_views(out@)[i].1,
        ensures
            spec_dir_entries(block@, 0) =~= entry_views(out@),
        decreases l - off,
    {
        if off >= l || l - off < 8 {
            proof {
                assert(spec_dir_entries(block@, off as int) =~= Seq::empty());
            }
            break;
        }
        let e = DirEntry {
            inode: get_u32(block, off),
            rec_len: get_u16(block, off + 4),
            name_len: block[off + 6],
            file_type: block[off + 7],
        };
        proof {
            assert(e == spec_dirent(block@, off as int));
        }
        if e.inode == 0 || e.rec_len < 8 || e.rec_len as usize > l - off || 8 + e.name_len as u16
            > e.rec_len {
            proof {
                assert(!spec_dirent_ok(block@, off as int));
                assert(spec_dir_entries(block@, off as int) =~= Seq::empty());
            }
            break;
        }
        let name = match read_fixed_bytes(block, off + 8, e.name_len as usize) {
            Ok(n) => n,
            Err(_) => {
                proof {
                    assert(false);
                }
                break;
            },
        };
        out.push((e, name));
        proof {
            assert(entry_views(out@) =~= entry_views(out@.drop_last()).push(
                (e, block@.subrange(off as int + 8, off as int + 8 + e.name_len)),
            ));
        }
        off = off + e.rec_len as usize;
    }
    proof {
        assert(spec_dir_entries(block@, 0) =~= entry_views(out@));
        assert forall|i: int| 0 <= i < out@.len() implies #[trigger] out@[i].0 == spec_dir_entries(
            block@,
            0,
        )[i].0 && out@[i].1@ == spec_dir_entries(block@, 0)[i].1 by {
            assert(entry_views(out@)[i] == (out@[i].0, out@[i].1@));
        }
    }
    out
}

/// The header/name pairs of an executable entry list, as spec values.
pub open spec fn entry_views(v: Seq<(DirEntry, Vec<u8>)>) -> Seq<(DirEntry, Seq<u8>)> {
    Seq::new(v.len(), |i: int| (v[i].0, v[i].1@))
}

/// The sum of `rec_len` over an entry list.
pub open spec fn spec_rec_len_sum(entries: Seq<(DirEntry, Seq<u8>)>) -> int
    decreases entries.len(),
{
    if entries.len() == 0 {
        0
    } else {
        entries[0].0.rec_len + spec_rec_len_sum(entries.drop_first())
    }
}

/// Directory iteration terminates and stays inside its block: the sum
/// of `rec_len` over the records yielded from offset `off` never carries
/// the cursor past the block's end.
pub proof fn lemma_dir_iteration_bounded(s: Seq<u8>, off: int)
    requires
        0 <= off <= s.len(),
    ensures
        off + spec_rec_len_sum(spec_dir_entries(s, off)) <= s.len(),
    decreases s.len() - off,
{
    if off + 8 > s.len() || !spec_dirent_ok(s, off) {
    } else {
        let e = spec_dirent(s, off);
        lemma_dir_iteration_bounded(s, off + e.rec_len);
        assert(spec_dir_entries(s, off).drop_first() =~= spec_dir_entries(s, off + e.rec_len));
    }
}

/// A well-formed directory block from offset `off` on: live records
/// chain by `rec_len`, each holding its own name, until the cursor
/// reaches exactly the block's end or a tombstone record.
pub open spec fn spec_dir_block_wf(s: Seq<u8>, off: int) -> bool
    decreases s.len() - off,
{
    if off == s.len() {
        true
    } else if off < 0 || off + 8 > s.len() {
        false
    } else {
        let e = spec_dirent(s, off);
        if e.inode == 0 {
            true
        } else {
            &&& e.rec_len >= 8
            &&& off + e.rec_len <= s.len()
            &&& 8 + e.name_len <= e.rec_len
            &&& spec_dir_block_wf(s, off + e.rec_len)
        }
    }
}

/// In a well-formed block, iteration accounts for the block in full:
/// the sum of `rec_len` over the yielded records carries the cursor
/// exactly to the block's end, or iteration stopped at a tombstone.
pub proof fn lemma_dir_iteration_complete(s: Seq<u8>, off: int)
    requires
        0 <= off <= s.len(),
        spec_dir_block_wf(s, off),
    ensures
        ({
            let stop = off + spec_rec_len_sum(spec_dir_entries(s, off));
            stop == s.len() || (stop + 8 <= s.len() && spec_dirent(s, stop).inode == 0)
        }),
    decreases s.len() - off,
{
    if off == s.len() {
    } else if spec_dirent(s, off).inode == 0 {
    } else {
        let e = spec_dirent(s, off);
        assert(spec_dirent_ok(s, off));
        lemma_dir_iteration_complete(s, off + e.rec_len);
        assert(spec_dir_entries(s, off).drop_first() =~= spec_dir_entries(s, off + e.rec_len));
    }
}

/// Where directory iteration stops, it stops for a stated reason: the
/// cursor has reached exactly the block's end, or the record there is a
/// tombstone, or the record there is malformed.
pub proof fn lemma_dir_iteration_exhaustive(s: Seq<u8>, off: int)
    requires
        0 <= off <= s.len(),
    ensures
        ({
            let stop = off + spec_rec_len_sum(spec_dir_entries(s, off));
            ||| stop == s.len()
            ||| stop + 8 > s.len()
            ||| spec_dirent(s, stop).inode == 0
            ||| !spec_dirent_ok(s, stop)
        }),
    decreases s.len() - off,
{
    if off + 8 > s.len() || !spec_dirent_ok(s, off) {
    } else {
        let e = spec_dirent(s, off);
        lemma_dir_iteration_bounded(s, off + e.rec_len);
        lemma_dir_iteration_exhaustive(s, off + e.rec_len);
        assert(spec_dir_entries(s, off).drop_first() =~= spec_dir_entries(s, off + e.rec_len));
    }
}

/// One yielded directory entry: the record, the raw name bytes, and the
/// child's decoded inode.
#[derive(Debug)]
pub struct Entry {
    pub entry: DirEntry,
    pub name: Vec<u8>,
    pub inode: Inode,
}

impl Entry {
    pub fn new(entry: DirEntry, name: Vec<u8>, inode: Inode) -> (r: Entry)
        ensures
            r.entry == entry,
            r.name@ == name@,
            r.inode == inode,
    {
        Entry { entry, name, inode }
    }

    /// The record length of the underlying record.
    pub fn len(&self) -> (r: usize)
        ensures
            r == self.entry.rec_len,
    {
        self.entry.len()
    }

    /// The raw name bytes.
    pub fn name(&self) -> (r: &Vec<u8>)
        ensures
            r@ == self.name@,
    {
        &self.name
    }

    /// The child's mode word.
    pub fn mode(&self) -> (r: Mode)
        ensures
            r == self.inode.mode,
    {
        self.inode.mode()
    }

    /// The child's decoded inode.
    pub fn inode(&self) -> (r: &Inode)
        ensures
            r == &self.inode,
    {
        &self.inode
    }
}

} // verus!
