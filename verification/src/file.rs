//! File handles: a read cursor over an inode's resolved data blocks.
//!
//! A handle snapshots the inode, pre-resolves the file's logical blocks
//! to physical blocks (zero standing for a hole), and keeps a byte
//! cursor. Reads never cross the file's logical end; holes read as
//! zeros.

use vstd::prelude::*;
use vstd::arithmetic::div_mod::{
    lemma_fundamental_div_mod, lemma_fundamental_div_mod_converse, lemma_div_is_ordered,
};
use crate::device::Disk;
use crate::dir::{DirEntry, Entry, spec_dir_entries, parse_dir_block, entry_views};
use crate::error::Error;
use crate::fs::{FileSystem, spec_nblocks, spec_file_blocks, spec_file_blocks_ok};
use crate::inode::{Inode, spec_inode_readable, spec_inode_offset};
use crate::stat::{Mode, IFlags};

verus! {

/// The byte at logical offset `i` of a file with block list `blocks`:
/// from the mapped physical block, or zero under a hole.
pub open spec fn spec_file_byte(disk: Seq<u8>, bs: nat, blocks: Seq<u64>, i: int) -> u8 {
    let b = blocks[i / bs as int];
    if b == 0 {
        0
    } else {
        disk[b * bs + (i % bs as int)]
    }
}

/// The logical contents of a file of `size` bytes.
pub open spec fn spec_file_contents(disk: Seq<u8>, bs: nat, blocks: Seq<u64>, size: nat) -> Seq<
    u8,
> {
    Seq::new(size as nat, |i: int| spec_file_byte(disk, bs, blocks, i))
}

/// The bytes of one data block: the mapped block's bytes, or a block of
/// zeros under a hole.
pub open spec fn spec_block_bytes(disk: Seq<u8>, bs: nat, b: u64) -> Seq<u8> {
    if b == 0 {
        Seq::new(bs, |i: int| 0u8)
    } else {
        disk.subrange(b * bs, b * bs + bs)
    }
}

/// The directory records of the first `k` data blocks, concatenated in
/// block order.
pub open spec fn spec_dir_all_entries(disk: Seq<u8>, bs: nat, blocks: Seq<u64>, k: int) -> Seq<
    (DirEntry, Seq<u8>),
>
    decreases k,
{
    if k <= 0 {
        Seq::empty()
    } else {
        spec_dir_all_entries(disk, bs, blocks, k - 1) + spec_dir_entries(
            spec_block_bytes(disk, bs, blocks[k - 1]),
            0,
        )
    }
}

/// Earlier prefixes of the concatenated record list agree with later
/// ones.
pub proof fn lemma_all_entries_prefix(disk: Seq<u8>, bs: nat, blocks: Seq<u64>, k: int, n: int)
    requires
        0 <= k <= n,
    ensures
        spec_dir_all_entries(disk, bs, blocks, k).len() <= spec_dir_all_entries(
            disk,
            bs,
            blocks,
            n,
        ).len(),
        forall|m: int|
            0 <= m < spec_dir_all_entries(disk, bs, blocks, k).len()
                ==> #[trigger] spec_dir_all_entries(disk, bs, blocks, n)[m]
                == spec_dir_all_entries(disk, bs, blocks, k)[m],
    decreases n - k,
{
    if k < n {
        lemma_all_entries_prefix(disk, bs, blocks, k, n - 1);
    }
}

/// An ephemeral read cursor over one inode's data.
#[derive(Debug)]
pub struct Ext4File {
    pub name: Vec<u8>,
    pub inode: Inode,
    pub blocks: Vec<u64>,
    pub pos: u64,
}

impl Ext4File {
    /// The handle's invariant against the filesystem it was opened
    /// from: the block list covers the file and every mapped block lies
    /// on the device.
    pub open spec fn wf<D: Disk>(&self, fs: &FileSystem<D>) -> bool {
        &&& fs.wf()
        &&& self.blocks@.len() == spec_nblocks(
            self.inode.spec_size(),
            fs.sb.spec_block_size(),
        )
        &&& forall|i: int|
            0 <= i < self.blocks@.len() ==> (#[trigger] self.blocks@[i] == 0 || (self.blocks@[i]
                + 1) * fs.sb.spec_block_size() <= fs.disk.contents().len())
        &&& self.pos <= self.inode.spec_size()
    }

    /// The file's logical contents under `fs`.
    pub open spec fn spec_contents<D: Disk>(&self, fs: &FileSystem<D>) -> Seq<u8> {
        spec_file_contents(
            fs.disk.contents(),
            fs.sb.spec_block_size(),
            self.blocks@,
            self.inode.spec_size(),
        )
    }

    /// Open a handle on `inode`: resolve its blocks and start the
    /// cursor at zero.
    pub fn new<D: Disk>(fs: &mut FileSystem<D>, inode: Inode, name: Vec<u8>) -> (r: Result<
        Ext4File,
        Error,
    >)
        requires
            old(fs).wf(),
        ensures
            final(fs).sb == old(fs).sb,
            final(fs).disk.contents() == old(fs).disk.contents(),
            final(fs).wf(),
            (r is Ok) <==> (inode.flags.bits() & IFlags::EXTENTS == IFlags::EXTENTS
                && spec_file_blocks_ok(
                old(fs).disk.contents(),
                old(fs).sb.spec_block_size(),
                inode.block@,
                inode.spec_size(),
            )),
            r matches Ok(h) ==> {
                &&& h.wf(final(fs))
                &&& h.inode == inode
                &&& h.name@ == name@
                &&& h.pos == 0
                &&& h.blocks@ == spec_file_blocks(
                    old(fs).disk.contents(),
                    old(fs).sb.spec_block_size(),
                    inode.block@,
                    inode.spec_size(),
                )
            },
    {
        let blocks = match fs.file_blocks(&inode) {
            Ok(b) => b,
            Err(e) => {
                return Err(e);
            },
        };
        proof {
            let disk = fs.disk.contents();
            let bs = fs.sb.spec_block_size();
            let area = inode.block@;
            let size = inode.spec_size();
            assert forall|i: int|
                0 <= i < blocks@.len() implies (#[trigger] blocks@[i] == 0 || (blocks@[i] + 1) * bs
                <= disk.len()) by {
                assert(spec_resolve_node_ok(disk, bs, area, i as nat));
            }
        }
        Ok(Ext4File { name, inode, blocks, pos: 0 })
    }

    /// The raw name the handle was opened under.
    pub fn name(&self) -> (r: &Vec<u8>)
        ensures
            r@ == self.name@,
    {
        &self.name
    }

    /// The snapshot inode's mode word.
    pub fn mode(&self) -> (r: Mode)
        ensures
            r == self.inode.mode,
    {
        self.inode.mode()
    }

    /// The file size in bytes.
    pub fn size(&self) -> (r: u64)
        ensures
            r == self.inode.spec_size(),
    {
        self.inode.size()
    }

    /// Whether the cursor has reached the file's logical end.
    pub fn is_eof(&self) -> (r: bool)
        ensures
            r == (self.pos >= self.inode.spec_size()),
    {
        self.pos >= self.inode.size()
    }

    /// Read one of the file's data blocks by its logical index: the
    /// mapped block's bytes, or a block of zeros under a hole.
    pub fn read_block<D: Disk>(&self, fs: &mut FileSystem<D>, index: usize) -> (r: Result<
        Vec<u8>,
        Error,
    >)
        requires
            self.wf(old(fs)),
            index < self.blocks@.len(),
        ensures
            final(fs).sb == old(fs).sb,
            final(fs).disk.contents() == old(fs).disk.contents(),
            final(fs).wf(),
            r matches Ok(v) && v@ == spec_block_bytes(
                old(fs).disk.contents(),
                old(fs).sb.spec_block_size(),
                self.blocks@[index as int],
            ),
    {
        let b = self.blocks[index];
        let bs = fs.sb.block_size();
        if b == 0 {
            let mut v: Vec<u8> = Vec::new();
            let mut i: u64 = 0;
            while i < bs
                invariant
                    i <= bs,
                    v@ =~= Seq::new(i as nat, |k: int| 0u8),
                decreases bs - i,
            {
                v.push(0u8);
                i += 1;
                proof {
                    assert(v@ =~= Seq::new(i as nat, |k: int| 0u8));
                }
            }
            return Ok(v);
        }
        proof {
            let bs = old(fs).sb.spec_block_size();
            assert((b + 1) * bs == b * bs + bs) by (nonlinear_arith);
        }
        match fs.read_block(b) {
            Ok(v) => Ok(v),
            Err(_) => {
                proof {
                    assert(false);
                }
                Err(Error::io_error())
            },
        }
    }

    /// Read up to `n` bytes at the cursor: exactly the file's bytes
    /// from the cursor to `min(cursor + n, size)`, advancing the
    /// cursor by as many.
    pub fn read<D: Disk>(&mut self, fs: &mut FileSystem<D>, n: usize) -> (r: Result<
        Vec<u8>,
        Error,
    >)
        requires
            old(self).wf(old(fs)),
        ensures
            final(fs).sb == old(fs).sb,
            final(fs).disk.contents() == old(fs).disk.contents(),
            final(self).wf(final(fs)),
            final(self).name@ == old(self).name@,
            final(self).inode == old(self).inode,
            final(self).blocks@ == old(self).blocks@,
            final(self).pos == vstd::math::min(
                old(self).pos + n as int,
                old(self).inode.spec_size() as int,
            ),
            r matches Ok(v) && v@ == old(self).spec_contents(old(fs)).subrange(
                old(self).pos as int,
                vstd::math::min(old(self).pos + n as int, old(self).inode.spec_size() as int),
            ),
    {
        let size = self.inode.size();
        let bs = fs.sb.block_size();
        proof {
            vstd::arithmetic::power2::lemma_pow2_pos(fs.sb.log_block_size as nat);
            assert(bs >= 1024);
        }
        let end = if (n as u64) > size - self.pos {
            size
        } else {
            self.pos + n as u64
        };
        let ghost gc = old(self).spec_contents(old(fs));
        let ghost pos0 = self.pos;
        let mut out: Vec<u8> = Vec::new();
        let mut cur = self.pos;
        proof {
            assert(out@ =~= gc.subrange(pos0 as int, cur as int));
        }
        while cur < end
            invariant
                fs.wf(),
                fs.sb == old(fs).sb,
                fs.disk.contents() == old(fs).disk.contents(),
                self.inode == old(self).inode,
                self.blocks@ == old(self).blocks@,
                self.name@ == old(self).name@,
                self.pos == old(self).pos,
                self.wf(fs),
                bs == fs.sb.spec_block_size(),
                bs >= 1024,
                pos0 == old(self).pos,
                pos0 <= cur <= end <= size,
                size == self.inode.spec_size(),
                gc == old(self).spec_contents(old(fs)),
                gc.len() == size,
                out@ == gc.subrange(pos0 as int, cur as int),
            decreases end - cur,
        {
            let bi = cur / bs;
            let boff = cur % bs;
            let nb = self.blocks.len();
            proof {
                lemma_fundamental_div_mod(cur as int, bs as int);
                lemma_index_in_blocks(cur as nat, size as nat, bs as nat);
                assert(bi < nb as u64);
            }
            let blk = self.blocks[bi as usize];
            let avail = bs - boff;
            let want = end - cur;
            let chunk = if want < avail {
                want
            } else {
                avail
            };
            if blk == 0 {
                let mut k: u64 = 0;
                while k < chunk
                    invariant
                        k <= chunk,
                        pos0 <= cur,
                        cur + chunk <= end <= size,
                        gc.len() == size,
                        bs >= 1,
                        bi == cur as int / bs as int,
                        boff == cur as int % bs as int,
                        boff + chunk <= bs,
                        bi < self.blocks@.len(),
                        self.blocks@[bi as int] == 0,
                        forall|j: int|
                            0 <= j < gc.len() ==> gc[j] == spec_file_byte(
                                fs.disk.contents(),
                                bs as nat,
                                self.blocks@,
                                j,
                            ),
                        out@ == gc.subrange(pos0 as int, (cur + k) as int),
                    decreases chunk - k,
                {
                    proof {
                        lemma_fundamental_div_mod(cur as int, bs as int);
                        assert(cur as int == bs as int * (cur as int / bs as int) + (cur as int
                            % bs as int));
                        assert(cur as int == bs as int * bi as int + boff as int);
                        assert((cur + k) as int == bi as int * bs as int + (boff + k) as int)
                            by (nonlinear_arith)
                            requires
                                cur as int == bs as int * bi as int + boff as int,
                        ;
                        lemma_fundamental_div_mod_converse(
                            (cur + k) as int,
                            bs as int,
                            bi as int,
                            (boff + k) as int,
                        );
                    }
                    out.push(0u8);
                    k += 1;
                    proof {
                        assert(out@ =~= gc.subrange(pos0 as int, (cur + k) as int));
                    }
                }
            } else {
                proof {
                    assert((blk + 1) * bs == blk * bs + bs) by (nonlinear_arith);
                }
                let data = match fs.read_block(blk) {
                    Ok(d) => d,
                    Err(_) => {
                        proof {
                            assert(false);
                        }
                        return Err(Error::io_error());
                    },
                };
                let mut k: u64 = 0;
                while k < chunk
                    invariant
                        k <= chunk,
                        pos0 <= cur,
                        cur + chunk <= end <= size,
                        gc.len() == size,
                        bs >= 1,
                        bi == cur as int / bs as int,
                        boff == cur as int % bs as int,
                        boff + chunk <= bs,
                        bi < self.blocks@.len(),
                        self.blocks@[bi as int] == blk,
                        blk != 0,
                        blk as int * bs as int + bs as int <= fs.disk.contents().len(),
                        data@ == fs.disk.contents().subrange(
                            blk as int * bs as int,
                            blk as int * bs as int + bs as int,
                        ),
                        data@.len() == bs,
                        forall|j: int|
                            0 <= j < gc.len() ==> gc[j] == spec_file_byte(
                                fs.disk.contents(),
                                bs as nat,
                                self.blocks@,
                                j,
                            ),
                        out@ == gc.subrange(pos0 as int, (cur + k) as int),
                    decreases chunk - k,
                {
                    let b = data[(boff + k) as usize];
                    proof {
                        lemma_fundamental_div_mod(cur as int, bs as int);
                        assert(cur as int == bs as int * bi as int + boff as int);
                        assert((cur + k) as int == bi as int * bs as int + (boff + k) as int)
                            by (nonlinear_arith)
                            requires
                                cur as int == bs as int * bi as int + boff as int,
                        ;
                        lemma_fundamental_div_mod_converse(
                            (cur + k) as int,
                            bs as int,
                            bi as int,
                            (boff + k) as int,
                        );
                        let j = (boff + k) as int;
                        assert(0 <= j < bs as int);
                        assert(fs.disk.contents().subrange(
                            blk as int * bs as int,
                            blk as int * bs as int + bs as int,
                        )[j] == fs.disk.contents()[blk as int * bs as int + j]);
                        assert(data@[j] == fs.disk.contents()[blk as int * bs as int + j]);
                    }
                    out.push(b);
                    k += 1;
                    proof {
                        assert(out@ =~= gc.subrange(pos0 as int, (cur + k) as int));
                    }
                }
            }
            cur = cur + chunk;
        }
        self.pos = end;
        Ok(out)
    }

    /// Read from the cursor to the file's end in `chunk`-byte steps and
    /// concatenate every read: the read round trip. The result is
    /// exactly the file's bytes from the cursor to its logical end —
    /// so from a fresh handle it is the whole file, with as many bytes
    /// as the file's size — and the handle is at EOF afterwards.
    pub fn read_to_end<D: Disk>(&mut self, fs: &mut FileSystem<D>, chunk: usize) -> (r: Result<
        Vec<u8>,
        Error,
    >)
        requires
            old(self).wf(old(fs)),
            chunk >= 1,
        ensures
            final(fs).sb == old(fs).sb,
            final(fs).disk.contents() == old(fs).disk.contents(),
            final(self).wf(final(fs)),
            final(self).name@ == old(self).name@,
            final(self).inode == old(self).inode,
            final(self).blocks@ == old(self).blocks@,
            final(self).pos == old(self).inode.spec_size(),
            r matches Ok(v) && v@ == old(self).spec_contents(old(fs)).subrange(
                old(self).pos as int,
                old(self).inode.spec_size() as int,
            ),
    {
        let ghost gc = old(self).spec_contents(old(fs));
        let ghost pos0 = old(self).pos;
        let mut all: Vec<u8> = Vec::new();
        proof {
            assert(all@ =~= gc.subrange(pos0 as int, pos0 as int));
        }
        loop
            invariant
                self.wf(fs),
                fs.sb == old(fs).sb,
                fs.disk.contents() == old(fs).disk.contents(),
                self.name@ == old(self).name@,
                self.inode == old(self).inode,
                self.blocks@ == old(self).blocks@,
                pos0 == old(self).pos,
                pos0 <= self.pos <= self.inode.spec_size(),
                gc == old(self).spec_contents(old(fs)),
                chunk >= 1,
                all@ == gc.subrange(pos0 as int, self.pos as int),
            ensures
                self.pos == self.inode.spec_size(),
            decreases self.inode.spec_size() - self.pos,
        {
            if self.is_eof() {
                break;
            }
            let ghost prev_pos = self.pos;
            let part = match self.read(fs, chunk) {
                Ok(p) => p,
                Err(e) => {
                    proof {
                        assert(false);
                    }
                    return Err(e);
                },
            };
            let n = part.len();
            let mut i: usize = 0;
            while i < n
                invariant
                    i <= n == part@.len(),
                    all@ == gc.subrange(pos0 as int, prev_pos as int) + part@.subrange(
                        0,
                        i as int,
                    ),
                decreases n - i,
            {
                all.push(part[i]);
                i += 1;
                proof {
                    assert(all@ =~= gc.subrange(pos0 as int, prev_pos as int) + part@.subrange(
                        0,
                        i as int,
                    ));
                }
            }
            proof {
                assert(part@.subrange(0, n as int) =~= part@);
                lemma_reads_concatenate(gc, pos0 as int, prev_pos as int, self.pos as int);
                assert(all@ =~= gc.subrange(pos0 as int, self.pos as int));
            }
        }
        Ok(all)
    }

    /// Iterate the directory: every live record of every data block, in
    /// block order, each with the child's decoded inode. Fails when a
    /// record names a child inode that cannot be located on the device.
    pub fn read_dir<D: Disk>(&self, fs: &mut FileSystem<D>) -> (r: Result<Vec<Entry>, Error>)
        requires
            self.wf(old(fs)),
        ensures
            final(fs).sb == old(fs).sb,
            final(fs).disk.contents() == old(fs).disk.contents(),
            final(fs).wf(),
            ({
                let es = spec_dir_all_entries(
                    old(fs).disk.contents(),
                    old(fs).sb.spec_block_size(),
                    self.blocks@,
                    self.blocks@.len() as int,
                );
                &&& ((r is Ok) <==> (forall|m: int|
                    0 <= m < es.len() ==> spec_inode_readable(
                        old(fs).disk.contents(),
                        old(fs).sb,
                        (#[trigger] es[m].0).inode as nat,
                    )))
                &&& (r matches Ok(v) ==> {
                    &&& v@.len() == es.len()
                    &&& forall|m: int|
                        0 <= m < es.len() ==> {
                            &&& (#[trigger] v@[m]).entry == es[m].0
                            &&& v@[m].name@ == es[m].1
                            &&& v@[m].inode.is_decode_of(
                                old(fs).disk.contents().subrange(
                                    spec_inode_offset(
                                        old(fs).disk.contents(),
                                        old(fs).sb,
                                        es[m].0.inode as nat,
                                    ) as int,
                                    spec_inode_offset(
                                        old(fs).disk.contents(),
                                        old(fs).sb,
                                        es[m].0.inode as nat,
                                    ) + old(fs).sb.inode_size,
                                ),
                            )
                        }
                })
                &&& (r matches Err(e) ==> e is InvalidData)
            }),
    {
        let ghost disk = old(fs).disk.contents();
        let ghost bs = old(fs).sb.spec_block_size();
        let ghost gblocks = self.blocks@;
        let nb = self.blocks.len();
        let ghost es_all = spec_dir_all_entries(disk, bs, gblocks, nb as int);
        let mut out: Vec<Entry> = Vec::new();
        let mut k: usize = 0;
        while k < nb
            invariant
                k <= nb == self.blocks@.len(),
                self.wf(fs),
                fs.sb == old(fs).sb,
                fs.disk.contents() == old(fs).disk.contents(),
                disk == old(fs).disk.contents(),
                bs == old(fs).sb.spec_block_size(),
                gblocks == self.blocks@,
                es_all == spec_dir_all_entries(disk, bs, gblocks, nb as int),
                out@.len() == spec_dir_all_entries(disk, bs, gblocks, k as int).len(),
                forall|m: int|
                    0 <= m < out@.len() ==> {
                        let es = spec_dir_all_entries(disk, bs, gblocks, k as int);
                        &&& (#[trigger] out@[m]).entry == es[m].0
                        &&& out@[m].name@ == es[m].1
                        &&& spec_inode_readable(disk, old(fs).sb, es[m].0.inode as nat)
                        &&& out@[m].inode.is_decode_of(
                            disk.subrange(
                                spec_inode_offset(disk, old(fs).sb, es[m].0.inode as nat) as int,
                                spec_inode_offset(disk, old(fs).sb, es[m].0.inode as nat) + old(
                                    fs,
                                ).sb.inode_size,
                            ),
                        )
                    },
            decreases nb - k,
        {
            let blk = self.blocks[k];
            let ghost es_k = spec_dir_all_entries(disk, bs, gblocks, k as int);
            let ghost bb = spec_block_bytes(disk, bs, blk);
            let ghost es_k1 = spec_dir_all_entries(disk, bs, gblocks, k as int + 1);
            proof {
                assert(es_k1 == es_k + spec_dir_entries(bb, 0));
            }
            if blk == 0 {
                proof {
                    vstd::arithmetic::power2::lemma_pow2_pos(fs.sb.log_block_size as nat);
                    assert(bs >= 1024);
                    assert(bb.len() == bs);
                    assert(bb[0] == 0u8 && bb[1] == 0u8 && bb[2] == 0u8 && bb[3] == 0u8);
                    assert(crate::decode::le_u32(bb, 0) == 0);
                    assert(!crate::dir::spec_dirent_ok(bb, 0));
                    assert(spec_dir_entries(bb, 0) =~= Seq::<(DirEntry, Seq<u8>)>::empty());
                    assert(es_k1 =~= es_k);
                }
                k += 1;
                continue;
            }
            proof {
                assert((blk + 1) * bs == blk * bs + bs) by (nonlinear_arith);
            }
            let data = match fs.read_block(blk) {
                Ok(d) => d,
                Err(_) => {
                    proof {
                        assert(false);
                    }
                    return Err(Error::io_error());
                },
            };
            proof {
                assert(data@ == bb);
            }
            let pairs = parse_dir_block(data.as_slice());
            proof {
                assert(entry_views(pairs@) =~= spec_dir_entries(bb, 0));
            }
            let np = pairs.len();
            let mut j: usize = 0;
            while j < np
                invariant
                    j <= np == pairs@.len(),
                    self.wf(fs),
                    fs.sb == old(fs).sb,
                    fs.disk.contents() == old(fs).disk.contents(),
                    disk == old(fs).disk.contents(),
                    bs == old(fs).sb.spec_block_size(),
                    gblocks == self.blocks@,
                    k < nb == self.blocks@.len(),
                    es_all == spec_dir_all_entries(disk, bs, gblocks, nb as int),
                    es_k == spec_dir_all_entries(disk, bs, gblocks, k as int),
                    es_k1 == spec_dir_all_entries(disk, bs, gblocks, k as int + 1),
                    es_k1 == es_k + entry_views(pairs@),
                    forall|i: int|
                        0 <= i < pairs@.len() ==> (#[trigger] pairs@[i].0, pairs@[i].1@)
                            == entry_views(pairs@)[i],
                    out@.len() == es_k.len() + j,
                    forall|m: int|
                        0 <= m < out@.len() ==> {
                            &&& (#[trigger] out@[m]).entry == es_k1[m].0
                            &&& out@[m].name@ == es_k1[m].1
                            &&& spec_inode_readable(disk, old(fs).sb, es_k1[m].0.inode as nat)
                            &&& out@[m].inode.is_decode_of(
                                disk.subrange(
                                    spec_inode_offset(disk, old(fs).sb, es_k1[m].0.inode as nat)
                                        as int,
                                    spec_inode_offset(disk, old(fs).sb, es_k1[m].0.inode as nat)
                                        + old(fs).sb.inode_size,
                                ),
                            )
                        },
                decreases np - j,
            {
                let e = pairs[j].0;
                let child_num = e.inode as u64;
                proof {
                    assert(es_k1[es_k.len() + j as int] == entry_views(pairs@)[j as int]);
                }
                let child = match fs.read_inode(child_num) {
                    Some(c) => c,
                    None => {
                        proof {
                            let m = es_k.len() + j as int;
                            lemma_all_entries_prefix(disk, bs, gblocks, k as int + 1, nb as int);
                            assert(es_all[m] == es_k1[m]);
                            assert(!spec_inode_readable(disk, old(fs).sb, es_all[m].0.inode as nat));
                        }
                        return Err(Error::invalid_data());
                    },
                };
                let name = copy_bytes(&pairs[j].1);
                out.push(Entry::new(e, name, child));
                j += 1;
            }
            k += 1;
        }
        proof {
            assert(es_all == spec_dir_all_entries(disk, bs, gblocks, nb as int));
            assert forall|m: int|
                0 <= m < es_all.len() implies spec_inode_readable(
                disk,
                old(fs).sb,
                (#[trigger] es_all[m].0).inode as nat,
            ) by {
                assert(out@[m].entry == es_all[m].0);
            }
        }
        Ok(out)
    }
}

/// Sequential reads concatenate: the bytes of two successive cursor
/// ranges, taken together, are the bytes of the combined range. With
/// `read`'s contract this gives the round trip: concatenating every
/// read until the cursor reaches the file's end yields exactly the
/// file's logical contents, and the byte counts sum to the file size.
pub proof fn lemma_reads_concatenate(s: Seq<u8>, a: int, b: int, c: int)
    requires
        0 <= a <= b <= c <= s.len(),
    ensures
        s.subrange(a, b) + s.subrange(b, c) == s.subrange(a, c),
{
    assert(s.subrange(a, b) + s.subrange(b, c) =~= s.subrange(a, c));
}

/// A fresh copy of a byte vector.
pub fn copy_bytes(v: &Vec<u8>) -> (r: Vec<u8>)
    ensures
        r@ == v@,
{
    let n = v.len();
    let mut r: Vec<u8> = Vec::new();
    let mut i: usize = 0;
    while i < n
        invariant
            i <= n == v@.len(),
            r@ == v@.subrange(0, i as int),
        decreases n - i,
    {
        r.push(v[i]);
        i += 1;
        proof {
            assert(r@ =~= v@.subrange(0, i as int));
        }
    }
    proof {
        assert(r@ =~= v@);
    }
    r
}

/// Every resolved block of a readable file is a hole or lies on the
/// device.
pub open spec fn spec_resolve_node_ok(disk: Seq<u8>, bs: nat, area: Seq<u8>, i: nat) -> bool {
    crate::fs::spec_resolve_node(disk, bs, area, i) matches Some(o) && (o matches Some(b) ==> (b
        + 1) * bs <= disk.len())
}

/// A cursor strictly inside the file addresses a block inside the
/// file's block list.
proof fn lemma_index_in_blocks(cur: nat, size: nat, bs: nat)
    requires
        bs > 0,
        cur < size,
    ensures
        cur / bs < spec_nblocks(size, bs),
{
    let q = size / bs;
    let r = size % bs;
    lemma_fundamental_div_mod(size as int, bs as int);
    lemma_div_is_ordered(cur as int, (size - 1) as int, bs as int);
    if r == 0 {
        assert(size == bs * q);
        assert(q >= 1) by (nonlinear_arith)
            requires
                size == bs * q,
                size >= 1,
                bs >= 1,
                q >= 0,
        ;
        assert((size - 1) as int == (q - 1) * bs + (bs - 1)) by (nonlinear_arith)
            requires
                size == bs * q,
                bs >= 1,
        ;
        lemma_fundamental_div_mod_converse((size - 1) as int, bs as int, (q - 1) as int, (bs
            - 1) as int);
    } else {
        assert((size - 1) as int == q * bs + (r - 1)) by (nonlinear_arith)
            requires
                size == bs * q + r,
                r >= 1,
        ;
        lemma_fundamental_div_mod_converse((size - 1) as int, bs as int, q as int, (r - 1) as int);
    }
}

} // verus!
