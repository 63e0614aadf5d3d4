//! The block device abstraction: positioned reads over a seekable byte
//! source, plus an in-memory implementation.
//!
//! A device is modelled as the byte sequence `contents()` together with a
//! cursor `pos()`. Reading never changes the contents; every read method
//! states exactly which bytes come back. A read that would run past the
//! end of the device fails rather than returning a short buffer.

use vstd::prelude::*;
use crate::error::Error;

verus! {

/// A read-only block device: a byte sequence addressed by byte offset.
///
/// The facade owns one device exclusively and serializes calls; no
/// concurrent access is required of implementations.
pub trait Disk: Sized {
    /// The bytes the device holds.
    spec fn contents(&self) -> Seq<u8>;

    /// The cursor used by the cursor-style `read`.
    spec fn pos(&self) -> u64;

    /// Read `n` bytes at the cursor, advancing it.
    fn read(&mut self, n: usize) -> (r: Result<Vec<u8>, Error>)
        ensures
            final(self).contents() == old(self).contents(),
            old(self).pos() + n <= old(self).contents().len() ==> (r matches Ok(v)
                && v@ == old(self).contents().subrange(
                old(self).pos() as int,
                old(self).pos() + n,
            ) && final(self).pos() == old(self).pos() + n),
            old(self).pos() + n > old(self).contents().len() ==> (r matches Err(e)
                && e is UnexpectedEof),
    ;

    /// Read `n` bytes starting at byte `offset`.
    fn read_at(&mut self, offset: u64, n: usize) -> (r: Result<Vec<u8>, Error>)
        ensures
            final(self).contents() == old(self).contents(),
            offset + n <= old(self).contents().len() ==> (r matches Ok(v) && v@ == old(
                self,
            ).contents().subrange(offset as int, offset + n)),
            offset + n > old(self).contents().len() ==> (r matches Err(e)
                && e is UnexpectedEof),
    ;

    /// Read one whole block: `block_size` bytes at `block_size * block_num`.
    fn read_block(&mut self, block_size: u64, block_num: u64) -> (r: Result<Vec<u8>, Error>)
        ensures
            final(self).contents() == old(self).contents(),
            block_size * block_num + block_size <= old(self).contents().len() ==> (r matches Ok(v)
                && v@ == old(self).contents().subrange(
                block_size * block_num,
                block_size * block_num + block_size,
            )),
            block_size * block_num + block_size > old(self).contents().len() ==> (r matches Err(e)
                && e is UnexpectedEof),
    ;

    /// Move the cursor to `offset`.
    fn seek_to(&mut self, offset: u64)
        ensures
            final(self).contents() == old(self).contents(),
            final(self).pos() == offset,
    ;
}

/// A device backed by a byte vector: a filesystem image held in memory.
pub struct MemDisk {
    data: Vec<u8>,
    pos: u64,
}

impl MemDisk {
    /// Wrap an in-memory image. The image must be addressable through a
    /// `u64` byte offset, which every real image is.
    pub fn new(data: Vec<u8>) -> (r: MemDisk)
        requires
            data@.len() <= u64::MAX,
        ensures
            r.contents() == data@,
            r.pos() == 0,
    {
        MemDisk { data, pos: 0 }
    }

    /// The number of bytes the image holds.
    pub fn len(&self) -> (r: usize)
        ensures
            r == self.contents().len(),
    {
        self.data.len()
    }
}

impl Disk for MemDisk {
    closed spec fn contents(&self) -> Seq<u8> {
        self.data@
    }

    closed spec fn pos(&self) -> u64 {
        self.pos
    }

    fn read(&mut self, n: usize) -> (r: Result<Vec<u8>, Error>) {
        let dl = self.data.len();
        let start = self.pos;
        match self.read_at(start, n) {
            Ok(v) => {
                proof {
                    assert(start + n <= dl as u64);
                }
                self.pos = start + n as u64;
                Ok(v)
            },
            Err(e) => Err(e),
        }
    }

    fn read_at(&mut self, offset: u64, n: usize) -> (r: Result<Vec<u8>, Error>) {
        let dl = self.data.len();
        if offset > dl as u64 || (dl as u64 - offset) < n as u64 {
            return Err(Error::unexpected_eof());
        }
        let off = offset as usize;
        let mut v: Vec<u8> = Vec::new();
        let mut i: usize = 0;
        while i < n
            invariant
                i <= n,
                off + n <= dl,
                dl == self.data@.len(),
                self.data@ == old(self).data@,
                self.pos == old(self).pos,
                v@ == self.data@.subrange(off as int, off as int + i as int),
            decreases n - i,
        {
            let b = self.data[off + i];
            v.push(b);
            i += 1;
            proof {
                assert(v@ =~= self.data@.subrange(off as int, off as int + i as int));
            }
        }
        Ok(v)
    }

    fn read_block(&mut self, block_size: u64, block_num: u64) -> (r: Result<Vec<u8>, Error>) {
        let dl = self.data.len();
        let offset = match block_size.checked_mul(block_num) {
            Some(o) => o,
            None => {
                return Err(Error::unexpected_eof());
            },
        };
        if block_size > u64::MAX - offset || block_size > usize::MAX as u64 {
            proof {
                assert(dl <= usize::MAX);
            }
            return Err(Error::unexpected_eof());
        }
        self.read_at(offset, block_size as usize)
    }

    fn seek_to(&mut self, offset: u64) {
        self.pos = offset;
    }
}

} // verus!
