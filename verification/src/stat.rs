//! File mode and inode flag words.
//!
//! `Mode` carries the file-type nibble — an enumeration, compared by
//! equality — and the permission bits; `IFlags` is a plain bit set of
//! per-inode feature flags, notably the extents flag.

use vstd::prelude::*;

verus! {

/// The 16-bit `mode` word of an inode: file-type nibble plus permissions.
#[derive(Debug, Copy, Clone, PartialEq, Eq, Structural)]
pub struct Mode {
    bits: u16,
}

/// The file-type letter for a mode word, as used by directory listings:
/// `d` directory, `-` regular file, `l` symlink, `c` char device,
/// `b` block device, `p` fifo, `s` socket, `?` anything else.
pub open spec fn mode_type_char(bits: u16) -> char {
    let t = bits & 0xf000;
    if t == 0x1000 {
        'p'
    } else if t == 0x2000 {
        'c'
    } else if t == 0x4000 {
        'd'
    } else if t == 0x6000 {
        'b'
    } else if t == 0x8000 {
        '-'
    } else if t == 0xA000 {
        'l'
    } else if t == 0xC000 {
        's'
    } else {
        '?'
    }
}

/// The 10-character rendering of a mode word: the type letter followed by
/// the user, group and other `rwx` triples, `-` where a bit is absent.
pub open spec fn mode_render(bits: u16) -> Seq<char> {
    seq![
        mode_type_char(bits),
        if bits & 0x100 == 0x100 { 'r' } else { '-' },
        if bits & 0x080 == 0x080 { 'w' } else { '-' },
        if bits & 0x040 == 0x040 { 'x' } else { '-' },
        if bits & 0x020 == 0x020 { 'r' } else { '-' },
        if bits & 0x010 == 0x010 { 'w' } else { '-' },
        if bits & 0x008 == 0x008 { 'x' } else { '-' },
        if bits & 0x004 == 0x004 { 'r' } else { '-' },
        if bits & 0x002 == 0x002 { 'w' } else { '-' },
        if bits & 0x001 == 0x001 { 'x' } else { '-' },
    ]
}

impl Mode {
    /// FIFO file type.
    pub const FIFO: u16 = 0x1000;

    /// Character-device file type.
    pub const CHAR_DEVICE: u16 = 0x2000;

    /// Directory file type.
    pub const DIRECTORY: u16 = 0x4000;

    /// Block-device file type.
    pub const BLOCK_DEVICE: u16 = 0x6000;

    /// Regular-file file type.
    pub const FILE: u16 = 0x8000;

    /// Symbolic-link file type.
    pub const SYMLINK: u16 = 0xA000;

    /// Unix-socket file type.
    pub const SOCKET: u16 = 0xC000;

    pub closed spec fn spec_bits(&self) -> u16 {
        self.bits
    }

    #[verifier::when_used_as_spec(spec_bits)]
    pub fn bits(&self) -> (r: u16)
        ensures
            r == self.spec_bits(),
    {
        self.bits
    }

    pub fn from_bits(bits: u16) -> (r: Mode)
        ensures
            r.bits() == bits,
    {
        Mode { bits }
    }

    /// Whether the file-type nibble names a directory. The nibble is an
    /// enumeration, not a bitmask, so the comparison is equality: a
    /// block device (0x6000) is not a directory even though it carries
    /// the 0x4000 bit.
    pub fn is_dir(&self) -> (r: bool)
        ensures
            r == (self.bits() & 0xf000 == Mode::DIRECTORY),
    {
        self.bits & 0xf000 == Mode::DIRECTORY
    }

    /// Whether the file-type nibble names a regular file. Equality, not
    /// containment: a symlink (0xA000) or socket (0xC000) is not a
    /// regular file even though each carries the 0x8000 bit.
    pub fn is_file(&self) -> (r: bool)
        ensures
            r == (self.bits() & 0xf000 == Mode::FILE),
    {
        self.bits & 0xf000 == Mode::FILE
    }

    /// Whether the file-type nibble names a symbolic link.
    pub fn is_symlink(&self) -> (r: bool)
        ensures
            r == (self.bits() & 0xf000 == Mode::SYMLINK),
    {
        self.bits & 0xf000 == Mode::SYMLINK
    }

    /// Whether the file-type nibble names a fifo (named pipe).
    pub fn is_fifo(&self) -> (r: bool)
        ensures
            r == (self.bits() & 0xf000 == Mode::FIFO),
    {
        self.bits & 0xf000 == Mode::FIFO
    }

    /// Whether the file-type nibble names a character device.
    pub fn is_char_device(&self) -> (r: bool)
        ensures
            r == (self.bits() & 0xf000 == Mode::CHAR_DEVICE),
    {
        self.bits & 0xf000 == Mode::CHAR_DEVICE
    }

    /// Whether the file-type nibble names a block device.
    pub fn is_block_device(&self) -> (r: bool)
        ensures
            r == (self.bits() & 0xf000 == Mode::BLOCK_DEVICE),
    {
        self.bits & 0xf000 == Mode::BLOCK_DEVICE
    }

    /// Whether the file-type nibble names a Unix-domain socket.
    pub fn is_socket(&self) -> (r: bool)
        ensures
            r == (self.bits() & 0xf000 == Mode::SOCKET),
    {
        self.bits & 0xf000 == Mode::SOCKET
    }

    /// The file-type nibble alone.
    pub fn file_type(&self) -> (r: Mode)
        ensures
            r.bits() == self.bits() & 0xf000,
    {
        Mode { bits: self.bits & 0xf000 }
    }

    /// The nine permission bits alone.
    pub fn perm(&self) -> (r: u32)
        ensures
            r == (self.bits() & 0x1ff) as u32,
    {
        (self.bits & 0x1ff) as u32
    }

    /// Render the mode as its 10-character listing form.
    pub fn render(&self) -> (r: String)
        ensures
            r@ == mode_render(self.bits()),
    {
        proof {
            reveal_strlit("p");
            reveal_strlit("c");
            reveal_strlit("d");
            reveal_strlit("b");
            reveal_strlit("-");
            reveal_strlit("l");
            reveal_strlit("s");
            reveal_strlit("?");
            reveal_strlit("r");
            reveal_strlit("w");
            reveal_strlit("x");
        }
        let mut s = String::new();
        let t = self.bits & 0xf000;
        let type_str: &str = if t == 0x1000 {
            "p"
        } else if t == 0x2000 {
            "c"
        } else if t == 0x4000 {
            "d"
        } else if t == 0x6000 {
            "b"
        } else if t == 0x8000 {
            "-"
        } else if t == 0xA000 {
            "l"
        } else if t == 0xC000 {
            "s"
        } else {
            "?"
        };
        s.append(type_str);
        s.append(if self.bits & 0x100 == 0x100 { "r" } else { "-" });
        s.append(if self.bits & 0x080 == 0x080 { "w" } else { "-" });
        s.append(if self.bits & 0x040 == 0x040 { "x" } else { "-" });
        s.append(if self.bits & 0x020 == 0x020 { "r" } else { "-" });
        s.append(if self.bits & 0x010 == 0x010 { "w" } else { "-" });
        s.append(if self.bits & 0x008 == 0x008 { "x" } else { "-" });
        s.append(if self.bits & 0x004 == 0x004 { "r" } else { "-" });
        s.append(if self.bits & 0x002 == 0x002 { "w" } else { "-" });
        s.append(if self.bits & 0x001 == 0x001 { "x" } else { "-" });
        proof {
            assert(s@ =~= mode_render(self.bits));
        }
        s
    }
}

/// How many of the seven file types the file-type nibble of `bits`
/// names.
pub open spec fn spec_file_type_count(bits: u16) -> int {
    let t = bits & 0xf000;
    (if t == Mode::FIFO {
        1int
    } else {
        0int
    }) + (if t == Mode::CHAR_DEVICE {
        1int
    } else {
        0int
    }) + (if t == Mode::DIRECTORY {
        1int
    } else {
        0int
    }) + (if t == Mode::BLOCK_DEVICE {
        1int
    } else {
        0int
    }) + (if t == Mode::FILE {
        1int
    } else {
        0int
    }) + (if t == Mode::SYMLINK {
        1int
    } else {
        0int
    }) + (if t == Mode::SOCKET {
        1int
    } else {
        0int
    })
}

/// A mode word names at most one file type, and a mode whose nibble is
/// one of the seven valid types names exactly one: the type predicates
/// are mutually exclusive.
pub proof fn lemma_file_types_exclusive(bits: u16)
    ensures
        spec_file_type_count(bits) <= 1,
        ({
            let t = bits & 0xf000;
            (t == Mode::FIFO || t == Mode::CHAR_DEVICE || t == Mode::DIRECTORY || t
                == Mode::BLOCK_DEVICE || t == Mode::FILE || t == Mode::SYMLINK || t
                == Mode::SOCKET) ==> spec_file_type_count(bits) == 1
        }),
{
}

/// Two mode words with equal bits are equal.
pub proof fn lemma_mode_eq(a: Mode, b: Mode)
    requires
        a.spec_bits() == b.spec_bits(),
    ensures
        a == b,
{
}

/// The 32-bit per-inode flag word.
#[derive(Debug, Copy, Clone, PartialEq, Eq, Structural)]
pub struct IFlags {
    bits: u32,
}

impl IFlags {
    /// Secure deletion.
    pub const SECRM: u32 = 0x00000001;

    /// Undelete.
    pub const UNRM: u32 = 0x00000002;

    /// Compressed file.
    pub const COMPR: u32 = 0x00000004;

    /// Synchronous updates.
    pub const SYNC: u32 = 0x00000008;

    /// Immutable file.
    pub const IMMUTABLE: u32 = 0x00000010;

    /// Writes may only append.
    pub const APPEND: u32 = 0x00000020;

    /// Hash-indexed directory.
    pub const INDEX: u32 = 0x00001000;

    /// File data should be journaled.
    pub const JOURNAL_DATA: u32 = 0x00004000;

    /// Huge file.
    pub const HUGE_FILE: u32 = 0x00040000;

    /// The inode's block area holds an extent tree.
    pub const EXTENTS: u32 = 0x00080000;

    /// Verity-protected inode.
    pub const VERITY: u32 = 0x00100000;

    /// The inode holds inline data.
    pub const INLINE_DATA: u32 = 0x10000000;

    /// Casefolded directory.
    pub const CASEFOLD: u32 = 0x40000000;

    pub closed spec fn spec_bits(&self) -> u32 {
        self.bits
    }

    #[verifier::when_used_as_spec(spec_bits)]
    pub fn bits(&self) -> (r: u32)
        ensures
            r == self.spec_bits(),
    {
        self.bits
    }

    pub fn from_bits(bits: u32) -> (r: IFlags)
        ensures
            r.bits() == bits,
    {
        IFlags { bits }
    }

    /// Whether every bit of `flags` is set.
    pub fn contains(&self, flags: u32) -> (r: bool)
        ensures
            r == (self.bits() & flags == flags),
    {
        self.bits & flags == flags
    }

    /// Whether the extents flag is set, so the inode's block area holds
    /// an extent tree rather than a legacy block map.
    pub fn has_extents(&self) -> (r: bool)
        ensures
            r == (self.bits() & IFlags::EXTENTS == IFlags::EXTENTS),
    {
        self.bits & IFlags::EXTENTS == IFlags::EXTENTS
    }
}

/// Two flag words with equal bits are equal.
pub proof fn lemma_iflags_eq(a: IFlags, b: IFlags)
    requires
        a.spec_bits() == b.spec_bits(),
    ensures
        a == b,
{
}

} // verus!
