//! File-entry metadata and its wire encoding: transfer-flag derivation,
//! name encoding, and the file-list stream with its terminating sentinel.
use vstd::prelude::*;

use crate::errors::RsyncError;
use crate::varint::{encode_varlong, write_varlong};

verus! {

/// Transfer-flag bit values.  The low eight bits travel always; bits 8
/// and up travel only when `XFER_EXTENDED_FLAGS` is among them.  Bits 8
/// and 12 are double-purposed: `XFER_SAME_RDEV_MAJOR` reads as
/// no-content-dir in directory context, `XFER_HARDLINK_FIRST` as
/// io-error-endlist at end of list.
pub const XFER_TOP_DIR: u32 = 0x1;

pub const XFER_SAME_MODE: u32 = 0x2;

pub const XFER_EXTENDED_FLAGS: u32 = 0x4;

pub const XFER_SAME_UID: u32 = 0x8;

pub const XFER_SAME_GID: u32 = 0x10;

pub const XFER_SAME_NAME: u32 = 0x20;

pub const XFER_LONG_NAME: u32 = 0x40;

pub const XFER_SAME_TIME: u32 = 0x80;

pub const XFER_SAME_RDEV_MAJOR: u32 = 0x100;

pub const XFER_NO_CONTENT_DIR: u32 = 0x100;

pub const XFER_HARDLINKED: u32 = 0x200;

pub const XFER_USER_NAME_FOLLOWS: u32 = 0x400;

pub const XFER_GROUP_NAME_FOLLOWS: u32 = 0x800;

pub const XFER_HARDLINK_FIRST: u32 = 0x1000;

pub const XFER_IO_ERROR_ENDLIST: u32 = 0x1000;

pub const XFER_MOD_NSEC: u32 = 0x2000;

pub const XFER_SAME_ATIME: u32 = 0x4000;

pub const XFER_CRTIME_EQ_MTIME: u32 = 0x20000;

/// Internal per-entry state bits; never transmitted directly.
pub const FILE_FLAG_TOP_DIR: u32 = 0x1;

pub const FILE_FLAG_FILE_SENT: u32 = 0x2;

pub const FILE_FLAG_CONTENT_DIR: u32 = 0x4;

pub const FILE_FLAG_MOUNT_DIR: u32 = 0x8;

pub const FILE_FLAG_DUPLICATE: u32 = 0x10;

pub const FILE_FLAG_HLINKED: u32 = 0x20;

pub const FILE_FLAG_HLINK_FIRST: u32 = 0x40;

pub const FILE_FLAG_HLINK_LAST: u32 = 0x80;

pub const FILE_FLAG_HLINK_DONE: u32 = 0x100;

pub const FILE_FLAG_LENGTH64: u32 = 0x200;

pub const FILE_FLAG_SKIP_GROUP: u32 = 0x400;

pub const FILE_FLAG_TIME_FAILED: u32 = 0x800;

pub const FILE_FLAG_MOD_NSEC: u32 = 0x1000;

/// Whether the power-of-two `flag` is among `bits`.
pub open spec fn spec_has_flag(bits: u32, flag: u32) -> bool
    recommends
        flag >= 1,
{
    ((bits as nat) / (flag as nat)) % 2 == 1
}

/// Executable form of `spec_has_flag`.
pub fn has_flag(bits: u32, flag: u32) -> (r: bool)
    requires
        flag >= 1,
    ensures
        r == spec_has_flag(bits, flag),
{
    (bits / flag) % 2 == 1
}

/// The four bytes of a 32-bit value, little-endian.
pub open spec fn le32_bytes(v: u32) -> Seq<u8> {
    seq![
        (v % 256) as u8,
        ((v / 256) % 256) as u8,
        ((v / 65536) % 256) as u8,
        ((v / 16777216) % 256) as u8,
    ]
}

/// Appends a 32-bit value little-endian.
pub fn write_le32(v: u32, buffer: &mut Vec<u8>)
    ensures
        final(buffer)@ == old(buffer)@ + le32_bytes(v),
{
    buffer.push((v % 256) as u8);
    buffer.push(((v / 256) % 256) as u8);
    buffer.push(((v / 65536) % 256) as u8);
    buffer.push(((v / 16777216) % 256) as u8);
    proof {
        assert(buffer@ =~= old(buffer)@ + le32_bytes(v));
    }
}

/// One-byte name classification carried by a file entry.
#[derive(Clone, Copy, Debug, PartialEq, Eq, Structural)]
pub enum NameType {
    Normal,
    SlashEnding,
    DotDir,
    Missing,
}

impl NameType {
    /// The wire byte of each name type.
    pub open spec fn spec_to_u8(self) -> u8 {
        match self {
            NameType::Normal => 0x00,
            NameType::SlashEnding => 0x01,
            NameType::DotDir => 0x02,
            NameType::Missing => 0x03,
        }
    }

    pub fn to_u8(self) -> (r: u8)
        ensures
            r == self.spec_to_u8(),
    {
        match self {
            NameType::Normal => 0x00,
            NameType::SlashEnding => 0x01,
            NameType::DotDir => 0x02,
            NameType::Missing => 0x03,
        }
    }

    /// Inverse of `to_u8`; no byte above 0x03 names a legal name type.
    pub fn try_from_u8(data: u8) -> (r: Option<NameType>)
        ensures
            match r {
                Some(nt) => nt.spec_to_u8() == data,
                None => data > 0x03,
            },
    {
        match data {
            0x00 => Some(NameType::Normal),
            0x01 => Some(NameType::SlashEnding),
            0x02 => Some(NameType::DotDir),
            0x03 => Some(NameType::Missing),
            _ => None,
        }
    }
}

/// Internal per-entry state, as a set over `FILE_FLAG_*` bits.
#[derive(Clone, Copy, Debug, PartialEq, Eq, Structural)]
pub struct FileFlags {
    pub bits: u32,
}

impl FileFlags {
    pub fn empty() -> (r: FileFlags)
        ensures
            r.bits == 0,
    {
        FileFlags { bits: 0 }
    }
}

/// One file-metadata record, as the external file source supplies it.
/// The mode carries file-type and permission bits in the POSIX
/// `st_mode` convention.
#[derive(Clone, Debug)]
pub struct File {
    pub dirname: Vec<u8>,
    pub basename: Vec<u8>,
    pub modtime: u32,
    pub filelen: u64,
    pub mode: u32,
    pub flags: FileFlags,
    pub name_type: NameType,
}

/// The length of the longest common prefix of two byte sequences.
pub open spec fn common_prefix(a: Seq<u8>, b: Seq<u8>) -> nat
    decreases a.len(),
{
    if a.len() == 0 || b.len() == 0 || a[0] != b[0] {
        0
    } else {
        1 + common_prefix(a.skip(1), b.skip(1))
    }
}

proof fn lemma_common_prefix_le(a: Seq<u8>, b: Seq<u8>)
    ensures
        common_prefix(a, b) <= a.len(),
        common_prefix(a, b) <= b.len(),
    decreases a.len(),
{
    if a.len() > 0 && b.len() > 0 && a[0] == b[0] {
        lemma_common_prefix_le(a.skip(1), b.skip(1));
    }
}

/// Bytes equal up to `i` put the common prefix at `i` at least.
proof fn lemma_common_prefix_from(a: Seq<u8>, b: Seq<u8>, i: int)
    requires
        0 <= i <= a.len(),
        i <= b.len(),
        forall|j: int| 0 <= j < i ==> a[j] == b[j],
    ensures
        common_prefix(a, b) >= i,
    decreases i,
{
    if i > 0 {
        assert(a[0] == b[0]);
        assert(forall|j: int| 0 <= j < i - 1 ==> a.skip(1)[j] == b.skip(1)[j]);
        lemma_common_prefix_from(a.skip(1), b.skip(1), i - 1);
    }
}

/// A mismatch at `i` after equality before it pins the common prefix.
proof fn lemma_common_prefix_stop(a: Seq<u8>, b: Seq<u8>, i: int)
    requires
        0 <= i < a.len(),
        i < b.len(),
        a[i] != b[i],
        forall|j: int| 0 <= j < i ==> a[j] == b[j],
    ensures
        common_prefix(a, b) == i,
    decreases i,
{
    if i == 0 {
    } else {
        assert(a[0] == b[0]);
        assert(forall|j: int| 0 <= j < i - 1 ==> a.skip(1)[j] == b.skip(1)[j]);
        assert(a.skip(1)[i - 1] != b.skip(1)[i - 1]);
        lemma_common_prefix_stop(a.skip(1), b.skip(1), i - 1);
    }
}

impl File {
    /// The full path: dirname, a slash, then basename.
    pub open spec fn spec_full_name(&self) -> Seq<u8> {
        self.dirname@ + seq![0x2Fu8] + self.basename@
    }

    /// Whether the mode's file-type nibble names a directory.
    pub open spec fn spec_is_directory(&self) -> bool {
        (self.mode / 0x1000) % 16 == 4
    }

    pub fn get_full_name(&self) -> (r: Vec<u8>)
        ensures
            r@ == self.spec_full_name(),
    {
        let mut name: Vec<u8> = Vec::new();
        name.extend_from_slice(self.dirname.as_slice());
        name.push(0x2F);
        name.extend_from_slice(self.basename.as_slice());
        proof {
            assert(name@ =~= self.spec_full_name());
        }
        name
    }

    pub fn is_directory(&self) -> (r: bool)
        ensures
            r == self.spec_is_directory(),
    {
        (self.mode / 0x1000) % 16 == 4
    }
}

/// The previous entry, as a value, for the derivation spec functions.
pub open spec fn prev_val(p: Option<&File>) -> Option<File> {
    match p {
        Some(f) => Some(*f),
        None => None,
    }
}

/// The reused-prefix length an entry claims against the previous one:
/// the common prefix of the basenames, capped at 255 bytes.  Zero when
/// there is no previous entry.
pub open spec fn spec_l1(file: File, prev: Option<File>) -> nat {
    match prev {
        Some(p) => {
            let c = common_prefix(p.basename@, file.basename@);
            if c > 255 {
                255
            } else {
                c
            }
        },
        None => 0,
    }
}

/// The transfer-flag bits derived for an entry against the previously
/// sent one: `TOP_DIR` for non-directories, each `SAME_*` bit when the
/// field equals the previous entry's, `SAME_NAME` when the basenames
/// share a prefix, and `EXTENDED_FLAGS` when any bit at or above bit 8
/// came out set.
pub open spec fn spec_xfer_bits(file: File, prev: Option<File>) -> nat {
    let b = (if !file.spec_is_directory() {
        XFER_TOP_DIR as nat
    } else {
        0
    }) + (match prev {
        Some(p) => (if p.mode == file.mode {
            XFER_SAME_MODE as nat
        } else {
            0
        }) + (XFER_SAME_UID + XFER_SAME_GID) as nat + (if p.modtime == file.modtime {
            XFER_SAME_TIME as nat
        } else {
            0
        }),
        None => 0,
    }) + (if spec_l1(file, prev) > 0 {
        XFER_SAME_NAME as nat
    } else {
        0
    });
    if b > 0xFF {
        b + XFER_EXTENDED_FLAGS as nat
    } else {
        b
    }
}

/// The flag bytes an entry leads with: the low byte always, the second
/// byte only under `EXTENDED_FLAGS`.
pub open spec fn spec_flag_bytes(bits: nat) -> Seq<u8> {
    if spec_has_flag(bits as u32, XFER_EXTENDED_FLAGS) {
        seq![(bits % 256) as u8, ((bits / 256) % 256) as u8]
    } else {
        seq![(bits % 256) as u8]
    }
}

/// The whole wire form of one entry: flag byte(s), reused-prefix length
/// under `SAME_NAME`, suffix length, suffix bytes, the length varint,
/// then modification time and mode unless reused from the previous
/// entry.
pub open spec fn encode_entry(file: File, prev: Option<File>) -> Seq<u8>
    recommends
        file.basename@.len() <= 255,
{
    let bits = spec_xfer_bits(file, prev);
    let l1 = spec_l1(file, prev);
    let l2 = file.basename@.len() - l1;
    spec_flag_bytes(bits) + (if l1 > 0 {
        seq![l1 as u8]
    } else {
        Seq::<u8>::empty()
    }) + seq![l2 as u8] + file.basename@.skip(l1 as int) + encode_varlong(file.filelen as nat, 3)
        + (if spec_has_flag(bits as u32, XFER_SAME_TIME) {
        Seq::<u8>::empty()
    } else {
        le32_bytes(file.modtime)
    }) + (if spec_has_flag(bits as u32, XFER_SAME_MODE) {
        Seq::<u8>::empty()
    } else {
        le32_bytes(file.mode)
    })
}

/// The transfer-flag set of one entry.
#[derive(Clone, Copy, Debug, PartialEq, Eq, Structural)]
pub struct XferFlags {
    pub bits: u32,
}

impl XferFlags {
    pub fn empty() -> (r: XferFlags)
        ensures
            r.bits == 0,
    {
        XferFlags { bits: 0 }
    }

    /// Derives the transfer flags for `file` against the previously sent
    /// entry.  An entry whose basename runs past 255 bytes cannot be
    /// named on the wire and is refused before anything is derived.
    pub fn for_file(file: &File, previous_file: Option<&File>) -> (r: Result<
        XferFlags,
        RsyncError,
    >)
        ensures
            match r {
                Ok(f) => file.basename@.len() <= 255 && f.bits as nat == spec_xfer_bits(
                    *file,
                    prev_val(previous_file),
                ),
                Err(e) => file.basename@.len() > 255 && e == RsyncError::NameTooLong,
            },
    {
        if file.basename.len() > 255 {
            return Err(RsyncError::NameTooLong);
        }
        let mut bits: u32 = 0;
        if !file.is_directory() {
            bits = bits + XFER_TOP_DIR;
        }
        match previous_file {
            Some(p) => {
                if p.mode == file.mode {
                    bits = bits + XFER_SAME_MODE;
                }
                bits = bits + XFER_SAME_UID + XFER_SAME_GID;
                if p.modtime == file.modtime {
                    bits = bits + XFER_SAME_TIME;
                }
            },
            None => {},
        }
        if prefix_len(file, previous_file) > 0 {
            bits = bits + XFER_SAME_NAME;
        }
        if bits > 0xFF {
            bits = bits + XFER_EXTENDED_FLAGS;
        }
        Ok(XferFlags { bits })
    }

    /// Appends the flag byte, and the extended byte when owed.
    pub fn write_data_bytes(&self, buffer: &mut Vec<u8>) -> (r: Result<(), RsyncError>)
        ensures
            r == Ok::<(), RsyncError>(()),
            final(buffer)@ == old(buffer)@ + spec_flag_bytes(self.bits as nat),
    {
        buffer.push((self.bits % 256) as u8);
        if has_flag(self.bits, XFER_EXTENDED_FLAGS) {
            buffer.push(((self.bits / 256) % 256) as u8);
            proof {
                assert(buffer@ =~= old(buffer)@ + spec_flag_bytes(self.bits as nat));
            }
        } else {
            proof {
                assert(buffer@ =~= old(buffer)@ + spec_flag_bytes(self.bits as nat));
            }
        }
        Ok(())
    }
}

/// The reused-prefix length, executably.
fn prefix_len(file: &File, prev: Option<&File>) -> (r: usize)
    ensures
        r as nat == spec_l1(*file, prev_val(prev)),
{
    match prev {
        Some(p) => {
            let a = &p.basename;
            let b = &file.basename;
            let mut i: usize = 0;
            while i < a.len() && i < b.len() && i < 255
                invariant
                    prev == Some(p),
                    a@ == p.basename@,
                    b@ == file.basename@,
                    i <= a.len(),
                    i <= b.len(),
                    i <= 255,
                    forall|j: int| 0 <= j < i ==> a@[j] == b@[j],
                decreases a.len() - i,
            {
                if *vstd::slice::slice_index_get(a.as_slice(), i) != *vstd::slice::slice_index_get(
                    b.as_slice(),
                    i,
                ) {
                    proof {
                        lemma_common_prefix_stop(a@, b@, i as int);
                        assert(common_prefix(p.basename@, file.basename@) == i as nat);
                    }
                    return i;
                }
                i = i + 1;
            }
            proof {
                lemma_common_prefix_from(a@, b@, i as int);
                lemma_common_prefix_le(a@, b@);
                if i == 255 {
                } else {
                    assert(i == a.len() || i == b.len());
                }
            }
            i
        },
        None => 0,
    }
}

impl File {
    /// Appends this entry's wire form, derived against the previously
    /// sent entry.  An entry whose basename runs past 255 bytes fails
    /// with `NameTooLong` before any byte is written.
    pub fn write_data_bytes(&self, prev: Option<&File>, buffer: &mut Vec<u8>) -> (r: Result<
        (),
        RsyncError,
    >)
        ensures
            match r {
                Ok(()) => self.basename@.len() <= 255 && final(buffer)@ == old(buffer)@
                    + encode_entry(*self, prev_val(prev)),
                Err(e) => self.basename@.len() > 255 && e == RsyncError::NameTooLong
                    && final(buffer)@ == old(buffer)@,
            },
    {
        let flags = match XferFlags::for_file(self, prev) {
            Ok(f) => f,
            Err(e) => {
                return Err(e);
            },
        };
        let _ = flags.write_data_bytes(buffer);
        let l1 = prefix_len(self, prev);
        proof {
            match prev {
                Some(p) => {
                    lemma_common_prefix_le(p.basename@, self.basename@);
                },
                None => {},
            }
            assert(l1 as nat <= self.basename@.len());
        }
        if l1 > 0 {
            buffer.push(l1 as u8);
        }
        let l2 = self.basename.len() - l1;
        buffer.push(l2 as u8);
        buffer.extend_from_slice(
            vstd::slice::slice_subrange(self.basename.as_slice(), l1, self.basename.len()),
        );
        write_varlong(self.filelen, 3, buffer);
        if !has_flag(flags.bits, XFER_SAME_TIME) {
            write_le32(self.modtime, buffer);
        }
        if !has_flag(flags.bits, XFER_SAME_MODE) {
            write_le32(self.mode, buffer);
        }
        proof {
            assert(buffer@ =~= old(buffer)@ + encode_entry(*self, prev_val(prev)));
        }
        Ok(())
    }
}

/// The wire form of a whole list body: each entry encoded against the
/// one before it.
pub open spec fn encode_entries(files: Seq<File>, prev: Option<File>) -> Seq<u8>
    decreases files.len(),
{
    if files.len() == 0 {
        Seq::<u8>::empty()
    } else {
        encode_entry(files[0], prev) + encode_entries(files.skip(1), Some(files[0]))
    }
}

/// The wire form of a whole file list: the entries, then the single
/// zero sentinel byte that ends every list.
pub open spec fn encode_list(files: Seq<File>) -> Seq<u8> {
    encode_entries(files, None) + seq![0u8]
}

/// The previous entry the list encoding derives entry `i` against.
pub open spec fn entry_prev(files: Seq<File>, prev: Option<File>, i: int) -> Option<File> {
    if i == 0 {
        prev
    } else {
        Some(files[i - 1])
    }
}

/// Encoding one more entry appends that entry's wire form, derived
/// against its predecessor.
pub proof fn lemma_encode_entries_snoc(files: Seq<File>, prev: Option<File>, i: int)
    requires
        0 <= i < files.len(),
    ensures
        encode_entries(files.take(i + 1), prev) == encode_entries(files.take(i), prev)
            + encode_entry(files[i], entry_prev(files, prev, i)),
    decreases i,
{
    let t1 = files.take(i + 1);
    let t0 = files.take(i);
    if i == 0 {
        assert(t1.len() == 1);
        assert(t1[0] == files[0]);
        assert(t1.skip(1) =~= Seq::<File>::empty());
        assert(encode_entries(t1.skip(1), Some(t1[0])) == Seq::<u8>::empty());
        assert(t0 =~= Seq::<File>::empty());
        assert(encode_entries(t0, prev) == Seq::<u8>::empty());
        assert(encode_entries(t1, prev) =~= encode_entries(t0, prev) + encode_entry(
            files[0],
            prev,
        ));
    } else {
        lemma_encode_entries_snoc(files.skip(1), Some(files[0]), i - 1);
        assert(t1.skip(1) =~= files.skip(1).take(i));
        assert(t0.skip(1) =~= files.skip(1).take(i - 1));
        assert(t1[0] == files[0]);
        assert(t0[0] == files[0]);
        assert(encode_entries(t1, prev) == encode_entry(files[0], prev) + encode_entries(
            files.skip(1).take(i),
            Some(files[0]),
        ));
        assert(encode_entries(t0, prev) == encode_entry(files[0], prev) + encode_entries(
            files.skip(1).take(i - 1),
            Some(files[0]),
        ));
        assert(entry_prev(files.skip(1), Some(files[0]), i - 1) == entry_prev(files, prev, i));
        assert(files.skip(1)[i - 1] == files[i]);
        assert(encode_entry(files[0], prev) + (encode_entries(
            files.skip(1).take(i - 1),
            Some(files[0]),
        ) + encode_entry(files[i], entry_prev(files, prev, i))) =~= (encode_entry(files[0], prev)
            + encode_entries(files.skip(1).take(i - 1), Some(files[0]))) + encode_entry(
            files[i],
            entry_prev(files, prev, i),
        ));
    }
}

/// Every basename in the list fits its one-byte length field.
pub open spec fn valid_names(files: Seq<File>) -> bool {
    forall|i: int| 0 <= i < files.len() ==> #[trigger] files[i].basename@.len() <= 255
}

/// Law: every emitted list ends with the single zero sentinel byte,
/// whatever the list holds — an empty list is exactly that one byte.
pub proof fn lemma_list_terminator(files: Seq<File>)
    ensures
        encode_list(files).len() >= 1,
        encode_list(files).last() == 0u8,
        files.len() == 0 ==> encode_list(files) == seq![0u8],
{
    if files.len() == 0 {
        assert(encode_list(files) =~= seq![0u8]);
    }
}

} // verus!
