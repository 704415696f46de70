//! MacBinary decoder
//!
//! Decodes the MacBinary container format (versions I-III): a 128-byte
//! header followed by the file's data fork and resource fork, each padded
//! to a multiple of 128 bytes. Format detection distinguishes the three
//! versions by the 'mBIN' signature, the header checksum, and a heuristic
//! over fields that version I keeps zeroed.

use vstd::prelude::*;

pub mod binary;
pub mod error;
pub mod macroman;
pub mod resource;

pub use crate::error::ParseError;
pub use crate::resource::ResourceFork;

use crate::binary::read::{be16_at, be32_at, ReadCtxt, ReadFrom, ReadScope};
use crate::binary::{NumFrom, U32Be};
use crate::macroman::{push_char, spec_from_macroman, FromMacRoman};
use vstd::slice::slice_index_get;
use vstd::slice::slice_subrange;

verus! {

/// The MacBinary III signature: the four ASCII bytes 'mBIN'.
pub const MBIN_SIG: u32 = 0x6D42494E;

/// Seconds between the Mac OS epoch (1 January 1904) and the UNIX epoch
/// (1 January 1970): 66 years of which 18 are leap years.
pub const MAC_EPOCH_OFFSET: u32 = 66 * 365 * 86400 + 18 * 86400;

/// A four-character code
///
/// A 32-bit number that typically holds 4 8-bit ASCII characters, used for
/// type and creator codes, and resource types. Eg. 'mBIN' 'SIZE' 'ICON' 'APPL'.
#[derive(Debug, Copy, Clone, Eq, PartialEq, Structural)]
pub struct FourCC(pub u32);

/// MacBinary version.
#[derive(Debug, Eq, PartialEq, Ord, PartialOrd, Copy, Clone, Structural)]
pub enum Version {
    I,
    II,
    III,
}

/// Whether this version carries a meaningful header checksum.
pub open spec fn version_has_crc(v: Version) -> bool {
    v == Version::II || v == Version::III
}

/// MacBinary header
struct Header<'a> {
    filename: &'a [u8],
    secondary_header_len: u16,
    data_fork_len: u32,
    rsrc_fork_len: u32,
    file_type: FourCC,
    file_creator: FourCC,
    finder_flags: u8,
    vpos: u16,
    hpos: u16,
    window_or_folder_id: u16,
    protected: bool,
    created: u32,
    modified: u32,
    comment_len: u16,
    finder_flags2: u8,
    signature: FourCC,
    /// Script of file name (from the `fdScript` field of an `fxInfo`
    /// record). The high bit clear means the system script; with the high
    /// bit set, the remaining 7 bits name the script.
    script: u8,
    extended_finder_flags: u8,
    version: u8,
    min_version: u8,
    crc: u16,
}

/// A parsed MacBinary file containing metadata, data fork (if present), and
/// resource fork (if present)
pub struct MacBinary<'a> {
    version: Version,
    header: Header<'a>,
    data_fork: &'a [u8],
    rsrc_fork: &'a [u8],
}

impl ReadFrom for FourCC {
    type ReadType = U32Be;

    open spec fn spec_from(value: u32) -> FourCC {
        FourCC(value)
    }

    fn from(value: u32) -> FourCC {
        FourCC(value)
    }
}

/// The CRC-16/XMODEM checksum of a byte string; a function of the bytes
/// alone, computed by an outside implementation.
pub uninterp spec fn crc16_of(data: Seq<u8>) -> u16;

/// Relies on crc::Crc::<u16>::checksum with the CRC_16_XMODEM algorithm:
/// the checksum depends on the input bytes alone.
#[verifier::external_body]
fn calc_crc(data: &[u8]) -> (r: u16)
    ensures
        r == crc16_of(data@),
{
    let crc: crc::Crc<u16> = crc::Crc::<u16>::new(&crc::CRC_16_XMODEM);
    crc.checksum(data)
}

/// The next multiple of 128 at or above `n`.
pub open spec fn pad128(n: int) -> int {
    if n % 128 == 0 {
        n
    } else {
        n + (128 - n % 128)
    }
}

/// Rounds `value` up to the next multiple of 128, failing on overflow.
pub fn next_u16_multiple_of_128(value: u16) -> (r: Result<u16, ParseError>)
    ensures
        pad128(value as int) <= u16::MAX ==> r == Ok::<u16, ParseError>(
            (pad128(value as int)) as u16,
        ),
        pad128(value as int) > u16::MAX ==> r == Err::<u16, ParseError>(ParseError::Overflow),
{
    let rem: u16 = value % 128;
    if rem == 0 {
        Ok(value)
    } else {
        match value.checked_add(128 - rem) {
            Some(v) => Ok(v),
            None => Err(ParseError::Overflow),
        }
    }
}

/// Rounds `value` up to the next multiple of 128, failing on overflow.
pub fn next_u32_multiple_of_128(value: u32) -> (r: Result<u32, ParseError>)
    ensures
        pad128(value as int) <= u32::MAX ==> r == Ok::<u32, ParseError>(
            (pad128(value as int)) as u32,
        ),
        pad128(value as int) > u32::MAX ==> r == Err::<u32, ParseError>(ParseError::Overflow),
{
    let rem: u32 = value % 128;
    if rem == 0 {
        Ok(value)
    } else {
        match value.checked_add(128 - rem) {
            Some(v) => Ok(v),
            None => Err(ParseError::Overflow),
        }
    }
}

/// Convert Mac OS timestamp to UNIX timestamp, wrapping on overflow.
///
/// The Mac OS epoch is 1 January 1904, UNIX epoch is 1 Jan 1970.
pub open spec fn spec_mactime(timestamp: u32) -> u32 {
    ((timestamp as int + MAC_EPOCH_OFFSET as int) % 0x100000000) as u32
}

/// Convert Mac OS timestamp to UNIX timestamp
///
/// The Mac OS epoch is 1 January 1904, UNIX epoch is 1 Jan 1970.
fn mactime(timestamp: u32) -> (r: u32)
    ensures
        r == spec_mactime(timestamp),
{
    timestamp.wrapping_add(MAC_EPOCH_OFFSET)
}

/// The version that `detect` reports for a buffer.
pub open spec fn spec_detect(d: Seq<u8>) -> Option<Version> {
    if d.len() < 128 || d[0] != 0 {
        None
    } else if be32_at(d, 102) == MBIN_SIG {
        Some(Version::III)
    } else if d[74] != 0 || d[82] != 0 {
        None
    } else if be16_at(d, 124) == crc16_of(d.take(124)) {
        Some(Version::II)
    } else if (forall|i: int| 101 <= i <= 125 ==> #[trigger] d[i] == 0) && 1 <= d[2] <= 63
        && be32_at(d, 83) <= 0x007FFFFF && be32_at(d, 87) <= 0x007FFFFF {
        Some(Version::I)
    } else {
        None
    }
}

/// For all buffers shorter than the 128-byte header, detection reports no
/// version.
pub proof fn lemma_detect_short(d: Seq<u8>)
    requires
        d.len() < 128,
    ensures
        spec_detect(d) is None,
{
}

/// For all buffers whose first byte is nonzero, detection reports no
/// version regardless of other content.
pub proof fn lemma_detect_nonzero_first_byte(d: Seq<u8>)
    requires
        d.len() >= 1,
        d[0] != 0,
    ensures
        spec_detect(d) is None,
{
}

/// Detection depends only on the 128-byte header: two buffers with the
/// same header bytes detect as the same version, whatever follows.
pub proof fn lemma_detect_depends_on_header(d1: Seq<u8>, d2: Seq<u8>)
    requires
        d1.len() >= 128,
        d2.len() >= 128,
        d1.take(128) == d2.take(128),
    ensures
        spec_detect(d1) == spec_detect(d2),
{
    assert forall|i: int| 0 <= i < 128 implies d1[i] == d2[i] by {
        assert(d1.take(128)[i] == d1[i]);
        assert(d2.take(128)[i] == d2[i]);
        assert(d1.take(128)[i] == d2.take(128)[i]);
    }
    assert(d1.take(124) =~= d2.take(124));
    assert((forall|i: int| 101 <= i <= 125 ==> #[trigger] d1[i] == 0) <==> (forall|i: int|
        101 <= i <= 125 ==> #[trigger] d2[i] == 0)) by {
        if forall|i: int| 101 <= i <= 125 ==> #[trigger] d1[i] == 0 {
            assert forall|i: int| 101 <= i <= 125 implies #[trigger] d2[i] == 0 by {
                assert(d1[i] == 0);
            }
        }
        if forall|i: int| 101 <= i <= 125 ==> #[trigger] d2[i] == 0 {
            assert forall|i: int| 101 <= i <= 125 implies #[trigger] d1[i] == 0 by {
                assert(d2[i] == 0);
            }
        }
    }
}

/// Determine if the supplied data looks like MacBinary data.
pub fn detect(data: &[u8]) -> (r: Option<Version>)
    ensures
        r == spec_detect(data@),
{
    // All MacBinary files start with a 128-byte header and the first byte is zero
    if !(data.len() >= 128 && *slice_index_get(data, 0) == 0) {
        return None;
    }
    // To determine if a header is a valid MacBinary header, first take
    // advantage of the new MacBinary III signature located at offset 102
    let scope = ReadScope::new(data);
    let sig = scope.offset(102).read::<FourCC>();
    proof {
        assert(be32_at(data@.skip(102), 0) == be32_at(data@, 102));
    }
    match sig {
        Ok(four) => if four == FourCC(MBIN_SIG) {
            return Some(Version::III);
        },
        Err(_) => {
            proof {
                assert(false);
            }
        },
    }
    // If it is not a MacBinary III header, bytes 74 and 82 should both be
    // zero. If they are, either (a) the CRC should match, which means it is
    // a MacBinary II file, or (b) it may be a MacBinary I file.
    if *slice_index_get(data, 74) != 0 || *slice_index_get(data, 82) != 0 {
        return None;
    }
    let crc_hi: u16 = *slice_index_get(data, 124) as u16;
    let crc_lo: u16 = *slice_index_get(data, 125) as u16;
    let crc_stored: u16 = crc_hi * 0x100 + crc_lo;
    let crc_data: &[u8] = slice_subrange(data, 0, 124);
    proof {
        assert(crc_data@ =~= data@.take(124));
    }
    if crc_stored == calc_crc(crc_data) {
        return Some(Version::II);
    }
    // Check for MacBinary I
    // Offsets 101-125, Byte, should all be 0.
    // Offset 2, Byte, (the length of the file name) should be in the range of 1-63.
    // Offsets 83 and 87, Long Word, (the length of the forks) should be in
    // the range of 0-$007F FFFF.
    let mut all_zero: bool = true;
    let mut i: usize = 101;
    while i <= 125
        invariant
            101 <= i <= 126,
            data@.len() >= 128,
            all_zero <==> (forall|j: int| 101 <= j < i ==> #[trigger] data@[j] == 0),
        decreases 126 - i,
    {
        if *slice_index_get(data, i) != 0 {
            all_zero = false;
        }
        proof {
            if all_zero {
                assert forall|j: int| 101 <= j < i + 1 implies #[trigger] data@[j] == 0 by {}
            }
        }
        i = i + 1;
    }
    let b83: u32 = *slice_index_get(data, 83) as u32;
    let b84: u32 = *slice_index_get(data, 84) as u32;
    let b85: u32 = *slice_index_get(data, 85) as u32;
    let b86: u32 = *slice_index_get(data, 86) as u32;
    let data_fork_len: u32 = b83 * 0x1000000 + b84 * 0x10000 + b85 * 0x100 + b86;
    let b87: u32 = *slice_index_get(data, 87) as u32;
    let b88: u32 = *slice_index_get(data, 88) as u32;
    let b89: u32 = *slice_index_get(data, 89) as u32;
    let b90: u32 = *slice_index_get(data, 90) as u32;
    let rsrc_fork_len: u32 = b87 * 0x1000000 + b88 * 0x10000 + b89 * 0x100 + b90;
    let flen: u8 = *slice_index_get(data, 2);
    let macbinary1: bool = all_zero && 1 <= flen && flen <= 63 && data_fork_len <= 0x007FFFFF
        && rsrc_fork_len <= 0x007FFFFF;

    if macbinary1 {
        Some(Version::I)
    } else {
        None
    }
}

/// Where `h` records exactly the header fields encoded at `d[at ..]`.
spec fn header_matches(h: Header<'_>, d: Seq<u8>, at: int) -> bool {
    &&& 1 <= d[at + 1] <= 31
    &&& h.filename@ == d.subrange(at + 2, at + 2 + d[at + 1] as int)
    &&& h.file_type == FourCC(be32_at(d, at + 65))
    &&& h.file_creator == FourCC(be32_at(d, at + 69))
    &&& h.finder_flags == d[at + 73]
    &&& h.vpos == be16_at(d, at + 75)
    &&& h.hpos == be16_at(d, at + 77)
    &&& h.window_or_folder_id == be16_at(d, at + 79)
    &&& h.protected == (d[at + 81] != 0)
    &&& h.data_fork_len == be32_at(d, at + 83)
    &&& h.rsrc_fork_len == be32_at(d, at + 87)
    &&& h.created == be32_at(d, at + 91)
    &&& h.modified == be32_at(d, at + 95)
    &&& h.comment_len == be16_at(d, at + 99)
    &&& h.finder_flags2 == d[at + 101]
    &&& h.signature == FourCC(be32_at(d, at + 102))
    &&& h.script == d[at + 106]
    &&& h.extended_finder_flags == d[at + 107]
    &&& h.secondary_header_len == be16_at(d, at + 120)
    &&& h.version == d[at + 122]
    &&& h.min_version == d[at + 123]
    &&& h.crc == be16_at(d, at + 124)
}

/// The error that decoding a header at `d[at ..]` produces, if any.
spec fn spec_header_err(d: Seq<u8>, at: int) -> Option<ParseError> {
    if d.len() - at < 2 {
        Some(ParseError::BadEof)
    } else if !(1 <= d[at + 1] <= 31) {
        Some(ParseError::BadValue)
    } else if d.len() - at < 128 {
        Some(ParseError::BadEof)
    } else {
        None
    }
}

impl<'a> Header<'a> {
    /// Decodes the 128-byte MacBinary header field by field in fixed order.
    /// The filename-length field must lie in 1-31.
    fn read(ctxt: &mut ReadCtxt<'a>) -> (r: Result<Header<'a>, ParseError>)
        requires
            old(ctxt).wf(),
        ensures
            final(ctxt).wf(),
            final(ctxt).spec_data() == old(ctxt).spec_data(),
            final(ctxt).spec_base() == old(ctxt).spec_base(),
            match r {
                Ok(h) => {
                    &&& spec_header_err(old(ctxt).spec_data(), old(ctxt).spec_offset()) is None
                    &&& header_matches(h, old(ctxt).spec_data(), old(ctxt).spec_offset())
                    &&& final(ctxt).spec_offset() == old(ctxt).spec_offset() + 128
                },
                Err(e) => Some(e) == spec_header_err(
                    old(ctxt).spec_data(),
                    old(ctxt).spec_offset(),
                ),
            },
    {
        let ghost d = old(ctxt).spec_data();
        let ghost at = old(ctxt).spec_offset();
        // old version number, must be kept at zero for compatibility
        let _ = match ctxt.read_u8() {
            Ok(v) => v,
            Err(_) => { return Err(ParseError::BadEof) },
        };
        // Length of filename (must be in the range 1-31)
        let filename_len: u8 = match ctxt.read_u8() {
            Ok(v) => v,
            Err(_) => { return Err(ParseError::BadEof) },
        };
        match ctxt.check(1 <= filename_len && filename_len <= 31) {
            Ok(()) => {},
            Err(e) => { return Err(e) },
        };
        // filename (only "length" bytes are significant).
        let filename_data: &'a [u8] = match ctxt.read_slice(63) {
            Ok(v) => v,
            Err(_) => { return Err(ParseError::BadEof) },
        };
        // file type (normally expressed as four characters)
        let file_type: FourCC = match ctxt.read::<FourCC>() {
            Ok(v) => v,
            Err(_) => { return Err(ParseError::BadEof) },
        };
        // file creator (normally expressed as four characters)
        let file_creator: FourCC = match ctxt.read::<FourCC>() {
            Ok(v) => v,
            Err(_) => { return Err(ParseError::BadEof) },
        };
        // original Finder flags
        let finder_flags: u8 = match ctxt.read_u8() {
            Ok(v) => v,
            Err(_) => { return Err(ParseError::BadEof) },
        };
        // zero fill, must be zero for compatibility
        let _ = match ctxt.read_u8() {
            Ok(v) => v,
            Err(_) => { return Err(ParseError::BadEof) },
        };
        // file's vertical position within its window.
        let vpos: u16 = match ctxt.read_u16be() {
            Ok(v) => v,
            Err(_) => { return Err(ParseError::BadEof) },
        };
        // file's horizontal position within its window.
        let hpos: u16 = match ctxt.read_u16be() {
            Ok(v) => v,
            Err(_) => { return Err(ParseError::BadEof) },
        };
        // file's window or folder ID.
        let window_or_folder_id: u16 = match ctxt.read_u16be() {
            Ok(v) => v,
            Err(_) => { return Err(ParseError::BadEof) },
        };
        // "Protected" flag (in low order bit).
        let protected: u8 = match ctxt.read_u8() {
            Ok(v) => v,
            Err(_) => { return Err(ParseError::BadEof) },
        };
        // zero fill, must be zero for compatibility
        let _ = match ctxt.read_u8() {
            Ok(v) => v,
            Err(_) => { return Err(ParseError::BadEof) },
        };
        // Data Fork length (bytes, zero if no Data Fork).
        let data_fork_len: u32 = match ctxt.read_u32be() {
            Ok(v) => v,
            Err(_) => { return Err(ParseError::BadEof) },
        };
        // Resource Fork length (bytes, zero if no R.F.).
        let rsrc_fork_len: u32 = match ctxt.read_u32be() {
            Ok(v) => v,
            Err(_) => { return Err(ParseError::BadEof) },
        };
        // File's creation date
        let created: u32 = match ctxt.read_u32be() {
            Ok(v) => v,
            Err(_) => { return Err(ParseError::BadEof) },
        };
        // File's "last modified" date.
        let modified: u32 = match ctxt.read_u32be() {
            Ok(v) => v,
            Err(_) => { return Err(ParseError::BadEof) },
        };
        // length of Get Info comment to be sent after the resource fork
        let comment_len: u16 = match ctxt.read_u16be() {
            Ok(v) => v,
            Err(_) => { return Err(ParseError::BadEof) },
        };
        // Finder Flags, bits 0-7. (Bits 8-15 are already in byte 73)
        let finder_flags2: u8 = match ctxt.read_u8() {
            Ok(v) => v,
            Err(_) => { return Err(ParseError::BadEof) },
        };
        // signature for identification purposes ('mBIN')
        let signature: FourCC = match ctxt.read::<FourCC>() {
            Ok(v) => v,
            Err(_) => { return Err(ParseError::BadEof) },
        };
        // script of file name (from the fdScript field of an fxInfo record)
        let script: u8 = match ctxt.read_u8() {
            Ok(v) => v,
            Err(_) => { return Err(ParseError::BadEof) },
        };
        // extended Finder flags (from the fdXFlags field of an fxInfo record)
        let extended_finder_flags: u8 = match ctxt.read_u8() {
            Ok(v) => v,
            Err(_) => { return Err(ParseError::BadEof) },
        };
        // Bytes 108-115 unused (must be zeroed by creators, must be ignored by readers)
        let _ = match ctxt.read_slice(8) {
            Ok(v) => v,
            Err(_) => { return Err(ParseError::BadEof) },
        };
        // Length of total files when packed files are unpacked. Never used.
        let _ = match ctxt.read_u32be() {
            Ok(v) => v,
            Err(_) => { return Err(ParseError::BadEof) },
        };
        // Length of a secondary header. If this is non-zero, skip this many
        // bytes (rounded up to the next multiple of 128).
        let secondary_header_len: u16 = match ctxt.read_u16be() {
            Ok(v) => v,
            Err(_) => { return Err(ParseError::BadEof) },
        };
        // Version number of MacBinary III that the uploading program is
        // written for (the version is 130 for MacBinary III)
        let version: u8 = match ctxt.read_u8() {
            Ok(v) => v,
            Err(_) => { return Err(ParseError::BadEof) },
        };
        // Minimum MacBinary version needed to read this file
        let min_version: u8 = match ctxt.read_u8() {
            Ok(v) => v,
            Err(_) => { return Err(ParseError::BadEof) },
        };
        // CRC of previous 124 bytes
        let crc: u16 = match ctxt.read_u16be() {
            Ok(v) => v,
            Err(_) => { return Err(ParseError::BadEof) },
        };
        // Reserved for computer type and OS ID
        let _ = match ctxt.read_u16be() {
            Ok(v) => v,
            Err(_) => { return Err(ParseError::BadEof) },
        };

        let filename: &'a [u8] = slice_subrange(filename_data, 0, filename_len as usize);
        proof {
            assert(filename@ =~= d.subrange(at + 2, at + 2 + d[at + 1] as int));
            assert(be32_at(d.skip(at + 65), 0) == be32_at(d, at + 65));
            assert(be32_at(d.skip(at + 69), 0) == be32_at(d, at + 69));
            assert(be32_at(d.skip(at + 102), 0) == be32_at(d, at + 102));
        }
        Ok(
            Header {
                filename,
                file_type,
                file_creator,
                finder_flags,
                vpos,
                hpos,
                window_or_folder_id,
                protected: protected != 0,
                data_fork_len,
                rsrc_fork_len,
                created,
                modified,
                comment_len,
                finder_flags2,
                signature,
                script,
                extended_finder_flags,
                secondary_header_len,
                version,
                min_version,
                crc,
            },
        )
    }
}

/// The position where the data fork starts: past the header and the
/// padded secondary header.
pub open spec fn mb_data_fork_start(d: Seq<u8>) -> int {
    128 + pad128(be16_at(d, 120) as int)
}

/// The position where the resource fork starts: past the padded data fork.
pub open spec fn mb_rsrc_fork_start(d: Seq<u8>) -> int {
    mb_data_fork_start(d) + pad128(be32_at(d, 83) as int)
}

/// The error that decoding a MacBinary container produces, if any, given a
/// detected version.
pub open spec fn spec_parse_err(d: Seq<u8>, v: Version) -> Option<ParseError> {
    if d.len() < 124 {
        Some(ParseError::BadEof)
    } else if !(1 <= d[1] <= 31) {
        Some(ParseError::BadValue)
    } else if d.len() < 128 {
        Some(ParseError::BadEof)
    } else if version_has_crc(v) && crc16_of(d.take(124)) != be16_at(d, 124) {
        Some(ParseError::CrcMismatch)
    } else if pad128(be16_at(d, 120) as int) > u16::MAX {
        Some(ParseError::Overflow)
    } else if mb_data_fork_start(d) > d.len() {
        Some(ParseError::BadEof)
    } else if mb_data_fork_start(d) + be32_at(d, 83) > d.len() {
        Some(ParseError::BadEof)
    } else if pad128(be32_at(d, 83) as int) > u32::MAX {
        Some(ParseError::Overflow)
    } else if mb_rsrc_fork_start(d) > d.len() {
        Some(ParseError::BadEof)
    } else if mb_rsrc_fork_start(d) + be32_at(d, 87) > d.len() {
        Some(ParseError::BadEof)
    } else {
        None
    }
}

/// Where `m` is exactly the decode of `d` under version `v`: the header
/// fields, the data fork, and the resource fork carved from their padded
/// positions.
pub open spec fn spec_parse_ok(m: MacBinary<'_>, d: Seq<u8>, v: Version) -> bool {
    &&& m.spec_version() == v
    &&& m.spec_filename() == d.subrange(2, 2 + d[1] as int)
    &&& m.spec_file_type() == FourCC(be32_at(d, 65))
    &&& m.spec_file_creator() == FourCC(be32_at(d, 69))
    &&& m.spec_script() == d[106]
    &&& m.spec_created() == be32_at(d, 91)
    &&& m.spec_modified() == be32_at(d, 95)
    &&& m.spec_data_fork() == d.subrange(
        mb_data_fork_start(d),
        mb_data_fork_start(d) + be32_at(d, 83),
    )
    &&& m.spec_rsrc_fork() == d.subrange(
        mb_rsrc_fork_start(d),
        mb_rsrc_fork_start(d) + be32_at(d, 87),
    )
}

impl<'a> MacBinary<'a> {
    /// The detected version this file was decoded under.
    pub closed spec fn spec_version(&self) -> Version {
        self.version
    }

    /// The significant filename bytes.
    pub closed spec fn spec_filename(&self) -> Seq<u8> {
        self.header.filename@
    }

    /// The file's type code.
    pub closed spec fn spec_file_type(&self) -> FourCC {
        self.header.file_type
    }

    /// The file's creator code.
    pub closed spec fn spec_file_creator(&self) -> FourCC {
        self.header.file_creator
    }

    /// The filename's script byte.
    pub closed spec fn spec_script(&self) -> u8 {
        self.header.script
    }

    /// The creation date in the Mac epoch.
    pub closed spec fn spec_created(&self) -> u32 {
        self.header.created
    }

    /// The modification date in the Mac epoch.
    pub closed spec fn spec_modified(&self) -> u32 {
        self.header.modified
    }

    /// The data fork's bytes.
    pub closed spec fn spec_data_fork(&self) -> Seq<u8> {
        self.data_fork@
    }

    /// The resource fork's bytes.
    pub closed spec fn spec_rsrc_fork(&self) -> Seq<u8> {
        self.rsrc_fork@
    }

    /// Decodes the container for an already detected version: header, CRC
    /// check for versions II and III, then the two forks at their padded
    /// offsets. Any shortfall of bytes is fatal; partial forks are never
    /// returned.
    fn read_dep(ctxt: &mut ReadCtxt<'a>, version: Version) -> (r: Result<
        MacBinary<'a>,
        ParseError,
    >)
        requires
            old(ctxt).wf(),
            old(ctxt).spec_offset() == 0,
        ensures
            final(ctxt).wf(),
            match r {
                Ok(m) => spec_parse_err(old(ctxt).spec_data(), version) is None && spec_parse_ok(
                    m,
                    old(ctxt).spec_data(),
                    version,
                ),
                Err(e) => Some(e) == spec_parse_err(old(ctxt).spec_data(), version),
            },
    {
        let ghost d = old(ctxt).spec_data();
        let full: ReadScope<'a> = ctxt.scope();
        let full_data: &'a [u8] = full.data();
        if full_data.len() < 124 {
            return Err(ParseError::BadEof);
        }
        let crc_data: &[u8] = slice_subrange(full_data, 0, 124);
        proof {
            assert(full_data@ =~= d);
            assert(crc_data@ =~= d.take(124));
        }

        // The 128-byte header, followed by the data fork padded to a
        // multiple of 128 bytes, followed by the resource fork.
        let header: Header<'a> = match Header::read(ctxt) {
            Ok(h) => h,
            Err(e) => { return Err(e) },
        };

        // Check the CRC
        let crc: u16 = calc_crc(crc_data);
        let has_crc: bool = match version {
            Version::II | Version::III => true,
            Version::I => false,
        };
        if has_crc && crc != header.crc {
            return Err(ParseError::CrcMismatch);
        }

        // Skip secondary header if present, rounding up to next multiple of 128
        let skip_len: u16 = match next_u16_multiple_of_128(header.secondary_header_len) {
            Ok(v) => v,
            Err(e) => { return Err(e) },
        };
        let _ = match ctxt.read_slice(skip_len as usize) {
            Ok(v) => v,
            Err(_) => { return Err(ParseError::BadEof) },
        };

        // Read the data fork
        let data_fork: &'a [u8] = match ctxt.read_slice(usize::num_from(header.data_fork_len)) {
            Ok(v) => v,
            Err(_) => { return Err(ParseError::BadEof) },
        };
        proof {
            assert(data_fork@ =~= d.subrange(
                mb_data_fork_start(d),
                mb_data_fork_start(d) + be32_at(d, 83),
            ));
        }

        // Skip padding
        let padded: u32 = match next_u32_multiple_of_128(header.data_fork_len) {
            Ok(v) => v,
            Err(e) => { return Err(e) },
        };
        let padding: u32 = padded - header.data_fork_len;
        let _ = match ctxt.read_slice(usize::num_from(padding)) {
            Ok(v) => v,
            Err(_) => { return Err(ParseError::BadEof) },
        };

        // Read the resource fork
        let rsrc_fork: &'a [u8] = match ctxt.read_slice(usize::num_from(header.rsrc_fork_len)) {
            Ok(v) => v,
            Err(_) => { return Err(ParseError::BadEof) },
        };
        proof {
            assert(rsrc_fork@ =~= d.subrange(
                mb_rsrc_fork_start(d),
                mb_rsrc_fork_start(d) + be32_at(d, 87),
            ));
        }

        Ok(MacBinary { version, header, data_fork, rsrc_fork })
    }
}

/// Whether decoding succeeds, and with which error it fails, depends only
/// on the 128-byte header and the buffer's length: corrupting a byte of a
/// fork's payload, or of anything past the header, never changes the
/// outcome kind — in particular it cannot cause a CRC mismatch.
pub proof fn lemma_parse_err_depends_on_header(d1: Seq<u8>, d2: Seq<u8>, v: Version)
    requires
        d1.len() == d2.len(),
        d1.len() >= 128,
        d1.take(128) == d2.take(128),
    ensures
        spec_parse_err(d1, v) == spec_parse_err(d2, v),
{
    assert forall|i: int| 0 <= i < 128 implies d1[i] == d2[i] by {
        assert(d1.take(128)[i] == d1[i]);
        assert(d2.take(128)[i] == d2[i]);
        assert(d1.take(128)[i] == d2.take(128)[i]);
    }
    assert(d1.take(124) =~= d2.take(124));
}

/// Parse a MacBinary encoded file.
pub fn parse<'a>(data: &'a [u8]) -> (r: Result<MacBinary<'a>, ParseError>)
    ensures
        match spec_detect(data@) {
            None => r == Err::<MacBinary<'a>, ParseError>(ParseError::BadVersion),
            Some(v) => match r {
                Ok(m) => spec_parse_err(data@, v) is None && spec_parse_ok(m, data@, v),
                Err(e) => Some(e) == spec_parse_err(data@, v),
            },
        },
{
    let version: Version = match detect(data) {
        Some(v) => v,
        None => { return Err(ParseError::BadVersion) },
    };
    let scope = ReadScope::new(data);
    let mut ctxt = scope.ctxt();
    MacBinary::read_dep(&mut ctxt, version)
}

impl MacBinary<'_> {
    /// The detected MacBinary version.
    pub fn version(&self) -> (r: Version)
        ensures
            r == self.spec_version(),
    {
        self.version
    }

    /// The filename, decoded from Mac OS Roman.
    ///
    /// For the purposes of this library the system script is Mac Roman. The
    /// script field can indicate a different script if the high bit is set;
    /// if the high bit is set but the remaining 7 bits are zero that still
    /// means Mac Roman, and anything else is not implemented.
    pub fn filename(&self) -> (r: Result<String, ParseError>)
        ensures
            match r {
                Ok(s) => !(self.spec_script() & 0x80u8 == 0x80u8 && self.spec_script() & 0x7Fu8
                    != 0u8) && s@ == spec_from_macroman(self.spec_filename()),
                Err(e) => (self.spec_script() & 0x80u8 == 0x80u8 && self.spec_script() & 0x7Fu8
                    != 0u8) && e == ParseError::NotImplemented,
            },
    {
        if self.header.script & 0x80u8 == 0x80u8 && self.header.script & 0x7Fu8 != 0u8 {
            Err(ParseError::NotImplemented)
        } else {
            Ok(String::from_macroman(self.header.filename))
        }
    }

    /// The file's creator code
    pub fn file_creator(&self) -> (r: FourCC)
        ensures
            r == self.spec_file_creator(),
    {
        self.header.file_creator
    }

    /// The file's type code
    pub fn file_type(&self) -> (r: FourCC)
        ensures
            r == self.spec_file_type(),
    {
        self.header.file_type
    }

    /// File creation date (UNIX timestamp)
    pub fn created(&self) -> (r: u32)
        ensures
            r == spec_mactime(self.spec_created()),
    {
        mactime(self.header.created)
    }

    /// File last modified date (UNIX timestamp)
    pub fn modified(&self) -> (r: u32)
        ensures
            r == spec_mactime(self.spec_modified()),
    {
        mactime(self.header.modified)
    }

    /// Data fork data
    pub fn data_fork(&self) -> (r: &[u8])
        ensures
            r@ == self.spec_data_fork(),
    {
        self.data_fork
    }

    /// Resource fork data
    pub fn resource_fork_raw(&self) -> (r: &[u8])
        ensures
            r@ == self.spec_rsrc_fork(),
    {
        self.rsrc_fork
    }

    /// Parsed resource fork
    pub fn resource_fork(&self) -> (r: Result<ResourceFork<'_>, ParseError>)
        ensures
            match r {
                Ok(fork) => {
                    &&& crate::resource::spec_fork_err(self.spec_rsrc_fork()) is None
                    &&& fork.wf()
                    &&& fork.spec_rsrc_data() == crate::resource::spec_data_region(
                        self.spec_rsrc_fork(),
                    )
                    &&& fork.spec_type_scope() == crate::resource::spec_type_scope_of(
                        self.spec_rsrc_fork(),
                    )
                    &&& fork.spec_name_scope() == crate::resource::spec_name_scope_of(
                        self.spec_rsrc_fork(),
                    )
                    &&& fork.spec_type_items() == crate::resource::spec_type_list_items(
                        crate::resource::spec_type_scope_of(self.spec_rsrc_fork()),
                    )
                },
                Err(e) => Some(e) == crate::resource::spec_fork_err(self.spec_rsrc_fork()),
            },
    {
        ResourceFork::new(self.rsrc_fork)
    }
}

/// Whether a byte is a printable ASCII character: ASCII and not a control
/// character.
pub open spec fn spec_printable_ascii(b: u8) -> bool {
    32 <= b <= 126
}

/// The lowercase hexadecimal digit for a nibble.
pub open spec fn spec_hex_digit(n: u8) -> char {
    if n < 10 {
        (48 + n) as char
    } else {
        (87 + n) as char
    }
}

/// The lowercase hexadecimal digit for a nibble.
fn hex_digit(n: u8) -> (r: char)
    requires
        n < 16,
    ensures
        r == spec_hex_digit(n),
{
    if n < 10 {
        (48 + n) as char
    } else {
        (87 + n) as char
    }
}

impl FourCC {
    /// The four big-endian bytes of the tag.
    pub open spec fn spec_bytes(&self) -> Seq<u8> {
        seq![
            (self.0 >> 24u32) as u8,
            ((self.0 >> 16u32) & 0xFFu32) as u8,
            ((self.0 >> 8u32) & 0xFFu32) as u8,
            (self.0 & 0xFFu32) as u8,
        ]
    }

    /// How the tag displays: its four bytes as ASCII characters when all
    /// are printable, else the eight lowercase hex digits after `0x`.
    pub open spec fn spec_display(&self) -> Seq<char> {
        let bs = self.spec_bytes();
        if spec_printable_ascii(bs[0]) && spec_printable_ascii(bs[1]) && spec_printable_ascii(
            bs[2],
        ) && spec_printable_ascii(bs[3]) {
            seq![bs[0] as char, bs[1] as char, bs[2] as char, bs[3] as char]
        } else {
            seq![
                '0',
                'x',
                spec_hex_digit(((self.0 >> 28u32) & 0xFu32) as u8),
                spec_hex_digit(((self.0 >> 24u32) & 0xFu32) as u8),
                spec_hex_digit(((self.0 >> 20u32) & 0xFu32) as u8),
                spec_hex_digit(((self.0 >> 16u32) & 0xFu32) as u8),
                spec_hex_digit(((self.0 >> 12u32) & 0xFu32) as u8),
                spec_hex_digit(((self.0 >> 8u32) & 0xFu32) as u8),
                spec_hex_digit(((self.0 >> 4u32) & 0xFu32) as u8),
                spec_hex_digit((self.0 & 0xFu32) as u8),
            ]
        }
    }

    /// Renders the tag as ASCII when all 4 bytes are printable, else as
    /// `0x` and eight hex digits.
    pub fn to_string(&self) -> (r: String)
        ensures
            r@ == self.spec_display(),
    {
        let tag: u32 = self.0;
        let b0: u8 = (tag >> 24u32) as u8;
        let b1: u8 = ((tag >> 16u32) & 0xFFu32) as u8;
        let b2: u8 = ((tag >> 8u32) & 0xFFu32) as u8;
        let b3: u8 = (tag & 0xFFu32) as u8;
        let mut s: String = String::new();
        if 32 <= b0 && b0 <= 126 && 32 <= b1 && b1 <= 126 && 32 <= b2 && b2 <= 126 && 32 <= b3
            && b3 <= 126 {
            push_char(&mut s, b0 as char);
            push_char(&mut s, b1 as char);
            push_char(&mut s, b2 as char);
            push_char(&mut s, b3 as char);
            proof {
                assert(s@ =~= self.spec_display());
            }
        } else {
            proof {
                assert forall|sh: u32| sh < 32 implies ((tag >> sh) & 0xFu32) < 16 by {
                    assert(((tag >> sh) & 0xFu32) < 16) by (bit_vector);
                }
                assert((tag & 0xFu32) < 16) by (bit_vector);
            }
            push_char(&mut s, '0');
            push_char(&mut s, 'x');
            push_char(&mut s, hex_digit(((tag >> 28u32) & 0xFu32) as u8));
            push_char(&mut s, hex_digit(((tag >> 24u32) & 0xFu32) as u8));
            push_char(&mut s, hex_digit(((tag >> 20u32) & 0xFu32) as u8));
            push_char(&mut s, hex_digit(((tag >> 16u32) & 0xFu32) as u8));
            push_char(&mut s, hex_digit(((tag >> 12u32) & 0xFu32) as u8));
            push_char(&mut s, hex_digit(((tag >> 8u32) & 0xFu32) as u8));
            push_char(&mut s, hex_digit(((tag >> 4u32) & 0xFu32) as u8));
            push_char(&mut s, hex_digit((tag & 0xFu32) as u8));
            proof {
                assert(s@ =~= self.spec_display());
            }
        }
        s
    }
}

} // verus!
