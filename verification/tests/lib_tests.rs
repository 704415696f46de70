use crc::{Crc, CRC_16_XMODEM};
use macbinary::macroman::{macroman_to_char, FromMacRoman};
use macbinary::{detect, next_u16_multiple_of_128, next_u32_multiple_of_128, parse};
use macbinary::{FourCC, ParseError, Version};

fn push_u16(v: &mut Vec<u8>, x: u16) {
    v.extend_from_slice(&x.to_be_bytes());
}

fn push_u32(v: &mut Vec<u8>, x: u32) {
    v.extend_from_slice(&x.to_be_bytes());
}

const MPSR_PAYLOAD: [u8; 72] = [
    0x00, 0x09, 0x4D, 0x6F, 0x6E, 0x61, 0x63, 0x6F, 0x00, 0xE0, 0x00, 0x00, 0x00, 0x00, 0x07,
    0x10, 0xA6, 0xF0, 0x00, 0x07, 0x07, 0x10, 0xC0, 0xA8, 0x06, 0xFA, 0x94, 0x40, 0x07, 0x10,
    0xA7, 0x00, 0x00, 0x00, 0x00, 0x06, 0x00, 0x04, 0x00, 0x2C, 0x00, 0x36, 0x02, 0xF7, 0x02,
    0xB6, 0x00, 0x2C, 0x00, 0x36, 0x02, 0xF7, 0x02, 0xB6, 0xE0, 0x40, 0xD4, 0xE8, 0x00, 0x00,
    0x00, 0x14, 0x00, 0x00, 0x00, 0x14, 0x00, 0x00, 0x00, 0x00, 0x01, 0x00,
];

/// The resource fork of the "Text File.bin" fixture: an 'MPSR' 1005 and a
/// 'BBST' 128 resource, no names, 1454 bytes in all.
fn build_rsrc_fork() -> Vec<u8> {
    let mut fork: Vec<u8> = Vec::new();
    // fork header: data offset, map offset, data length, map length
    push_u32(&mut fork, 256);
    push_u32(&mut fork, 1384);
    push_u32(&mut fork, 1128);
    push_u32(&mut fork, 70);
    fork.resize(256, 0);
    // data region: length-prefixed resource data
    push_u32(&mut fork, 72);
    fork.extend_from_slice(&MPSR_PAYLOAD);
    push_u32(&mut fork, 1048);
    fork.resize(fork.len() + 1048, 0);
    assert_eq!(fork.len(), 1384);
    // resource map: 22 reserved bytes, attributes, type-list and name-list
    // offsets relative to the map start
    fork.resize(fork.len() + 22, 0);
    push_u16(&mut fork, 0);
    push_u16(&mut fork, 28);
    push_u16(&mut fork, 70);
    // type list at map offset 28: count minus one, then 8-byte entries
    push_u16(&mut fork, 1);
    fork.extend_from_slice(b"MPSR");
    push_u16(&mut fork, 0); // one resource, stored minus one
    push_u16(&mut fork, 18); // reference list offset from type-list start
    fork.extend_from_slice(b"BBST");
    push_u16(&mut fork, 0);
    push_u16(&mut fork, 30);
    // reference list for MPSR: id, no name, attributes, 24-bit data offset,
    // reserved
    push_u16(&mut fork, 1005);
    push_u16(&mut fork, 0xFFFF);
    fork.push(0);
    fork.extend_from_slice(&[0, 0, 0]);
    push_u32(&mut fork, 0);
    // reference list for BBST
    push_u16(&mut fork, 128);
    push_u16(&mut fork, 0xFFFF);
    fork.push(0);
    fork.extend_from_slice(&[0, 0, 76]);
    push_u32(&mut fork, 0);
    assert_eq!(fork.len(), 1454);
    fork
}

/// The "Text File.bin" fixture: a version-III MacBinary file holding a
/// 21-byte text data fork and the resource fork above.
fn read_fixture() -> Vec<u8> {
    let mut header = vec![0u8; 128];
    header[1] = 9;
    header[2..11].copy_from_slice(b"Text File");
    header[65..69].copy_from_slice(b"TEXT");
    header[69..73].copy_from_slice(b"R*ch");
    header[83..87].copy_from_slice(&21u32.to_be_bytes());
    header[87..91].copy_from_slice(&1454u32.to_be_bytes());
    header[102..106].copy_from_slice(b"mBIN");
    header[122] = 130;
    header[123] = 129;
    let crc = Crc::<u16>::new(&CRC_16_XMODEM).checksum(&header[..124]);
    header[124..126].copy_from_slice(&crc.to_be_bytes());

    let mut data = header;
    data.extend_from_slice(b"This is a test file.\r");
    data.resize(256, 0);
    data.extend_from_slice(&build_rsrc_fork());
    data
}

#[test]
fn test_next_multiple() {
    assert_eq!(next_u16_multiple_of_128(0), Ok(0));
    assert_eq!(next_u16_multiple_of_128(3), Ok(128));
    assert_eq!(next_u16_multiple_of_128(128), Ok(128));
    assert_eq!(next_u16_multiple_of_128(129), Ok(256));

    assert_eq!(next_u32_multiple_of_128(0), Ok(0));
    assert_eq!(next_u32_multiple_of_128(3), Ok(128));
    assert_eq!(next_u32_multiple_of_128(128), Ok(128));
    assert_eq!(next_u32_multiple_of_128(129), Ok(256));
}

#[test]
fn test_next_multiple_overflow() {
    assert_eq!(
        next_u16_multiple_of_128(u16::MAX - 3),
        Err(ParseError::Overflow)
    );
    assert_eq!(
        next_u32_multiple_of_128(u32::MAX - 3),
        Err(ParseError::Overflow)
    );
}

#[test]
fn lib_test_macbinary_3() {
    let data = read_fixture();
    let file = parse(&data).unwrap();

    assert_eq!(file.filename().unwrap(), "Text File");
    assert_eq!(file.file_type(), FourCC(u32::from_be_bytes(*b"TEXT")));
    assert_eq!(file.file_creator(), FourCC(u32::from_be_bytes(*b"R*ch"))); // BBEdit
    assert_eq!(file.data_fork(), b"This is a test file.\r");
    assert_eq!(file.resource_fork_raw().len(), 1454);
    assert_eq!(file.version(), Version::III);
}

// For all buffers shorter than 128 bytes, detect returns no version
#[test]
fn test_detect_short() {
    assert_eq!(detect(&[]), None);
    assert_eq!(detect(&[0u8; 127]), None);
    assert_eq!(parse(&[0u8; 127]).err(), Some(ParseError::BadVersion));
}

// For all buffers whose first byte is nonzero, detect returns no version
#[test]
fn test_detect_nonzero_first_byte() {
    let mut data = read_fixture();
    data[0] = 1;
    assert_eq!(detect(&data), None);
    let mut zeros = vec![0u8; 200];
    zeros[0] = 0xFF;
    assert_eq!(detect(&zeros), None);
}

#[test]
fn test_detect_version_ii() {
    let mut data = read_fixture();
    // remove the version III signature and restore a valid CRC
    data[102..106].copy_from_slice(&[0, 0, 0, 0]);
    let crc = Crc::<u16>::new(&CRC_16_XMODEM).checksum(&data[..124]);
    data[124..126].copy_from_slice(&crc.to_be_bytes());
    assert_eq!(detect(&data), Some(Version::II));
    let file = parse(&data).unwrap();
    assert_eq!(file.version(), Version::II);
    assert_eq!(file.filename().unwrap(), "Text File");
}

#[test]
fn test_detect_version_i() {
    // a version I header: no signature, no CRC, zeroed tail bytes; the CRC
    // bytes stay zero and must not match the computed one. The heuristic
    // wants the byte at offset 2 in 1..=63, so the name starts with a digit.
    let mut data = vec![0u8; 256];
    data[1] = 5;
    data[2..7].copy_from_slice(b"12345");
    assert_eq!(detect(&data), Some(Version::I));
    let file = parse(&data).unwrap();
    assert_eq!(file.version(), Version::I);
    assert_eq!(file.filename().unwrap(), "12345");
}

#[test]
fn test_detect_version_i_rejects_long_forks() {
    let mut data = vec![0u8; 256];
    data[1] = 5;
    data[2..7].copy_from_slice(b"12345");
    data[83..87].copy_from_slice(&0x00800000u32.to_be_bytes());
    assert_eq!(detect(&data), None);
}

// For a version-III file, corrupting any byte within the first 124 header
// bytes makes parse fail; everywhere the corruption leaves detection intact
// that failure is CrcMismatch. Corrupting a byte after the CRC field, or in
// the payload, does not fail.
#[test]
fn test_crc_corruption() {
    let data = read_fixture();
    for i in 0..124 {
        let mut copy = data.clone();
        copy[i] ^= 0x01;
        let r = parse(&copy);
        if i == 0 || (102..106).contains(&i) {
            // these corruptions break detection itself
            assert_eq!(r.err(), Some(ParseError::BadVersion), "byte {}", i);
        } else {
            assert_eq!(r.err(), Some(ParseError::CrcMismatch), "byte {}", i);
        }
    }
    // a byte after the CRC field
    let mut copy = data.clone();
    copy[126] ^= 0x01;
    assert!(parse(&copy).is_ok());
    // a byte of the payload
    let mut copy = data.clone();
    copy[130] ^= 0x01;
    assert!(parse(&copy).is_ok());
}

#[test]
fn test_secondary_header_skipped() {
    // a nonzero secondary-header length shifts both forks by the length
    // rounded up to the next multiple of 128
    let mut header = vec![0u8; 128];
    header[1] = 4;
    header[2..6].copy_from_slice(b"Demo");
    header[83..87].copy_from_slice(&4u32.to_be_bytes());
    header[87..91].copy_from_slice(&0u32.to_be_bytes());
    header[102..106].copy_from_slice(b"mBIN");
    header[120..122].copy_from_slice(&10u16.to_be_bytes());
    let crc = Crc::<u16>::new(&CRC_16_XMODEM).checksum(&header[..124]);
    header[124..126].copy_from_slice(&crc.to_be_bytes());
    let mut data = header;
    data.resize(128 + 128, 0xAA); // the padded secondary header
    data.extend_from_slice(b"BODY");
    data.resize(data.len() + 124, 0); // padding up to the next 128-byte boundary
    let file = parse(&data).unwrap();
    assert_eq!(file.data_fork(), b"BODY");
    assert_eq!(file.resource_fork_raw(), b"");
}

#[test]
fn test_secondary_header_overflow() {
    let mut data = read_fixture();
    // a secondary-header length whose round-up exceeds the 16-bit range
    data[120..122].copy_from_slice(&0xFF81u16.to_be_bytes());
    let crc = Crc::<u16>::new(&CRC_16_XMODEM).checksum(&data[..124]);
    data[124..126].copy_from_slice(&crc.to_be_bytes());
    assert_eq!(parse(&data).err(), Some(ParseError::Overflow));
}

#[test]
fn test_bad_filename_length() {
    let mut data = read_fixture();
    data[1] = 0;
    assert_eq!(parse(&data).err(), Some(ParseError::BadValue));
    let mut data = read_fixture();
    data[1] = 32;
    assert_eq!(parse(&data).err(), Some(ParseError::BadValue));
}

#[test]
fn test_truncated_fork() {
    let data = read_fixture();
    // drop the tail of the resource fork: partial forks are never returned
    let truncated = &data[..data.len() - 1];
    assert_eq!(parse(truncated).err(), Some(ParseError::BadEof));
}

#[test]
fn test_not_implemented_script() {
    let mut data = read_fixture();
    // a script byte with the high bit set and nonzero low bits is not
    // implemented
    data[106] = 0x81;
    let crc = Crc::<u16>::new(&CRC_16_XMODEM).checksum(&data[..124]);
    data[124..126].copy_from_slice(&crc.to_be_bytes());
    let file = parse(&data).unwrap();
    assert_eq!(file.filename().err(), Some(ParseError::NotImplemented));
    // the high bit set with zero low bits still means Mac Roman
    let mut data2 = read_fixture();
    data2[106] = 0x80;
    let crc2 = Crc::<u16>::new(&CRC_16_XMODEM).checksum(&data2[..124]);
    data2[124..126].copy_from_slice(&crc2.to_be_bytes());
    let file2 = parse(&data2).unwrap();
    assert_eq!(file2.filename().unwrap(), "Text File");
}

#[test]
fn test_timestamps() {
    let mut data = read_fixture();
    data[91..95].copy_from_slice(&0u32.to_be_bytes());
    data[95..99].copy_from_slice(&1u32.to_be_bytes());
    let crc = Crc::<u16>::new(&CRC_16_XMODEM).checksum(&data[..124]);
    data[124..126].copy_from_slice(&crc.to_be_bytes());
    let file = parse(&data).unwrap();
    // the Mac epoch is 66 years with 18 leap days before the UNIX epoch
    assert_eq!(file.created(), 2082931200);
    assert_eq!(file.modified(), 2082931201);
    // the conversion wraps on overflow by design
    let mut data2 = read_fixture();
    data2[91..95].copy_from_slice(&u32::MAX.to_be_bytes());
    let crc2 = Crc::<u16>::new(&CRC_16_XMODEM).checksum(&data2[..124]);
    data2[124..126].copy_from_slice(&crc2.to_be_bytes());
    let file2 = parse(&data2).unwrap();
    assert_eq!(file2.created(), 2082931199);
}

#[test]
fn test_fourcc_to_string() {
    assert_eq!(FourCC(u32::from_be_bytes(*b"TEXT")).to_string(), "TEXT");
    assert_eq!(FourCC(u32::from_be_bytes(*b"R*ch")).to_string(), "R*ch");
    // unprintable bytes display as hex
    assert_eq!(FourCC(1).to_string(), "0x00000001");
    assert_eq!(FourCC(0xDEADBEEF).to_string(), "0xdeadbeef");
}

#[test]
fn test_error_messages() {
    assert_eq!(
        ParseError::BadEof.to_string(),
        "end of data reached unexpectedly"
    );
    assert_eq!(ParseError::CrcMismatch.to_string(), "CRC mismatch");
    assert_eq!(ParseError::NotImplemented.to_string(), "not implemented");
}

#[test]
fn test_macroman() {
    assert_eq!(macroman_to_char(b'A'), Some('A'));
    assert_eq!(macroman_to_char(142), Some('\u{e9}')); // e acute
    assert_eq!(macroman_to_char(173), None);
    assert_eq!(String::from_macroman(&[0x8E, b'!']), "\u{e9}!");
    assert_eq!(String::from_macroman(&[173]), "\u{FFFD}");
}
