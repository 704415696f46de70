use crc::{Crc, CRC_16_XMODEM};
use macbinary::{parse, FourCC, ParseError, ResourceFork};

fn push_u16(v: &mut Vec<u8>, x: u16) {
    v.extend_from_slice(&x.to_be_bytes());
}

fn push_u32(v: &mut Vec<u8>, x: u32) {
    v.extend_from_slice(&x.to_be_bytes());
}

const MPSR_PAYLOAD: [u8; 72] = [
    0x00, 0x09, 0x4D, 0x6F, 0x6E, 0x61, 0x63, 0x6F, 0x00, 0xE0, 0x00, 0x00, 0x00, 0x00, 0x07,
    0x10, 0xA6, 0xF0, 0x00, 0x07, 0x07, 0x10, 0xC0, 0xA8, 0x06, 0xFA, 0x94, 0x40, 0x07, 0x10,
    0xA7, 0x00, 0x00, 0x00, 0x00, 0x06, 0x00, 0x04, 0x00, 0x2C, 0x00, 0x36, 0x02, 0xF7, 0x02,
    0xB6, 0x00, 0x2C, 0x00, 0x36, 0x02, 0xF7, 0x02, 0xB6, 0xE0, 0x40, 0xD4, 0xE8, 0x00, 0x00,
    0x00, 0x14, 0x00, 0x00, 0x00, 0x14, 0x00, 0x00, 0x00, 0x00, 0x01, 0x00,
];

/// The resource fork of the "Text File.bin" fixture: an 'MPSR' 1005 and a
/// 'BBST' 128 resource, no names, 1454 bytes in all.
fn build_rsrc_fork() -> Vec<u8> {
    let mut fork: Vec<u8> = Vec::new();
    push_u32(&mut fork, 256);
    push_u32(&mut fork, 1384);
    push_u32(&mut fork, 1128);
    push_u32(&mut fork, 70);
    fork.resize(256, 0);
    push_u32(&mut fork, 72);
    fork.extend_from_slice(&MPSR_PAYLOAD);
    push_u32(&mut fork, 1048);
    fork.resize(fork.len() + 1048, 0);
    assert_eq!(fork.len(), 1384);
    fork.resize(fork.len() + 22, 0);
    push_u16(&mut fork, 0);
    push_u16(&mut fork, 28);
    push_u16(&mut fork, 70);
    push_u16(&mut fork, 1);
    fork.extend_from_slice(b"MPSR");
    push_u16(&mut fork, 0);
    push_u16(&mut fork, 18);
    fork.extend_from_slice(b"BBST");
    push_u16(&mut fork, 0);
    push_u16(&mut fork, 30);
    push_u16(&mut fork, 1005);
    push_u16(&mut fork, 0xFFFF);
    fork.push(0);
    fork.extend_from_slice(&[0, 0, 0]);
    push_u32(&mut fork, 0);
    push_u16(&mut fork, 128);
    push_u16(&mut fork, 0xFFFF);
    fork.push(0);
    fork.extend_from_slice(&[0, 0, 76]);
    push_u32(&mut fork, 0);
    assert_eq!(fork.len(), 1454);
    fork
}

/// The "Text File.bin" fixture: a version-III MacBinary file holding a
/// 21-byte text data fork and the resource fork above.
fn read_fixture() -> Vec<u8> {
    let mut header = vec![0u8; 128];
    header[1] = 9;
    header[2..11].copy_from_slice(b"Text File");
    header[65..69].copy_from_slice(b"TEXT");
    header[69..73].copy_from_slice(b"R*ch");
    header[83..87].copy_from_slice(&21u32.to_be_bytes());
    header[87..91].copy_from_slice(&1454u32.to_be_bytes());
    header[102..106].copy_from_slice(b"mBIN");
    header[122] = 130;
    header[123] = 129;
    let crc = Crc::<u16>::new(&CRC_16_XMODEM).checksum(&header[..124]);
    header[124..126].copy_from_slice(&crc.to_be_bytes());

    let mut data = header;
    data.extend_from_slice(b"This is a test file.\r");
    data.resize(256, 0);
    data.extend_from_slice(&build_rsrc_fork());
    data
}

#[test]
fn resource_test_macbinary_3() {
    let data = read_fixture();
    let file = parse(&data).unwrap();
    let rsrc = ResourceFork::new(file.resource_fork_raw()).unwrap();
    let bbst = rsrc
        .get_resource(FourCC(u32::from_be_bytes(*b"BBST")), 128)
        .unwrap();
    assert_eq!(bbst.data().len(), 1048);

    let mpsr = rsrc
        .get_resource(FourCC(u32::from_be_bytes(*b"MPSR")), 1005)
        .unwrap();
    assert_eq!(
        mpsr.data(),
        &[
            0x00, 0x09, 0x4D, 0x6F, 0x6E, 0x61, 0x63, 0x6F, 0x00, 0xE0, 0x00, 0x00, 0x00, 0x00,
            0x07, 0x10, 0xA6, 0xF0, 0x00, 0x07, 0x07, 0x10, 0xC0, 0xA8, 0x06, 0xFA, 0x94, 0x40,
            0x07, 0x10, 0xA7, 0x00, 0x00, 0x00, 0x00, 0x06, 0x00, 0x04, 0x00, 0x2C, 0x00, 0x36,
            0x02, 0xF7, 0x02, 0xB6, 0x00, 0x2C, 0x00, 0x36, 0x02, 0xF7, 0x02, 0xB6, 0xE0, 0x40,
            0xD4, 0xE8, 0x00, 0x00, 0x00, 0x14, 0x00, 0x00, 0x00, 0x14, 0x00, 0x00, 0x00, 0x00,
            0x01, 0x00
        ]
    );
}

#[test]
fn test_iter_types() {
    let data = read_fixture();
    let file = parse(&data).unwrap();
    let rsrc = ResourceFork::new(file.resource_fork_raw()).unwrap();
    let mut types: Vec<String> = Vec::new();
    let mut iter = rsrc.resource_types();
    while let Some(item) = iter.next() {
        types.push(item.resource_type().to_string());
    }
    assert_eq!(types, vec![String::from("MPSR"), String::from("BBST")]);
}

#[test]
fn test_iter_resources() {
    let data = read_fixture();
    let file = parse(&data).unwrap();
    let rsrc = file.resource_fork().unwrap();
    let mut resources: Vec<(String, i16, Option<String>, usize)> = Vec::new();
    let mut types = rsrc.resource_types();
    while let Some(item) = types.next() {
        let mut iter = rsrc.resources(item);
        while let Some(resource) = iter.next() {
            resources.push((
                item.resource_type().to_string(),
                resource.id(),
                resource.name(),
                resource.data().len(),
            ));
        }
    }
    assert_eq!(
        resources,
        vec![
            (String::from("MPSR"), 1005, None, 72),
            (String::from("BBST"), 128, None, 1048),
        ]
    );
}

#[test]
fn test_size_hints_decrease_to_zero() {
    let data = read_fixture();
    let file = parse(&data).unwrap();
    let rsrc = file.resource_fork().unwrap();
    let mut types = rsrc.resource_types();
    assert_eq!(types.size_hint(), (2, Some(2)));
    let first = types.next().unwrap();
    assert_eq!(types.size_hint(), (1, Some(1)));
    let _ = types.next().unwrap();
    assert_eq!(types.size_hint(), (0, Some(0)));
    assert!(types.next().is_none());
    assert_eq!(types.size_hint(), (0, Some(0)));

    let mut resources = rsrc.resources(first);
    assert_eq!(resources.size_hint(), (1, Some(1)));
    let _ = resources.next().unwrap();
    assert_eq!(resources.size_hint(), (0, Some(0)));
    assert!(resources.next().is_none());
}

#[test]
fn test_get_resource_missing() {
    let data = read_fixture();
    let file = parse(&data).unwrap();
    let rsrc = file.resource_fork().unwrap();
    // absent type
    assert!(rsrc
        .get_resource(FourCC(u32::from_be_bytes(*b"ICON")), 128)
        .is_none());
    // present type, absent id
    assert!(rsrc
        .get_resource(FourCC(u32::from_be_bytes(*b"BBST")), 129)
        .is_none());
}

#[test]
fn test_rsrc_fork_too_short() {
    assert_eq!(ResourceFork::new(&[1, 2, 3]).err(), Some(ParseError::BadEof));
    assert_eq!(ResourceFork::new(&[]).err(), Some(ParseError::BadEof));
}

#[test]
fn test_rsrc_fork_bad_offsets() {
    // a data region that starts past the end with a nonzero length
    let mut fork: Vec<u8> = Vec::new();
    push_u32(&mut fork, 9999);
    push_u32(&mut fork, 16);
    push_u32(&mut fork, 4);
    push_u32(&mut fork, 0);
    fork.resize(64, 0);
    assert_eq!(ResourceFork::new(&fork).err(), Some(ParseError::BadOffset));
    // a data region that starts in range but runs past the end
    let mut fork2: Vec<u8> = Vec::new();
    push_u32(&mut fork2, 16);
    push_u32(&mut fork2, 16);
    push_u32(&mut fork2, 9999);
    push_u32(&mut fork2, 0);
    fork2.resize(64, 0);
    assert_eq!(ResourceFork::new(&fork2).err(), Some(ParseError::BadEof));
}

#[test]
fn test_rsrc_fork_type_count_overflow() {
    // a type-list count word of 0xFFFF overflows its off-by-one correction
    let mut fork: Vec<u8> = Vec::new();
    push_u32(&mut fork, 16);
    push_u32(&mut fork, 16);
    push_u32(&mut fork, 0);
    push_u32(&mut fork, 30);
    // map region at 16, length 30: 22 reserved + attributes + offsets
    fork.resize(16 + 22, 0);
    push_u16(&mut fork, 0);
    push_u16(&mut fork, 28);
    push_u16(&mut fork, 30);
    push_u16(&mut fork, 0xFFFF);
    assert_eq!(ResourceFork::new(&fork).err(), Some(ParseError::Overflow));
}

/// A small fork with one named resource: type 'ABCD', id 1, name "foo",
/// data "WXYZ".
fn build_named_fork() -> Vec<u8> {
    let mut fork: Vec<u8> = Vec::new();
    push_u32(&mut fork, 16); // data offset
    push_u32(&mut fork, 24); // map offset
    push_u32(&mut fork, 8); // data length
    push_u32(&mut fork, 54); // map length
    // data region at 16
    push_u32(&mut fork, 4);
    fork.extend_from_slice(b"WXYZ");
    // map at 24
    fork.resize(fork.len() + 22, 0);
    push_u16(&mut fork, 0);
    push_u16(&mut fork, 28); // type list offset
    push_u16(&mut fork, 50); // name list offset
    // type list at map offset 28
    push_u16(&mut fork, 0); // one type, stored minus one
    fork.extend_from_slice(b"ABCD");
    push_u16(&mut fork, 0);
    push_u16(&mut fork, 10); // reference list right after the type list
    // reference list at type-list offset 10
    push_u16(&mut fork, 1);
    push_u16(&mut fork, 0); // name at name-list offset 0
    fork.push(0x20); // attributes
    fork.extend_from_slice(&[0, 0, 0]);
    push_u32(&mut fork, 0);
    // name list at map offset 50
    fork.push(3);
    fork.extend_from_slice(b"foo");
    assert_eq!(fork.len(), 24 + 54);
    fork
}

#[test]
fn test_named_resource() {
    let fork = build_named_fork();
    let rsrc = ResourceFork::new(&fork).unwrap();
    let res = rsrc
        .get_resource(FourCC(u32::from_be_bytes(*b"ABCD")), 1)
        .unwrap();
    assert_eq!(res.id(), 1);
    assert_eq!(res.data(), b"WXYZ");
    assert_eq!(res.name_bytes(), Some(&b"foo"[..]));
    assert_eq!(res.name(), Some(String::from("foo")));
    assert_eq!(res.attributes(), 0x20);
}

#[test]
fn test_bad_data_offset_degrades_to_none() {
    // the reference entry's data offset points past the data region: the
    // lookup degrades to "not found" rather than an error
    let mut fork = build_named_fork();
    // the 24-bit data offset sits 9 bytes into the reference list, at
    // map(24) + type list(28) + reference list(10) + 5
    let pos = 24 + 28 + 10 + 5;
    fork[pos..pos + 3].copy_from_slice(&[0, 0, 200]);
    let rsrc = ResourceFork::new(&fork).unwrap();
    assert!(rsrc
        .get_resource(FourCC(u32::from_be_bytes(*b"ABCD")), 1)
        .is_none());
}
