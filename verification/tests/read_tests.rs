use macbinary::binary::read::{CheckIndex, ReadScope};
use macbinary::binary::{U16Be, U24Be, U8};
use macbinary::ParseError;

#[test]
fn test_read_u24be() {
    let scope = ReadScope::new(&[1, 2, 3]);
    assert_eq!(scope.read::<U24Be>().unwrap(), 0x10203);
}

// Tests that offset_length does not panic when length is 0 but offset is out-of-bounds
#[test]
fn test_offset_length_oob() {
    let scope = ReadScope::new(&[1, 2, 3]);
    assert!(scope.offset_length(99, 0).is_ok());
}

#[test]
fn test_offset_length_errors() {
    let scope = ReadScope::new(&[1, 2, 3]);
    // a too-long range starting in bounds is BadEof
    assert_eq!(scope.offset_length(1, 3).err(), Some(ParseError::BadEof));
    assert_eq!(scope.offset_length(0, 4).err(), Some(ParseError::BadEof));
    // a nonzero range starting out of bounds is BadOffset
    assert_eq!(scope.offset_length(3, 1).err(), Some(ParseError::BadOffset));
    assert_eq!(scope.offset_length(99, 1).err(), Some(ParseError::BadOffset));
    // exact in-bounds ranges succeed
    let sub = scope.offset_length(1, 2).unwrap();
    assert_eq!(sub.data(), &[2, 3]);
}

#[test]
fn test_offset_clamps() {
    let scope = ReadScope::new(&[1, 2, 3]);
    assert_eq!(scope.offset(1).data(), &[2, 3]);
    assert_eq!(scope.offset(3).data(), &[] as &[u8]);
    assert_eq!(scope.offset(99).data(), &[] as &[u8]);
}

#[test]
fn test_offset_composition() {
    // offset(i) then offset(j - i) reaches the same bytes as the sub-range
    // from j to the end
    let bytes = [10u8, 11, 12, 13, 14, 15];
    let scope = ReadScope::new(&bytes);
    let i = 2usize;
    let j = 4usize;
    let composed = scope.offset(i).offset(j - i);
    let direct = scope.offset_length(j, bytes.len() - j).unwrap();
    assert_eq!(composed.data(), direct.data());
}

#[test]
fn test_cursor_reads() {
    let scope = ReadScope::new(&[0x01, 0x02, 0x03, 0x04, 0x80, 0xFF]);
    let mut ctxt = scope.ctxt();
    assert_eq!(ctxt.read_u16be().unwrap(), 0x0102);
    assert_eq!(ctxt.read_i16be().unwrap(), 0x0304);
    assert_eq!(ctxt.read_i8().unwrap(), -128);
    assert_eq!(ctxt.read_u8().unwrap(), 0xFF);
    assert!(ctxt.read_u8().is_err());
    assert!(!ctxt.bytes_available());
}

#[test]
fn test_cursor_reads_wide() {
    let scope = ReadScope::new(&[0x01, 0x02, 0x03, 0x04, 0x05, 0x06, 0x07, 0x08]);
    let mut ctxt = scope.ctxt();
    assert_eq!(ctxt.read_u64be().unwrap(), 0x0102030405060708);
    let mut ctxt2 = scope.ctxt();
    assert_eq!(ctxt2.read_i32be().unwrap(), 0x01020304);
    assert_eq!(ctxt2.read_u32be().unwrap(), 0x05060708);
    let mut ctxt3 = scope.ctxt();
    assert!(ctxt3.read_slice(9).is_err());
    assert_eq!(ctxt3.read_slice(8).unwrap().len(), 8);
}

#[test]
fn test_read_array_and_items() {
    let scope = ReadScope::new(&[0x00, 0x01, 0x00, 0x02, 0x00, 0x03]);
    let mut ctxt = scope.ctxt();
    let arr = ctxt.read_array::<U16Be>(3).unwrap();
    assert_eq!(arr.len(), 3);
    assert!(!arr.is_empty());
    assert_eq!(arr.get_item(0), 1);
    assert_eq!(arr.get_item(2), 3);
    assert_eq!(arr.read_item(1).unwrap(), 2);
    assert_eq!(arr.check_index(2), Ok(()));
    assert_eq!(arr.check_index(3), Err(ParseError::BadIndex));
}

#[test]
fn test_read_array_too_long() {
    let scope = ReadScope::new(&[0x00, 0x01, 0x00]);
    let mut ctxt = scope.ctxt();
    assert_eq!(
        ctxt.read_array::<U16Be>(2).err(),
        Some(ParseError::BadEof)
    );
}

// An array sub-range from an out-of-range start index yields an empty,
// zero-length view rather than failing
#[test]
fn test_subarray_out_of_range() {
    let scope = ReadScope::new(&[1, 2, 3]);
    let mut ctxt = scope.ctxt();
    let arr = ctxt.read_array::<U8>(3).unwrap();
    let sub = arr.subarray(5);
    assert_eq!(sub.len(), 0);
    assert!(sub.is_empty());
    let sub2 = arr.subarray(3);
    assert_eq!(sub2.len(), 0);
}

#[test]
fn test_subarray_in_range() {
    let scope = ReadScope::new(&[1, 2, 3]);
    let mut ctxt = scope.ctxt();
    let arr = ctxt.read_array::<U8>(3).unwrap();
    let sub = arr.subarray(1);
    assert_eq!(sub.len(), 2);
    assert_eq!(sub.get_item(0), 2);
    assert_eq!(sub.get_item(1), 3);
}

#[test]
fn test_array_iter() {
    let scope = ReadScope::new(&[0x00, 0x01, 0x00, 0x02]);
    let mut ctxt = scope.ctxt();
    let arr = ctxt.read_array::<U16Be>(2).unwrap();
    let mut iter = arr.iter();
    assert_eq!(iter.size_hint(), (2, Some(2)));
    assert_eq!(iter.next(), Some(1));
    assert_eq!(iter.size_hint(), (1, Some(1)));
    assert_eq!(iter.next(), Some(2));
    assert_eq!(iter.size_hint(), (0, Some(0)));
    assert_eq!(iter.next(), None);
    // the array re-decodes on every access, so a fresh iterator sees the
    // same elements again
    let mut again = arr.iter();
    assert_eq!(again.next(), Some(1));
}

#[test]
fn test_array_iter_res() {
    let scope = ReadScope::new(&[7, 8]);
    let mut ctxt = scope.ctxt();
    let arr = ctxt.read_array::<U8>(2).unwrap();
    let mut iter = arr.iter_res();
    assert_eq!(iter.size_hint(), (2, Some(2)));
    assert_eq!(iter.next(), Some(Ok(7)));
    assert_eq!(iter.next(), Some(Ok(8)));
    assert_eq!(iter.size_hint(), (0, Some(0)));
    assert_eq!(iter.next(), None);
}

#[test]
fn test_array_empty() {
    let arr = macbinary::binary::read::ReadArray::<U8>::empty();
    assert_eq!(arr.len(), 0);
    assert!(arr.is_empty());
}

#[test]
fn test_read_until_nibble() {
    let scope = ReadScope::new(&[0x12, 0x34, 0x56]);
    let mut ctxt = scope.ctxt();
    // the first byte with a 3 in either nibble is 0x34
    let taken = ctxt.read_until_nibble(0x3).unwrap();
    assert_eq!(taken, &[0x12, 0x34]);
    let mut ctxt2 = scope.ctxt();
    assert!(ctxt2.read_until_nibble(0xF).is_err());
}

#[test]
fn test_read_array_upto_hack() {
    let scope = ReadScope::new(&[0x00, 0x01, 0x00, 0x02, 0x00]);
    let mut ctxt = scope.ctxt();
    // only two whole 16-bit values fit in five bytes
    let arr = ctxt.read_array_upto_hack::<U16Be>(100).unwrap();
    assert_eq!(arr.len(), 2);
    assert_eq!(arr.get_item(1), 2);
}

#[test]
fn test_check_and_check_version() {
    let scope = ReadScope::new(&[1]);
    let ctxt = scope.ctxt();
    assert_eq!(ctxt.check(true), Ok(()));
    assert_eq!(ctxt.check(false), Err(ParseError::BadValue));
    assert_eq!(ctxt.check_version(true), Ok(()));
    assert_eq!(ctxt.check_version(false), Err(ParseError::BadVersion));
}
