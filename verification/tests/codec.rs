//! Tests for the byte cursor, the variable-length integer codec and the
//! hash types.

use btlib::blkparser::cursor::Cursor;
use btlib::blkparser::helpers::{be_u32, le_u16, le_u32, le_u64, read_var_int, read_var_int_marker};
use btlib::parser::ReadError;
use btlib::types::{BitcoinHash, BitcoinHashBuilder, BlockTarget, VarInt};
use sha2::Digest;

fn double_sha_reversed(data: &[u8]) -> Vec<u8> {
    let first = sha2::Sha256::digest(data);
    let second = sha2::Sha256::digest(&first[..]);
    let mut out = second.to_vec();
    out.reverse();
    out
}

#[test]
fn cursor_reads_and_advances() {
    let data = [1u8, 2, 3, 4, 5];
    let mut cursor = Cursor::new(&data);
    assert_eq!(cursor.size(), 5);
    assert_eq!(cursor.position(), 0);
    let first = cursor.read_bytes(2).unwrap();
    assert_eq!(first, &[1, 2]);
    assert_eq!(cursor.position(), 2);
    let rest = cursor.read_bytes(3).unwrap();
    assert_eq!(rest, &[3, 4, 5]);
    assert_eq!(cursor.remaining_len(), 0);
}

#[test]
fn cursor_underrun_fails_without_partial_read() {
    let data = [9u8, 8, 7];
    let mut cursor = Cursor::new(&data);
    let err = cursor.read_bytes(5).unwrap_err();
    assert_eq!(err, ReadError { requested: 5, available: 3 });
    // The failed read left the cursor untouched: all 3 bytes still come out.
    assert_eq!(cursor.position(), 0);
    assert_eq!(cursor.read_bytes(3).unwrap(), &[9, 8, 7]);
}

#[test]
fn cursor_carves_independent_subcursor() {
    let data = [1u8, 2, 3, 4, 5, 6];
    let mut cursor = Cursor::new(&data);
    let mut sub = cursor.bytes_to_cursor(4).unwrap();
    assert_eq!(sub.size(), 4);
    assert_eq!(sub.get_ref(), &[1, 2, 3, 4]);
    assert_eq!(sub.read_bytes(4).unwrap(), &[1, 2, 3, 4]);
    assert_eq!(cursor.read_bytes(2).unwrap(), &[5, 6]);
}

#[test]
fn varint_single_byte_markers() {
    for marker in [0x00u8, 0x01, 0x2a, 0xfc] {
        let data = [marker, 0xaa, 0xbb];
        let mut cursor = Cursor::new(&data);
        let v = read_var_int(&mut cursor).unwrap();
        assert_eq!(v.value(), marker as u64);
        assert_eq!(cursor.position(), 1);
    }
}

#[test]
fn varint_two_byte_form() {
    let data = [0xfdu8, 0x01, 0x02];
    let mut cursor = Cursor::new(&data);
    let v = read_var_int(&mut cursor).unwrap();
    assert_eq!(v.value(), 0x0201);
    assert_eq!(cursor.position(), 3);
}

#[test]
fn varint_four_byte_form() {
    let data = [0xfeu8, 0x78, 0x56, 0x34, 0x12];
    let mut cursor = Cursor::new(&data);
    let v = read_var_int(&mut cursor).unwrap();
    assert_eq!(v.value(), 0x12345678);
    assert_eq!(cursor.position(), 5);
}

#[test]
fn varint_eight_byte_form() {
    let data = [0xffu8, 0xef, 0xcd, 0xab, 0x89, 0x67, 0x45, 0x23, 0x01];
    let mut cursor = Cursor::new(&data);
    let v = read_var_int(&mut cursor).unwrap();
    assert_eq!(v.value(), 0x0123456789abcdef);
    assert_eq!(cursor.position(), 9);
}

#[test]
fn varint_with_marker_already_read() {
    let data = [0x10u8, 0x20];
    let mut cursor = Cursor::new(&data);
    let v = read_var_int_marker(0xfd, &mut cursor).unwrap();
    assert_eq!(v.value(), 0x2010);
    assert_eq!(cursor.position(), 2);
}

#[test]
fn varint_underrun_fails() {
    let data = [0xfdu8, 0x01];
    let mut cursor = Cursor::new(&data);
    let err = read_var_int(&mut cursor).unwrap_err();
    assert_eq!(err, ReadError { requested: 2, available: 1 });
}

#[test]
fn varint_from_fixed_widths() {
    assert_eq!(VarInt::new(7).value(), 7);
    assert_eq!(VarInt::from_2_bytes(&[0x01, 0x02]).value(), 0x0201);
    assert_eq!(VarInt::from_4_bytes(&[0x78, 0x56, 0x34, 0x12]).value(), 0x12345678);
    assert_eq!(
        VarInt::from_8_bytes(&[0xef, 0xcd, 0xab, 0x89, 0x67, 0x45, 0x23, 0x01]).value(),
        0x0123456789abcdef
    );
}

#[test]
fn byte_order_helpers() {
    assert_eq!(le_u16(&[0x01, 0x02]), 0x0201);
    assert_eq!(le_u32(&[0x04, 0x03, 0x02, 0x01]), 0x01020304);
    assert_eq!(
        le_u64(&[0x08, 0x07, 0x06, 0x05, 0x04, 0x03, 0x02, 0x01]),
        0x0102030405060708
    );
    assert_eq!(be_u32(&[0xf9, 0xbe, 0xb4, 0xd9]), 0xf9beb4d9);
}

#[test]
fn hash_header_is_double_sha_reversed() {
    let data = b"some header bytes";
    let hash = BitcoinHash::hash_header(data);
    assert_eq!(hash.bytes().as_slice(), double_sha_reversed(data).as_slice());
}

#[test]
fn hash_from_little_endian_reverses() {
    let mut bytes = vec![0u8; 32];
    bytes[0] = 1;
    bytes[31] = 2;
    let hash = BitcoinHash::from_little_endian(bytes);
    assert_eq!(hash.bytes()[0], 2);
    assert_eq!(hash.bytes()[31], 1);
}

#[test]
fn hash_builder_digests_accumulated_bytes() {
    let mut builder = BitcoinHashBuilder::new();
    builder.add_digest(&[1, 2, 3]);
    builder.add_digest(&[4, 5]);
    let hash = builder.into_hash();
    assert_eq!(hash.bytes().as_slice(), double_sha_reversed(&[1, 2, 3, 4, 5]).as_slice());
}

#[test]
fn block_target_keeps_raw_bytes() {
    let target = BlockTarget::new(vec![0xff, 0xff, 0x00, 0x1d]);
    assert_eq!(target.bytes().as_slice(), &[0xff, 0xff, 0x00, 0x1d]);
    let from_slice = BlockTarget::from_slice(&[0xaa, 0xbb, 0xcc, 0xdd, 0xee]);
    assert_eq!(from_slice.bytes().as_slice(), &[0xaa, 0xbb, 0xcc, 0xdd]);
}
