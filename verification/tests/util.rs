//! Tests for the pointer conversions and big-endian buffer accessors.

use my_vm::errors::ExecError;
use my_vm::util::{
    native_ptr, read_bytes, read_u16, read_u32, read_u8, read_vm_ptr, vm_ptr, write_u16,
    write_u32, write_u8, write_vm_ptr,
};

#[test]
fn pointer_conversions_round_trip() {
    assert_eq!(native_ptr(0), 0);
    assert_eq!(native_ptr(4096), 4096);
    assert_eq!(vm_ptr(4096), 4096);
    assert_eq!(vm_ptr(native_ptr(u32::MAX)), u32::MAX);
}

#[test]
fn read_u8_takes_first_byte() {
    assert_eq!(read_u8(&[7, 8]), Ok(7));
    assert_eq!(read_u8(&[]), Err(ExecError::BorderAccess));
}

#[test]
fn read_u16_is_big_endian() {
    assert_eq!(read_u16(&[0x12, 0x34, 0xff]), Ok(0x1234));
    assert_eq!(read_u16(&[1]), Err(ExecError::BorderAccess));
}

#[test]
fn read_u32_is_big_endian() {
    assert_eq!(read_u32(&[0x01, 0x02, 0x03, 0x04, 0xaa]), Ok(0x0102_0304));
    assert_eq!(read_u32(&[1, 2, 3]), Err(ExecError::BorderAccess));
    assert_eq!(read_vm_ptr(&[0, 0, 0, 9]), Ok(9));
}

#[test]
fn write_u8_overwrites_first_byte() {
    let mut buf = [0u8; 2];
    assert_eq!(write_u8(&mut buf, 0xab), Ok(()));
    assert_eq!(buf, [0xab, 0]);
    let mut empty: [u8; 0] = [];
    assert_eq!(write_u8(&mut empty, 1), Err(ExecError::BorderAccess));
}

#[test]
fn write_u16_is_big_endian() {
    let mut buf = [0u8; 3];
    assert_eq!(write_u16(&mut buf, 0x1234), Ok(()));
    assert_eq!(buf, [0x12, 0x34, 0]);
}

#[test]
fn write_u16_partial_buffer_fails_after_high_byte() {
    let mut buf = [0u8; 1];
    assert_eq!(write_u16(&mut buf, 0x1234), Err(ExecError::BorderAccess));
    assert_eq!(buf, [0x12]);
}

#[test]
fn write_u32_is_big_endian() {
    let mut buf = [0u8; 4];
    assert_eq!(write_u32(&mut buf, 0x0102_0304), Ok(()));
    assert_eq!(buf, [1, 2, 3, 4]);
    let mut buf = [9u8; 4];
    assert_eq!(write_vm_ptr(&mut buf, 5), Ok(()));
    assert_eq!(buf, [0, 0, 0, 5]);
}

#[test]
fn write_u32_partial_buffer_writes_leading_bytes() {
    let mut buf = [0u8; 2];
    assert_eq!(write_u32(&mut buf, 0x0102_0304), Err(ExecError::BorderAccess));
    assert_eq!(buf, [1, 2]);
}

#[test]
fn read_bytes_takes_a_prefix() {
    assert_eq!(read_bytes(&[1, 2, 3, 4], 2), Ok(&[1u8, 2u8][..]));
    assert_eq!(read_bytes(&[1, 2], 0), Ok(&[][..]));
    assert_eq!(read_bytes(&[1, 2], 3), Err(ExecError::BorderAccess));
}
