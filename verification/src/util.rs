//! Pointer-width conversions and bounds-checked buffer accessors shared by
//! the codec and the interpreter. Multi-byte values are big-endian.

use vstd::prelude::*;
use vstd::slice::slice_subrange;

use crate::VmPtr;
use crate::errors::ExecError;

verus! {

/// The big-endian bytes of a 16 bit value.
pub open spec fn half_bytes(v: u16) -> Seq<u8> {
    seq![((v >> 8) & 0xff) as u8, (v & 0xff) as u8]
}

/// The 16 bit value read big-endian from the first two bytes.
pub open spec fn half_value(s: Seq<u8>) -> u16
    recommends
        s.len() >= 2,
{
    (s[0] as u16) << 8 | (s[1] as u16)
}

/// The big-endian bytes of an address word.
pub open spec fn word_bytes(v: u32) -> Seq<u8> {
    seq![
        ((v >> 24) & 0xff) as u8,
        ((v >> 16) & 0xff) as u8,
        ((v >> 8) & 0xff) as u8,
        (v & 0xff) as u8,
    ]
}

/// The address word read big-endian from the first four bytes.
pub open spec fn word_value(s: Seq<u8>) -> u32
    recommends
        s.len() >= 4,
{
    (s[0] as u32) << 24 | (s[1] as u32) << 16 | (s[2] as u32) << 8 | (s[3] as u32)
}

/// Reading back the big-endian bytes of a word yields the word, and writing
/// the bytes of a read-back word restores the bytes.
pub proof fn lemma_word_round_trip()
    ensures
        forall|v: u32|
            {
                &&& (#[trigger] word_bytes(v)).len() == 4
                &&& word_value(word_bytes(v)) == v
            },
        forall|s: Seq<u8>| s.len() == 4 ==> #[trigger] word_bytes(word_value(s)) == s,
{
    assert forall|v: u32|
        {
            &&& (#[trigger] word_bytes(v)).len() == 4
            &&& word_value(word_bytes(v)) == v
        } by {
        assert(((v >> 24) & 0xff) < 256 && ((v >> 16) & 0xff) < 256 && ((v >> 8) & 0xff) < 256
            && (v & 0xff) < 256) by (bit_vector);
        assert(((v >> 24) & 0xff) << 24 | ((v >> 16) & 0xff) << 16 | ((v >> 8) & 0xff) << 8 | (v
            & 0xff) == v) by (bit_vector);
    }
    assert forall|s: Seq<u8>| s.len() == 4 implies #[trigger] word_bytes(word_value(s)) == s by {
        let b0 = s[0] as u32;
        let b1 = s[1] as u32;
        let b2 = s[2] as u32;
        let b3 = s[3] as u32;
        let v = word_value(s);
        assert((b0 < 256 && b1 < 256 && b2 < 256 && b3 < 256 && v == b0 << 24 | b1 << 16 | b2 << 8
            | b3) ==> ((v >> 24) & 0xff == b0 && (v >> 16) & 0xff == b1 && (v >> 8) & 0xff == b2
            && v & 0xff == b3)) by (bit_vector);
        assert(word_bytes(word_value(s)) =~= s);
    }
}

/// As [`lemma_word_round_trip`], for 16 bit values.
pub proof fn lemma_half_round_trip()
    ensures
        forall|v: u16|
            {
                &&& (#[trigger] half_bytes(v)).len() == 2
                &&& half_value(half_bytes(v)) == v
            },
        forall|s: Seq<u8>| s.len() == 2 ==> #[trigger] half_bytes(half_value(s)) == s,
{
    assert forall|v: u16|
        {
            &&& (#[trigger] half_bytes(v)).len() == 2
            &&& half_value(half_bytes(v)) == v
        } by {
        assert(((v >> 8) & 0xff) < 256 && (v & 0xff) < 256) by (bit_vector);
        assert(((v >> 8) & 0xff) << 8 | (v & 0xff) == v) by (bit_vector);
    }
    assert forall|s: Seq<u8>| s.len() == 2 implies #[trigger] half_bytes(half_value(s)) == s by {
        let b0 = s[0] as u16;
        let b1 = s[1] as u16;
        let v = half_value(s);
        assert((b0 < 256 && b1 < 256 && v == b0 << 8 | b1) ==> ((v >> 8) & 0xff == b0 && v & 0xff
            == b1)) by (bit_vector);
        assert(half_bytes(half_value(s)) =~= s);
    }
}

/// The sequence `s` with the bytes of `b` overwriting those at `at`.
pub open spec fn splice(s: Seq<u8>, at: int, b: Seq<u8>) -> Seq<u8>
    recommends
        0 <= at,
        at + b.len() <= s.len(),
{
    s.take(at) + b + s.skip(at + b.len())
}

/// Get a native pointer from a [`VmPtr`].
pub fn native_ptr(ptr: VmPtr) -> (r: usize)
    ensures
        r == ptr,
{
    ptr as usize
}

/// Get a [`VmPtr`] from a native pointer.
pub fn vm_ptr(ptr: usize) -> (r: VmPtr)
    requires
        ptr <= u32::MAX,
    ensures
        r == ptr,
{
    ptr as u32
}

/// Read the first byte of a buffer.
pub fn read_u8(bytes: &[u8]) -> (r: Result<u8, ExecError>)
    ensures
        bytes@.len() >= 1 ==> r == Ok::<u8, ExecError>(bytes@[0]),
        bytes@.len() == 0 ==> r == Err::<u8, ExecError>(ExecError::BorderAccess),
{
    if bytes.len() >= 1 {
        Ok(bytes[0])
    } else {
        Err(ExecError::BorderAccess)
    }
}

/// Write a byte to the start of a buffer.
pub fn write_u8(buffer: &mut [u8], value: u8) -> (r: Result<(), ExecError>)
    ensures
        old(buffer)@.len() >= 1 ==> r == Ok::<(), ExecError>(())
            && final(buffer)@ == old(buffer)@.update(0, value),
        old(buffer)@.len() == 0 ==> r == Err::<(), ExecError>(ExecError::BorderAccess)
            && final(buffer)@ == old(buffer)@,
{
    if buffer.len() >= 1 {
        buffer[0] = value;
        Ok(())
    } else {
        Err(ExecError::BorderAccess)
    }
}

/// Write a big-endian `u16` to the start of a buffer. A buffer of one byte
/// receives the high byte before the write fails.
pub fn write_u16(buffer: &mut [u8], value: u16) -> (r: Result<(), ExecError>)
    ensures
        old(buffer)@.len() >= 2 ==> r == Ok::<(), ExecError>(())
            && final(buffer)@ == splice(old(buffer)@, 0, half_bytes(value)),
        old(buffer)@.len() < 2 ==> r == Err::<(), ExecError>(ExecError::BorderAccess)
            && final(buffer)@ == splice(old(buffer)@, 0, half_bytes(value).take(old(buffer)@.len() as int)),
{
    proof {
        lemma_half_round_trip();
    }
    if buffer.len() >= 2 {
        buffer[0] = ((value >> 8) & 0xff) as u8;
        buffer[1] = (value & 0xff) as u8;
        assert(buffer@ =~= splice(old(buffer)@, 0, half_bytes(value)));
        Ok(())
    } else {
        if buffer.len() == 1 {
            buffer[0] = ((value >> 8) & 0xff) as u8;
        }
        assert(buffer@ =~= splice(old(buffer)@, 0, half_bytes(value).take(old(buffer)@.len() as int)));
        Err(ExecError::BorderAccess)
    }
}

/// Write a big-endian `u32` to the start of a buffer. A shorter buffer
/// receives the leading bytes before the write fails.
pub fn write_u32(buffer: &mut [u8], value: u32) -> (r: Result<(), ExecError>)
    ensures
        old(buffer)@.len() >= 4 ==> r == Ok::<(), ExecError>(())
            && final(buffer)@ == splice(old(buffer)@, 0, word_bytes(value)),
        old(buffer)@.len() < 4 ==> r == Err::<(), ExecError>(ExecError::BorderAccess)
            && final(buffer)@ == splice(old(buffer)@, 0, word_bytes(value).take(old(buffer)@.len() as int)),
{
    proof {
        lemma_word_round_trip();
    }
    let n = buffer.len();
    if n >= 1 {
        buffer[0] = ((value >> 24) & 0xff) as u8;
    }
    if n >= 2 {
        buffer[1] = ((value >> 16) & 0xff) as u8;
    }
    if n >= 3 {
        buffer[2] = ((value >> 8) & 0xff) as u8;
    }
    if n >= 4 {
        buffer[3] = (value & 0xff) as u8;
        assert(buffer@ =~= splice(old(buffer)@, 0, word_bytes(value)));
        Ok(())
    } else {
        assert(buffer@ =~= splice(old(buffer)@, 0, word_bytes(value).take(old(buffer)@.len() as int)));
        Err(ExecError::BorderAccess)
    }
}

/// Write a big-endian [`VmPtr`] to the start of a buffer.
pub fn write_vm_ptr(buffer: &mut [u8], value: VmPtr) -> (r: Result<(), ExecError>)
    ensures
        old(buffer)@.len() >= 4 ==> r == Ok::<(), ExecError>(())
            && final(buffer)@ == splice(old(buffer)@, 0, word_bytes(value)),
        old(buffer)@.len() < 4 ==> r == Err::<(), ExecError>(ExecError::BorderAccess)
            && final(buffer)@ == splice(old(buffer)@, 0, word_bytes(value).take(old(buffer)@.len() as int)),
{
    write_u32(buffer, value)
}

/// Append the big-endian bytes of a word to a byte vector.
pub(crate) fn push_word(bytes: &mut Vec<u8>, value: u32)
    ensures
        final(bytes)@ == old(bytes)@ + word_bytes(value),
{
    bytes.push(((value >> 24) & 0xff) as u8);
    bytes.push(((value >> 16) & 0xff) as u8);
    bytes.push(((value >> 8) & 0xff) as u8);
    bytes.push((value & 0xff) as u8);
    assert(bytes@ =~= old(bytes)@ + word_bytes(value));
}

/// Read a big-endian `u16` from the first two bytes of a buffer.
pub fn read_u16(bytes: &[u8]) -> (r: Result<u16, ExecError>)
    ensures
        bytes@.len() >= 2 ==> r == Ok::<u16, ExecError>(half_value(bytes@)),
        bytes@.len() < 2 ==> r == Err::<u16, ExecError>(ExecError::BorderAccess),
{
    if bytes.len() >= 2 {
        Ok((bytes[0] as u16) << 8 | (bytes[1] as u16))
    } else {
        Err(ExecError::BorderAccess)
    }
}

/// Read a big-endian `u32` from the first four bytes of a buffer.
pub fn read_u32(bytes: &[u8]) -> (r: Result<u32, ExecError>)
    ensures
        bytes@.len() >= 4 ==> r == Ok::<u32, ExecError>(word_value(bytes@)),
        bytes@.len() < 4 ==> r == Err::<u32, ExecError>(ExecError::BorderAccess),
{
    if bytes.len() >= 4 {
        Ok(
            (bytes[0] as u32) << 24 | (bytes[1] as u32) << 16 | (bytes[2] as u32) << 8 | (
            bytes[3] as u32),
        )
    } else {
        Err(ExecError::BorderAccess)
    }
}

/// Read a big-endian [`VmPtr`] from the first bytes of a buffer.
pub fn read_vm_ptr(bytes: &[u8]) -> (r: Result<VmPtr, ExecError>)
    ensures
        bytes@.len() >= 4 ==> r == Ok::<VmPtr, ExecError>(word_value(bytes@)),
        bytes@.len() < 4 ==> r == Err::<VmPtr, ExecError>(ExecError::BorderAccess),
{
    read_u32(bytes)
}

/// Read the given number of leading bytes from a buffer.
pub fn read_bytes<'a>(buffer: &'a [u8], len: usize) -> (r: Result<&'a [u8], ExecError>)
    ensures
        len <= buffer@.len() ==> (r matches Ok(s) && s@ == buffer@.take(len as int)),
        len > buffer@.len() ==> r == Err::<&'a [u8], ExecError>(ExecError::BorderAccess),
{
    if len <= buffer.len() {
        let r = slice_subrange(buffer, 0, len);
        assert(r@ =~= buffer@.take(len as int));
        Ok(r)
    } else {
        Err(ExecError::BorderAccess)
    }
}

} // verus!
