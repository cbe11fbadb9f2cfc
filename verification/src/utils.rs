use vstd::prelude::*;
use vstd::slice::slice_subrange;
use vstd::slice::slice_to_vec;
use crate::error::DecodeError;

verus! {

/// The unsigned 32-bit number that four bytes spell in little-endian order.
pub open spec fn le_u32(b0: u8, b1: u8, b2: u8, b3: u8) -> u32 {
    (b0 as int + 0x100 * (b1 as int) + 0x1_0000 * (b2 as int) + 0x100_0000 * (b3 as int)) as u32
}

/// The little-endian number held by the four bytes of `data` that start at `at`.
pub open spec fn u32_at(data: Seq<u8>, at: int) -> u32
    recommends
        0 <= at,
        at + 4 <= data.len(),
{
    le_u32(data[at], data[at + 1], data[at + 2], data[at + 3])
}

/// Where a seek to `target` ends in data of `len` bytes: at `target` when it
/// lies inside the data or at its end, and nowhere otherwise.
pub open spec fn seek_to(len: nat, target: int) -> Result<nat, DecodeError> {
    if target < 0 {
        Err(DecodeError::IoFailure)
    } else if target > len {
        Err(DecodeError::TruncatedRecord)
    } else {
        Ok(target as nat)
    }
}

/// The `len` bytes of `data` that start at `offset`, when the data holds them.
pub open spec fn bytes_at(data: Seq<u8>, offset: int, len: int) -> Result<Seq<u8>, DecodeError>
    recommends
        0 <= offset,
        0 <= len,
{
    if offset + len > data.len() {
        Err(DecodeError::TruncatedRecord)
    } else {
        Ok(data.subrange(offset, offset + len))
    }
}

/// A read position over the bytes of one file. The position never lies past
/// the end of the bytes.
pub struct Cursor<'a> {
    data: &'a [u8],
    pos: usize,
}

impl<'a> Cursor<'a> {
    #[verifier::type_invariant]
    spec fn in_bounds(self) -> bool {
        self.pos <= self.data@.len()
    }

    /// The bytes that the cursor reads from.
    pub closed spec fn bytes(self) -> Seq<u8> {
        self.data@
    }

    /// The number of bytes between the start of the data and the cursor.
    pub closed spec fn offset(self) -> nat {
        self.pos as nat
    }

    /// A cursor at the first byte of `data`.
    pub fn new(data: &'a [u8]) -> (c: Self)
        ensures
            c.bytes() == data@,
            c.offset() == 0,
    {
        Cursor { data, pos: 0 }
    }

    /// The current position, counted from the start of the data.
    pub fn position(&self) -> (p: u64)
        ensures
            p == self.offset(),
            p <= self.bytes().len(),
    {
        proof {
            use_type_invariant(self);
        }
        self.pos as u64
    }

    /// The number of bytes between the cursor and the end of the data.
    pub fn remaining(&self) -> (n: usize)
        ensures
            n == self.bytes().len() - self.offset(),
    {
        proof {
            use_type_invariant(self);
        }
        self.data.len() - self.pos
    }
}

/// Moves the cursor by `len` bytes, forwards or backwards. The move fails, and
/// leaves the cursor where it was, when it would end before the start of the
/// data or past its end.
pub fn padding(f: &mut Cursor, len: i64) -> (r: Result<(), DecodeError>)
    ensures
        final(f).bytes() == old(f).bytes(),
        match seek_to(old(f).bytes().len(), old(f).offset() + len) {
            Ok(p) => r == Ok::<(), DecodeError>(()) && final(f).offset() == p,
            Err(e) => r == Err::<(), DecodeError>(e) && final(f).offset() == old(f).offset(),
        },
{
    proof {
        use_type_invariant(&*f);
    }
    let target: i128 = f.pos as i128 + len as i128;
    if target < 0 {
        Err(DecodeError::IoFailure)
    } else if target > f.data.len() as i128 {
        Err(DecodeError::TruncatedRecord)
    } else {
        f.pos = target as usize;
        Ok(())
    }
}

/// Moves the cursor to `offset`, counted from the start of the data. The move
/// fails, and leaves the cursor where it was, when `offset` lies past the end.
pub fn go_to(f: &mut Cursor, offset: u64) -> (r: Result<(), DecodeError>)
    ensures
        final(f).bytes() == old(f).bytes(),
        match seek_to(old(f).bytes().len(), offset as int) {
            Ok(p) => r == Ok::<(), DecodeError>(()) && final(f).offset() == p,
            Err(e) => r == Err::<(), DecodeError>(e) && final(f).offset() == old(f).offset(),
        },
{
    if offset > f.data.len() as u64 {
        Err(DecodeError::TruncatedRecord)
    } else {
        f.pos = offset as usize;
        Ok(())
    }
}

/// Reads `len` bytes that start at `offset`, counted from the start of the
/// data. The cursor stays where it was, whether the read succeeds or not.
pub fn read_offset(f: &mut Cursor, offset: u64, len: usize) -> (r: Result<Vec<u8>, DecodeError>)
    ensures
        final(f).bytes() == old(f).bytes(),
        final(f).offset() == old(f).offset(),
        match bytes_at(old(f).bytes(), offset as int, len as int) {
            Ok(b) => r matches Ok(v) && v@ == b,
            Err(e) => r == Err::<Vec<u8>, DecodeError>(e),
        },
{
    let total = f.data.len();
    if offset > total as u64 {
        return Err(DecodeError::TruncatedRecord);
    }
    let start = offset as usize;
    if len > total - start {
        return Err(DecodeError::TruncatedRecord);
    }
    let part = slice_subrange(f.data, start, start + len);
    Ok(slice_to_vec(part))
}

/// Reads the little-endian `u32` under the cursor and moves the cursor past
/// it. When fewer than four bytes are left the read fails and the cursor
/// stays where it was.
pub fn read_u32(f: &mut Cursor) -> (r: Result<u32, DecodeError>)
    ensures
        final(f).bytes() == old(f).bytes(),
        old(f).offset() + 4 <= old(f).bytes().len() ==> r == Ok::<u32, DecodeError>(
            u32_at(old(f).bytes(), old(f).offset() as int),
        ) && final(f).offset() == old(f).offset() + 4,
        old(f).offset() + 4 > old(f).bytes().len() ==> r == Err::<u32, DecodeError>(
            DecodeError::TruncatedRecord,
        ) && final(f).offset() == old(f).offset(),
{
    proof {
        use_type_invariant(&*f);
    }
    if f.data.len() - f.pos < 4 {
        return Err(DecodeError::TruncatedRecord);
    }
    let b0 = f.data[f.pos];
    let b1 = f.data[f.pos + 1];
    let b2 = f.data[f.pos + 2];
    let b3 = f.data[f.pos + 3];
    f.pos = f.pos + 4;
    Ok(b0 as u32 + 0x100 * (b1 as u32) + 0x1_0000 * (b2 as u32) + 0x100_0000 * (b3 as u32))
}

/// Reads the four bytes of a little-endian IEEE 754 single under the cursor
/// and returns them as the number's bit pattern; the cursor moves past them.
/// When fewer than four bytes are left the read fails and the cursor stays
/// where it was.
pub fn read_f32(f: &mut Cursor) -> (r: Result<u32, DecodeError>)
    ensures
        final(f).bytes() == old(f).bytes(),
        old(f).offset() + 4 <= old(f).bytes().len() ==> r == Ok::<u32, DecodeError>(
            u32_at(old(f).bytes(), old(f).offset() as int),
        ) && final(f).offset() == old(f).offset() + 4,
        old(f).offset() + 4 > old(f).bytes().len() ==> r == Err::<u32, DecodeError>(
            DecodeError::TruncatedRecord,
        ) && final(f).offset() == old(f).offset(),
{
    read_u32(f)
}

} // verus!
