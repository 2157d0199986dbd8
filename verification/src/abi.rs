//! Ranges of the memory that is shared with the host.
use vstd::prelude::*;

verus! {

/// A range of bytes.
#[derive(Debug, Clone, Copy, PartialEq, Eq, Structural)]
pub struct BufferRange {
    pub start: u32,
    pub len: u32,
}

/// A range as one number: the start in the upper half, the length in the lower half.
pub open spec fn packed(range: BufferRange) -> u64 {
    (range.start * 0x1_0000_0000 + range.len) as u64
}

/// The range that a number stands for.
pub open spec fn unpacked(descriptor: u64) -> BufferRange {
    BufferRange {
        start: (descriptor / 0x1_0000_0000) as u32,
        len: (descriptor % 0x1_0000_0000) as u32,
    }
}

/// The bytes of a range, if all of them are in the memory.
pub open spec fn bytes_at(memory: Seq<u8>, range: BufferRange) -> Option<Seq<u8>> {
    if range.start + range.len <= memory.len() {
        Some(memory.subrange(range.start as int, range.start + range.len))
    } else {
        None
    }
}

impl BufferRange {
    /// The range with the given start and length.
    pub fn new(start: u32, len: u32) -> (r: Self)
        ensures
            r == (BufferRange { start, len }),
    {
        BufferRange { start, len }
    }

    /// The range as one number.
    pub fn pack(self) -> (r: u64)
        ensures
            r == packed(self),
    {
        self.start as u64 * 0x1_0000_0000 + self.len as u64
    }

    /// The range that a number stands for.
    pub fn from_packed(descriptor: u64) -> (r: Self)
        ensures
            r == unpacked(descriptor),
    {
        BufferRange {
            start: (descriptor / 0x1_0000_0000) as u32,
            len: (descriptor % 0x1_0000_0000) as u32,
        }
    }

    /// The bytes of the range, if all of them are in the memory.
    pub fn slice<'a>(self, memory: &'a [u8]) -> (r: Option<&'a [u8]>)
        ensures
            match r {
                Some(bytes) => bytes_at(memory@, self) == Some(bytes@),
                None => bytes_at(memory@, self) is None,
            },
    {
        let end: u64 = self.start as u64 + self.len as u64;
        if end <= memory.len() as u64 {
            Some(vstd::slice::slice_subrange(memory, self.start as usize, end as usize))
        } else {
            None
        }
    }
}

/// A packed range is read back as it was.
pub proof fn lemma_unpack_reads_back(range: BufferRange)
    ensures
        unpacked(packed(range)) == range,
{
    let d = range.start * 0x1_0000_0000 + range.len;
    assert(d / 0x1_0000_0000 == range.start) by (nonlinear_arith)
        requires
            d == range.start * 0x1_0000_0000 + range.len,
            0 <= range.len < 0x1_0000_0000,
    ;
    assert(d % 0x1_0000_0000 == range.len) by (nonlinear_arith)
        requires
            d == range.start * 0x1_0000_0000 + range.len,
            0 <= range.len < 0x1_0000_0000,
    ;
}

} // verus!
