use vstd::prelude::*;

use crate::error::CodecError;
use crate::variable_byte_integer::{
    vbi_bytes, vbi_width, VariableByteIntegerEncoder, VARIABLE_BYTE_INT_MAX,
};
use crate::wire::{u16_be_bytes, u32_be_bytes};

verus! {

/// A position-tracked writing view over a fixed-capacity byte buffer: each
/// write appends at the current position and advances by the value's width.
/// The capacity is fixed at construction; a write past it is refused with
/// `EndOfBuffer` and changes nothing.
pub struct BuffWriter {
    /// The bytes produced so far, in order.
    pub buffer: Vec<u8>,
    /// The fixed buffer size that writes may not pass.
    pub capacity: usize,
}

impl BuffWriter {
    /// The bytes produced have not passed the fixed capacity.
    pub open spec fn wf(&self) -> bool {
        self.buffer@.len() <= self.capacity
    }

    /// Room still available.
    pub open spec fn space(&self) -> int {
        self.capacity - self.buffer@.len()
    }

    /// An empty writer over a buffer of `capacity` bytes.
    pub fn new(capacity: usize) -> (r: BuffWriter)
        ensures
            r.wf(),
            r.buffer@ == Seq::<u8>::empty(),
            r.capacity == capacity,
    {
        BuffWriter { buffer: Vec::new(), capacity }
    }

    /// Total bytes produced so far.
    pub fn position(&self) -> (r: usize)
        ensures
            r == self.buffer@.len(),
    {
        self.buffer.len()
    }

    /// Append one byte.
    pub fn write_u8(&mut self, value: u8) -> (r: Result<(), CodecError>)
        requires
            old(self).wf(),
        ensures
            final(self).wf(),
            final(self).capacity == old(self).capacity,
            old(self).space() >= 1 ==> r == Ok::<(), CodecError>(()) && final(self).buffer@ == old(self).buffer@.push(value),
            old(self).space() < 1 ==> r == Err::<(), CodecError>(CodecError::EndOfBuffer) && final(self).buffer@ == old(self).buffer@,
    {
        if self.buffer.len() < self.capacity {
            self.buffer.push(value);
            Ok(())
        } else {
            Err(CodecError::EndOfBuffer)
        }
    }

    /// Append a two-byte integer in network byte order.
    pub fn write_u16(&mut self, value: u16) -> (r: Result<(), CodecError>)
        requires
            old(self).wf(),
        ensures
            final(self).wf(),
            final(self).capacity == old(self).capacity,
            old(self).space() >= 2 ==> r == Ok::<(), CodecError>(()) && final(self).buffer@ == old(self).buffer@ + u16_be_bytes(value),
            old(self).space() < 2 ==> r == Err::<(), CodecError>(CodecError::EndOfBuffer) && final(self).buffer@ == old(self).buffer@,
    {
        if self.capacity - self.buffer.len() < 2 {
            return Err(CodecError::EndOfBuffer);
        }
        self.buffer.push((value / 256) as u8);
        self.buffer.push((value % 256) as u8);
        proof {
            assert(self.buffer@ =~= old(self).buffer@ + u16_be_bytes(value));
        }
        Ok(())
    }

    /// Append a four-byte integer in network byte order.
    pub fn write_u32(&mut self, value: u32) -> (r: Result<(), CodecError>)
        requires
            old(self).wf(),
        ensures
            final(self).wf(),
            final(self).capacity == old(self).capacity,
            old(self).space() >= 4 ==> r == Ok::<(), CodecError>(()) && final(self).buffer@ == old(self).buffer@ + u32_be_bytes(value),
            old(self).space() < 4 ==> r == Err::<(), CodecError>(CodecError::EndOfBuffer) && final(self).buffer@ == old(self).buffer@,
    {
        if self.capacity - self.buffer.len() < 4 {
            return Err(CodecError::EndOfBuffer);
        }
        self.buffer.push((value / 0x1000000) as u8);
        self.buffer.push(((value / 0x10000) % 256) as u8);
        self.buffer.push(((value / 256) % 256) as u8);
        self.buffer.push((value % 256) as u8);
        proof {
            assert(self.buffer@ =~= old(self).buffer@ + u32_be_bytes(value));
        }
        Ok(())
    }

    /// Append all of `bytes`.
    pub fn write_slice(&mut self, bytes: &Vec<u8>) -> (r: Result<(), CodecError>)
        requires
            old(self).wf(),
        ensures
            final(self).wf(),
            final(self).capacity == old(self).capacity,
            old(self).space() >= bytes@.len() ==> r == Ok::<(), CodecError>(()) && final(self).buffer@ == old(self).buffer@ + bytes@,
            old(self).space() < bytes@.len() ==> r == Err::<(), CodecError>(
                CodecError::EndOfBuffer,
            ) && final(self).buffer@ == old(self).buffer@,
    {
        if self.capacity - self.buffer.len() < bytes.len() {
            return Err(CodecError::EndOfBuffer);
        }
        let n = bytes.len();
        let mut i: usize = 0;
        while i < n
            invariant
                i <= n,
                n == bytes@.len(),
                n <= self.capacity - old(self).buffer@.len(),
                self.capacity == old(self).capacity,
                self.buffer@ == old(self).buffer@ + bytes@.take(i as int),
            decreases n - i,
        {
            self.buffer.push(bytes[i]);
            i = i + 1;
            proof {
                assert(self.buffer@ =~= old(self).buffer@ + bytes@.take(i as int));
            }
        }
        proof {
            assert(bytes@.take(n as int) =~= bytes@);
        }
        Ok(())
    }

    /// Append the variable-byte encoding of `value`. A value past the
    /// scheme's range is refused with `MalformedVariableInt`.
    pub fn write_variable_byte_int(&mut self, value: u32) -> (r: Result<(), CodecError>)
        requires
            old(self).wf(),
        ensures
            final(self).wf(),
            final(self).capacity == old(self).capacity,
            value > VARIABLE_BYTE_INT_MAX ==> r == Err::<(), CodecError>(
                CodecError::MalformedVariableInt,
            ) && final(self).buffer@ == old(self).buffer@,
            value <= VARIABLE_BYTE_INT_MAX && old(self).space() >= vbi_width(value as nat) ==> r
                == Ok::<(), CodecError>(()) && final(self).buffer@ == old(self).buffer@ + vbi_bytes(
                value as nat,
            ),
            value <= VARIABLE_BYTE_INT_MAX && old(self).space() < vbi_width(value as nat) ==> r
                == Err::<(), CodecError>(CodecError::EndOfBuffer) && final(self).buffer@ == old(self).buffer@,
    {
        let enc = match VariableByteIntegerEncoder::encode(value) {
            Ok(a) => a,
            Err(e) => {
                return Err(e);
            },
        };
        let width = VariableByteIntegerEncoder::len(enc);
        if self.capacity - self.buffer.len() < width {
            return Err(CodecError::EndOfBuffer);
        }
        let mut i: usize = 0;
        while i < width
            invariant
                i <= width,
                width == vbi_width(value as nat),
                width <= self.capacity - old(self).buffer@.len(),
                self.capacity == old(self).capacity,
                enc@.take(width as int) == vbi_bytes(value as nat),
                enc@.len() == 4,
                self.buffer@ == old(self).buffer@ + enc@.take(i as int),
            decreases width - i,
        {
            self.buffer.push(enc[i]);
            i = i + 1;
            proof {
                assert(self.buffer@ =~= old(self).buffer@ + enc@.take(i as int));
            }
        }
        Ok(())
    }
}

} // verus!
