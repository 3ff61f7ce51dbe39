use vstd::prelude::*;

use crate::error::CodecError;
use crate::variable_byte_integer::{lemma_vbi_parse_rec_bounds, vbi_parse, vbi_parse_rec};
use crate::wire::{u16_from_be, u32_from_be};

verus! {

/// A position-tracked reading view over a byte buffer: each read hands back
/// the value at the current position and advances by the value's width,
/// or reports `EndOfBuffer` and stays where it was.
pub struct BuffReader {
    /// The bytes being decoded; the reader owns them for the call's duration.
    pub buffer: Vec<u8>,
    /// Count of bytes consumed so far.
    pub position: usize,
}

impl BuffReader {
    /// The position has not passed the end of the buffer.
    pub open spec fn wf(&self) -> bool {
        self.position <= self.buffer@.len()
    }

    /// The bytes not yet consumed.
    pub open spec fn remaining(&self) -> Seq<u8> {
        self.buffer@.skip(self.position as int)
    }

    /// A reader standing at the start of `buffer`.
    pub fn new(buffer: Vec<u8>) -> (r: BuffReader)
        ensures
            r.wf(),
            r.buffer@ == buffer@,
            r.position == 0,
    {
        BuffReader { buffer, position: 0 }
    }

    /// Read one byte.
    pub fn read_u8(&mut self) -> (r: Result<u8, CodecError>)
        requires
            old(self).wf(),
        ensures
            final(self).wf(),
            final(self).buffer@ == old(self).buffer@,
            old(self).remaining().len() >= 1 ==> r == Ok::<u8, CodecError>(
                old(self).remaining()[0],
            ) && final(self).position == old(self).position + 1,
            old(self).remaining().len() == 0 ==> r == Err::<u8, CodecError>(
                CodecError::EndOfBuffer,
            ) && final(self).position == old(self).position,
    {
        if self.position < self.buffer.len() {
            let b = self.buffer[self.position];
            self.position = self.position + 1;
            Ok(b)
        } else {
            Err(CodecError::EndOfBuffer)
        }
    }

    /// Read a two-byte integer in network byte order.
    pub fn read_u16(&mut self) -> (r: Result<u16, CodecError>)
        requires
            old(self).wf(),
        ensures
            final(self).wf(),
            final(self).buffer@ == old(self).buffer@,
            old(self).remaining().len() >= 2 ==> r == Ok::<u16, CodecError>(
                u16_from_be(old(self).remaining()[0], old(self).remaining()[1]),
            ) && final(self).position == old(self).position + 2,
            old(self).remaining().len() < 2 ==> r == Err::<u16, CodecError>(
                CodecError::EndOfBuffer,
            ) && final(self).position == old(self).position,
    {
        if self.buffer.len() - self.position < 2 {
            return Err(CodecError::EndOfBuffer);
        }
        let hi = self.buffer[self.position];
        let lo = self.buffer[self.position + 1];
        self.position = self.position + 2;
        Ok((hi as u16) * 256 + (lo as u16))
    }

    /// Read a four-byte integer in network byte order.
    pub fn read_u32(&mut self) -> (r: Result<u32, CodecError>)
        requires
            old(self).wf(),
        ensures
            final(self).wf(),
            final(self).buffer@ == old(self).buffer@,
            old(self).remaining().len() >= 4 ==> r == Ok::<u32, CodecError>(
                u32_from_be(
                    old(self).remaining()[0],
                    old(self).remaining()[1],
                    old(self).remaining()[2],
                    old(self).remaining()[3],
                ),
            ) && final(self).position == old(self).position + 4,
            old(self).remaining().len() < 4 ==> r == Err::<u32, CodecError>(
                CodecError::EndOfBuffer,
            ) && final(self).position == old(self).position,
    {
        if self.buffer.len() - self.position < 4 {
            return Err(CodecError::EndOfBuffer);
        }
        let b0 = self.buffer[self.position];
        let b1 = self.buffer[self.position + 1];
        let b2 = self.buffer[self.position + 2];
        let b3 = self.buffer[self.position + 3];
        self.position = self.position + 4;
        Ok((b0 as u32) * 0x1000000 + (b1 as u32) * 0x10000 + (b2 as u32) * 256 + (b3 as u32))
    }

    /// Copy out the next `n` bytes.
    pub fn read_bytes(&mut self, n: usize) -> (r: Result<Vec<u8>, CodecError>)
        requires
            old(self).wf(),
        ensures
            final(self).wf(),
            final(self).buffer@ == old(self).buffer@,
            old(self).remaining().len() >= n ==> (r matches Ok(v) && v@ == old(self).remaining().take(n as int)) && final(self).position == old(self).position + n,
            old(self).remaining().len() < n ==> r == Err::<Vec<u8>, CodecError>(
                CodecError::EndOfBuffer,
            ) && final(self).position == old(self).position,
    {
        if self.buffer.len() - self.position < n {
            return Err(CodecError::EndOfBuffer);
        }
        let blen = self.buffer.len();
        let mut v: Vec<u8> = Vec::new();
        let mut i: usize = 0;
        while i < n
            invariant
                i <= n,
                self.wf(),
                self.buffer@ == old(self).buffer@,
                self.position == old(self).position,
                blen == self.buffer@.len(),
                n <= self.buffer@.len() - self.position,
                v@ == self.remaining().take(i as int),
            decreases n - i,
        {
            v.push(self.buffer[self.position + i]);
            i = i + 1;
            proof {
                assert(v@ =~= self.remaining().take(i as int));
            }
        }
        self.position = self.position + n;
        Ok(v)
    }

    /// Read one variable-byte integer: at most four bytes, base-128 digits
    /// least significant first, the high bit marking continuation.
    pub fn read_variable_byte_int(&mut self) -> (r: Result<u32, CodecError>)
        requires
            old(self).wf(),
        ensures
            final(self).wf(),
            final(self).buffer@ == old(self).buffer@,
            (match vbi_parse(old(self).remaining()) {
                Ok((v, n)) => r == Ok::<u32, CodecError>(v as u32) && final(self).position == old(self).position + n,
                Err(e) => r == Err::<u32, CodecError>(e) && final(self).position >= old(self).position,
            }),
    {
        self.read_vbi_rec(4)
    }

    fn read_vbi_rec(&mut self, rem: u8) -> (r: Result<u32, CodecError>)
        requires
            old(self).wf(),
            1 <= rem <= 4,
        ensures
            final(self).wf(),
            final(self).buffer@ == old(self).buffer@,
            (match vbi_parse_rec(old(self).remaining(), rem as nat) {
                Ok((v, n)) => r == Ok::<u32, CodecError>(v as u32) && final(self).position == old(self).position + n,
                Err(e) => r == Err::<u32, CodecError>(e) && final(self).position >= old(self).position,
            }),
        decreases rem,
    {
        let b = match self.read_u8() {
            Ok(b) => b,
            Err(e) => {
                return Err(e);
            },
        };
        if b < 128 {
            return Ok(b as u32);
        }
        if rem == 1 {
            return Err(CodecError::MalformedVariableInt);
        }
        proof {
            assert(self.remaining() =~= old(self).remaining().skip(1));
            lemma_vbi_parse_rec_bounds(self.remaining(), (rem - 1) as nat);
        }
        match self.read_vbi_rec(rem - 1) {
            Ok(v) => Ok(((b - 128) as u32) + 128 * v),
            Err(e) => Err(e),
        }
    }
}

} // verus!
