//! In-memory byte sink and source adapters.
//!
//! The codec works on whole in-memory buffers; these two small types
//! stand between it and callers that think in stream terms — a sink
//! that collects what is written into it, and a source that hands out
//! and consumes what it holds.

use vstd::prelude::*;

verus! {

/// A byte sink: everything written lands at the end of
/// `encoded_bytes`, in order, instead of going to an output stream.
pub struct CapnpEncoding {
    pub encoded_bytes: Vec<u8>,
}

impl CapnpEncoding {
    /// Append the whole buffer; every byte is taken.
    pub fn write(&mut self, buf: &[u8]) -> (n: usize)
        ensures
            final(self).encoded_bytes@ == old(self).encoded_bytes@ + buf@,
            n == buf@.len(),
    {
        let mut k: usize = 0;
        while k < buf.len()
            invariant
                k <= buf@.len(),
                self.encoded_bytes@ == old(self).encoded_bytes@ + buf@.subrange(0, k as int),
            decreases buf@.len() - k,
        {
            let b = *vstd::slice::slice_index_get(buf, k);
            self.encoded_bytes.push(b);
            proof {
                assert(self.encoded_bytes@ =~= old(self).encoded_bytes@ + buf@.subrange(
                    0,
                    (k + 1) as int,
                ));
            }
            k = k + 1;
        }
        proof {
            assert(self.encoded_bytes@ =~= old(self).encoded_bytes@ + buf@);
        }
        buf.len()
    }

    /// Nothing is buffered outside `encoded_bytes`, so there is nothing
    /// to flush.
    pub fn flush(&mut self)
        ensures
            final(self).encoded_bytes@ == old(self).encoded_bytes@,
    {
    }
}

/// A byte source: decoders take their input from `bytes_to_decode`
/// instead of an input stream.
pub struct CapnpDecoding {
    pub bytes_to_decode: Vec<u8>,
}

impl CapnpDecoding {
    /// Copy everything the source holds onto the front of `buf`,
    /// returning how many bytes were written. The buffer must be at
    /// least as long as what the source holds.
    pub fn read(&self, buf: &mut Vec<u8>) -> (n: usize)
        requires
            old(buf)@.len() >= self.bytes_to_decode@.len(),
        ensures
            n == self.bytes_to_decode@.len(),
            final(buf)@ == self.bytes_to_decode@ + old(buf)@.subrange(
                self.bytes_to_decode@.len() as int,
                old(buf)@.len() as int,
            ),
    {
        let mut k: usize = 0;
        while k < self.bytes_to_decode.len()
            invariant
                k <= self.bytes_to_decode@.len() <= old(buf)@.len(),
                buf@.len() == old(buf)@.len(),
                forall|j: int| 0 <= j < k ==> buf@[j] == self.bytes_to_decode@[j],
                forall|j: int| k <= j < buf@.len() ==> buf@[j] == old(buf)@[j],
            decreases self.bytes_to_decode@.len() - k,
        {
            let b = self.bytes_to_decode[k];
            buf[k] = b;
            k = k + 1;
        }
        proof {
            assert(buf@ =~= self.bytes_to_decode@ + old(buf)@.subrange(
                self.bytes_to_decode@.len() as int,
                old(buf)@.len() as int,
            ));
        }
        k
    }

    /// Look at everything the source still holds.
    pub fn fill_buf(&self) -> (r: &Vec<u8>)
        ensures
            r@ == self.bytes_to_decode@,
    {
        &self.bytes_to_decode
    }

    /// Drop the first `amt` bytes, just consumed by a decoder.
    pub fn consume(&mut self, amt: usize)
        requires
            amt <= old(self).bytes_to_decode@.len(),
        ensures
            final(self).bytes_to_decode@ == old(self).bytes_to_decode@.subrange(
                amt as int,
                old(self).bytes_to_decode@.len() as int,
            ),
    {
        let mut rest: Vec<u8> = Vec::new();
        let mut k: usize = amt;
        while k < self.bytes_to_decode.len()
            invariant
                amt <= k <= self.bytes_to_decode@.len(),
                self.bytes_to_decode@ == old(self).bytes_to_decode@,
                rest@ == self.bytes_to_decode@.subrange(amt as int, k as int),
            decreases self.bytes_to_decode@.len() - k,
        {
            let b = self.bytes_to_decode[k];
            rest.push(b);
            proof {
                assert(rest@ =~= self.bytes_to_decode@.subrange(amt as int, (k + 1) as int));
            }
            k = k + 1;
        }
        self.bytes_to_decode = rest;
        proof {
            assert(self.bytes_to_decode@ =~= old(self).bytes_to_decode@.subrange(
                amt as int,
                old(self).bytes_to_decode@.len() as int,
            ));
        }
    }
}

} // verus!
