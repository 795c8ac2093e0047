//! A forward-only cursor over a byte slice.
use vstd::prelude::*;

use crate::bigendian::{be_value, pow256, lemma_be_value_push, lemma_pow256_mono, lemma_pow256_values, lemma_be_value_bound};
use crate::error::IoError;

verus! {

/// The number of bytes from `p` to the end of `s` (zero past the end).
pub open spec fn remaining_after(s: Seq<u8>, p: int) -> int {
    if p <= s.len() {
        s.len() - p
    } else {
        0
    }
}

/// The big-endian number in the `n` bytes of `s` at `p`, if they are there.
pub open spec fn spec_read_be(s: Seq<u8>, p: int, n: int) -> Option<nat> {
    if 0 <= p && 0 <= n && p + n <= s.len() {
        Some(be_value(s.subrange(p, p + n)))
    } else {
        None
    }
}

/// `v` read as a 16-bit two's complement number.
pub open spec fn signed16(v: nat) -> int {
    if v >= 0x8000 {
        v - 0x1_0000
    } else {
        v as int
    }
}

/// `v` read as a 32-bit two's complement number.
pub open spec fn signed32(v: nat) -> int {
    if v >= 0x8000_0000 {
        v - 0x1_0000_0000
    } else {
        v as int
    }
}

/// A cursor over a borrowed byte slice.
pub struct Cur<'a> {
    /// Backing buffer (borrowed).
    b: &'a [u8],
    /// Current cursor position (byte offset into `b`).
    i: usize,
}

impl<'a> Cur<'a> {
    #[verifier::type_invariant]
    spec fn inv(self) -> bool {
        self.i <= self.b@.len()
    }

    /// The bytes the cursor runs over.
    pub closed spec fn bytes(&self) -> Seq<u8> {
        self.b@
    }

    /// The current position.
    pub closed spec fn pos(&self) -> int {
        self.i as int
    }

    /// Create a new cursor over `b`, starting at position 0.
    pub fn new(b: &'a [u8]) -> (c: Self)
        ensures
            c.bytes() == b@,
            c.pos() == 0,
    {
        Self { b, i: 0 }
    }

    /// Number of bytes remaining from the current position to the end.
    pub fn remaining(&self) -> (n: usize)
        ensures
            n == remaining_after(self.bytes(), self.pos()),
            n <= self.bytes().len(),
            0 <= self.pos() <= self.bytes().len(),
    {
        proof {
            use_type_invariant(self);
        }
        self.b.len().saturating_sub(self.i)
    }

    /// Ensure at least `n` bytes remain, otherwise return `NotEnoughBytes`.
    pub fn need(&self, n: usize) -> (r: Result<(), IoError>)
        ensures
            0 <= self.pos() <= self.bytes().len(),
            r is Ok <==> self.pos() + n <= self.bytes().len(),
            r is Err ==> r == Err::<(), IoError>(IoError::NotEnoughBytes),
    {
        if self.remaining() < n {
            return Err(IoError::NotEnoughBytes);
        }
        Ok(())
    }

    /// Take `n` bytes from the current position and advance the cursor by `n`.
    pub fn take(&mut self, n: usize) -> (r: Result<&'a [u8], IoError>)
        ensures
            final(self).bytes() == old(self).bytes(),
            0 <= old(self).pos(),
            0 <= final(self).pos() <= final(self).bytes().len(),
            match r {
                Ok(s) => {
                    &&& old(self).pos() + n <= old(self).bytes().len()
                    &&& s@ == old(self).bytes().subrange(old(self).pos(), old(self).pos() + n)
                    &&& final(self).pos() == old(self).pos() + n
                },
                Err(e) => {
                    &&& old(self).pos() + n > old(self).bytes().len()
                    &&& e == IoError::NotEnoughBytes
                    &&& final(self).pos() == old(self).pos()
                },
            },
    {
        proof {
            use_type_invariant(&*self);
        }
        let len = self.b.len();
        if self.remaining() < n {
            return Err(IoError::NotEnoughBytes);
        }
        assert(self.i + n <= len);
        let s = vstd::slice::slice_subrange(self.b, self.i, self.i + n);
        self.i = self.i + n;
        Ok(s)
    }

    /// Read an `n`-byte big-endian unsigned number and advance by `n` bytes.
    fn read_be(&mut self, n: usize) -> (r: Result<u64, IoError>)
        requires
            n <= 8,
        ensures
            final(self).bytes() == old(self).bytes(),
            0 <= old(self).pos(),
            0 <= final(self).pos() <= final(self).bytes().len(),
            match spec_read_be(old(self).bytes(), old(self).pos(), n as int) {
                Some(v) => (r matches Ok(x) && x == v) && v < pow256(n as nat)
                    && final(self).pos() == old(self).pos() + n,
                None => r == Err::<u64, IoError>(IoError::NotEnoughBytes)
                    && final(self).pos() == old(self).pos(),
            },
    {
        let ghost start = self.pos();
        proof {
            use_type_invariant(&*self);
        }
        let s = self.take(n)?;
        let mut acc: u64 = 0;
        let mut k: usize = 0;
        while k < n
            invariant
                k <= n <= 8,
                s@.len() == n,
                acc as nat == be_value(s@.take(k as int)),
                acc < pow256(k as nat),
            decreases n - k,
        {
            proof {
                lemma_be_value_push(s@.take(k as int), s@[k as int]);
                assert(s@.take(k as int).push(s@[k as int]) =~= s@.take(k + 1));
                lemma_pow256_mono(k as nat, 7);
                lemma_pow256_values();
            }
            acc = acc * 256 + s[k] as u64;
            k = k + 1;
        }
        proof {
            assert(s@.take(n as int) =~= s@);
            lemma_be_value_bound(s@);
        }
        Ok(acc)
    }

    /// Read a `u8` and advance by 1 byte.
    pub fn u8(&mut self) -> (r: Result<u8, IoError>)
        ensures
            final(self).bytes() == old(self).bytes(),
            0 <= old(self).pos(),
            0 <= final(self).pos() <= final(self).bytes().len(),
            match spec_read_be(old(self).bytes(), old(self).pos(), 1) {
                Some(v) => (r matches Ok(x) && x == v) && final(self).pos() == old(self).pos() + 1,
                None => r == Err::<u8, IoError>(IoError::NotEnoughBytes) && final(self).pos() == old(self).pos(),
            },
    {
        let v = self.read_be(1)?;
        proof {
            lemma_pow256_values();
        }
        Ok(v as u8)
    }

    /// Read a big-endian `u16` and advance by 2 bytes.
    pub fn u16(&mut self) -> (r: Result<u16, IoError>)
        ensures
            final(self).bytes() == old(self).bytes(),
            0 <= old(self).pos(),
            0 <= final(self).pos() <= final(self).bytes().len(),
            match spec_read_be(old(self).bytes(), old(self).pos(), 2) {
                Some(v) => (r matches Ok(x) && x == v) && final(self).pos() == old(self).pos() + 2,
                None => r == Err::<u16, IoError>(IoError::NotEnoughBytes) && final(self).pos() == old(self).pos(),
            },
    {
        let v = self.read_be(2)?;
        proof {
            lemma_pow256_values();
        }
        Ok(v as u16)
    }

    /// Read a big-endian `u32` and advance by 4 bytes.
    pub fn u32(&mut self) -> (r: Result<u32, IoError>)
        ensures
            final(self).bytes() == old(self).bytes(),
            0 <= old(self).pos(),
            0 <= final(self).pos() <= final(self).bytes().len(),
            match spec_read_be(old(self).bytes(), old(self).pos(), 4) {
                Some(v) => (r matches Ok(x) && x == v) && final(self).pos() == old(self).pos() + 4,
                None => r == Err::<u32, IoError>(IoError::NotEnoughBytes) && final(self).pos() == old(self).pos(),
            },
    {
        let v = self.read_be(4)?;
        proof {
            lemma_pow256_values();
        }
        Ok(v as u32)
    }

    /// Read a big-endian `u64` and advance by 8 bytes.
    pub fn u64(&mut self) -> (r: Result<u64, IoError>)
        ensures
            final(self).bytes() == old(self).bytes(),
            0 <= old(self).pos(),
            0 <= final(self).pos() <= final(self).bytes().len(),
            match spec_read_be(old(self).bytes(), old(self).pos(), 8) {
                Some(v) => (r matches Ok(x) && x == v) && final(self).pos() == old(self).pos() + 8,
                None => r == Err::<u64, IoError>(IoError::NotEnoughBytes) && final(self).pos() == old(self).pos(),
            },
    {
        self.read_be(8)
    }

    /// Read a big-endian `i16` and advance by 2 bytes.
    pub fn i16(&mut self) -> (r: Result<i16, IoError>)
        ensures
            final(self).bytes() == old(self).bytes(),
            0 <= old(self).pos(),
            0 <= final(self).pos() <= final(self).bytes().len(),
            match spec_read_be(old(self).bytes(), old(self).pos(), 2) {
                Some(v) => (r matches Ok(x) && x == signed16(v)) && final(self).pos() == old(self).pos() + 2,
                None => r == Err::<i16, IoError>(IoError::NotEnoughBytes) && final(self).pos() == old(self).pos(),
            },
    {
        let v = self.u16()?;
        if v >= 0x8000 {
            Ok(((v as i32) - 0x1_0000) as i16)
        } else {
            Ok(v as i16)
        }
    }

    /// Read a big-endian `i32` and advance by 4 bytes.
    pub fn i32(&mut self) -> (r: Result<i32, IoError>)
        ensures
            final(self).bytes() == old(self).bytes(),
            0 <= old(self).pos(),
            0 <= final(self).pos() <= final(self).bytes().len(),
            match spec_read_be(old(self).bytes(), old(self).pos(), 4) {
                Some(v) => (r matches Ok(x) && x == signed32(v)) && final(self).pos() == old(self).pos() + 4,
                None => r == Err::<i32, IoError>(IoError::NotEnoughBytes) && final(self).pos() == old(self).pos(),
            },
    {
        let v = self.u32()?;
        if v >= 0x8000_0000 {
            Ok(((v as i64) - 0x1_0000_0000) as i32)
        } else {
            Ok(v as i32)
        }
    }
}

} // verus!
