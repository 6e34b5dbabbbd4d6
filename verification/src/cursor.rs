//! A bounds-checked reader of little-endian data.
use vstd::prelude::*;
use vstd::arithmetic::power2::*;
use vstd::slice::*;
use vstd::utf8::*;
use crate::error::{ErrorView, GgufError, GgufResult};
use crate::text::utf8_string;

verus! {

// ---------------------------------------------------------------------------------------------
// What is in a sequence of bytes
// ---------------------------------------------------------------------------------------------

/// The number that `n` bytes from `pos` on stand for, the lowest byte first.
pub open spec fn le(data: Seq<u8>, pos: int, n: nat) -> nat
    decreases n,
{
    if n == 0 {
        0
    } else {
        data[pos] as nat + 256 * le(data, pos + 1, (n - 1) as nat)
    }
}

/// The number in two's complement: `half` is the first pattern of a negative number.
pub open spec fn signed(n: nat, half: nat) -> int {
    if n < half {
        n as int
    } else {
        n - 2 * half
    }
}

/// What was read and the position behind it, or why it could not be read.
pub type Parsed<T> = Result<(T, int), ErrorView>;

/// The error of a read past the end.
pub open spec fn past_end(data: Seq<u8>, pos: int, required: nat) -> ErrorView {
    ErrorView::OutOfBounds {
        offset: pos as u64,
        required: required as u64,
        file_size: data.len() as u64,
    }
}

/// A number of `n` bytes at `pos`.
pub open spec fn read_uint(data: Seq<u8>, pos: int, n: nat) -> Parsed<nat> {
    if pos + n <= data.len() {
        Ok((le(data, pos, n), pos + n))
    } else {
        Err(past_end(data, pos, n))
    }
}

/// An unsigned number of 8 bits at `pos`.
pub open spec fn read_u8(data: Seq<u8>, pos: int) -> Parsed<u8> {
    match read_uint(data, pos, 1) {
        Ok((v, p)) => Ok((v as u8, p)),
        Err(e) => Err(e),
    }
}

/// A signed number of 8 bits at `pos`.
pub open spec fn read_i8(data: Seq<u8>, pos: int) -> Parsed<i8> {
    match read_uint(data, pos, 1) {
        Ok((v, p)) => Ok((signed(v, 0x80) as i8, p)),
        Err(e) => Err(e),
    }
}

/// An unsigned number of 16 bits at `pos`.
pub open spec fn read_u16(data: Seq<u8>, pos: int) -> Parsed<u16> {
    match read_uint(data, pos, 2) {
        Ok((v, p)) => Ok((v as u16, p)),
        Err(e) => Err(e),
    }
}

/// A signed number of 16 bits at `pos`.
pub open spec fn read_i16(data: Seq<u8>, pos: int) -> Parsed<i16> {
    match read_uint(data, pos, 2) {
        Ok((v, p)) => Ok((signed(v, 0x8000) as i16, p)),
        Err(e) => Err(e),
    }
}

/// An unsigned number of 32 bits at `pos`.
pub open spec fn read_u32(data: Seq<u8>, pos: int) -> Parsed<u32> {
    match read_uint(data, pos, 4) {
        Ok((v, p)) => Ok((v as u32, p)),
        Err(e) => Err(e),
    }
}

/// A signed number of 32 bits at `pos`.
pub open spec fn read_i32(data: Seq<u8>, pos: int) -> Parsed<i32> {
    match read_uint(data, pos, 4) {
        Ok((v, p)) => Ok((signed(v, 0x8000_0000) as i32, p)),
        Err(e) => Err(e),
    }
}

/// An unsigned number of 64 bits at `pos`.
pub open spec fn read_u64(data: Seq<u8>, pos: int) -> Parsed<u64> {
    match read_uint(data, pos, 8) {
        Ok((v, p)) => Ok((v as u64, p)),
        Err(e) => Err(e),
    }
}

/// A signed number of 64 bits at `pos`.
pub open spec fn read_i64(data: Seq<u8>, pos: int) -> Parsed<i64> {
    match read_uint(data, pos, 8) {
        Ok((v, p)) => Ok((signed(v, 0x8000_0000_0000_0000) as i64, p)),
        Err(e) => Err(e),
    }
}

/// A truth value at `pos`: one byte, false only where it is zero.
pub open spec fn read_bool(data: Seq<u8>, pos: int) -> Parsed<bool> {
    match read_uint(data, pos, 1) {
        Ok((v, p)) => Ok((v != 0, p)),
        Err(e) => Err(e),
    }
}

/// A string at `pos`: its length in eight bytes, then its UTF-8 bytes.
pub open spec fn read_string(data: Seq<u8>, pos: int) -> Parsed<Seq<char>> {
    match read_uint(data, pos, 8) {
        Err(e) => Err(e),
        Ok((len, p)) => if p + len > data.len() {
            Err(past_end(data, p, len))
        } else if valid_utf8(data.subrange(p, p + len)) {
            Ok((decode_utf8(data.subrange(p, p + len)), p + len))
        } else {
            Err(ErrorView::InvalidStringLength(len as u64))
        },
    }
}

/// Where a reader stands after it was to read a string at `pos`, whether or not it could.
pub open spec fn string_stop(data: Seq<u8>, pos: int) -> int {
    match read_uint(data, pos, 8) {
        Err(_) => pos,
        Ok((len, p)) => if p + len > data.len() {
            p
        } else {
            p + len
        },
    }
}

/// `n` bytes stand for less than 256^n.
pub proof fn lemma_le_bound(data: Seq<u8>, pos: int, n: nat)
    ensures
        le(data, pos, n) < pow2(8 * n),
    decreases n,
{
    lemma2_to64();
    if n > 0 {
        lemma_le_bound(data, pos + 1, (n - 1) as nat);
        lemma_pow2_adds(8, (8 * (n - 1)) as nat);
        assert(pow2(8) == 256);
    }
}

// ---------------------------------------------------------------------------------------------
// The reader
// ---------------------------------------------------------------------------------------------

/// A position in a sequence of bytes, from which values are read one after the other. A read that
/// would pass the end fails and leaves the position where it is.
pub struct Cursor<'a> {
    data: &'a [u8],
    pos: usize,
}

impl<'a> Cursor<'a> {
    /// All the bytes, read or not.
    pub closed spec fn bytes(&self) -> Seq<u8> {
        self.data@
    }

    /// The position of the next read.
    pub closed spec fn at(&self) -> int {
        self.pos as int
    }

    /// The position is inside the bytes or just behind them.
    pub closed spec fn wf(&self) -> bool {
        self.pos <= self.data@.len()
    }

    /// What every well-formed reader satisfies.
    pub proof fn lemma_wf(&self)
        requires
            self.wf(),
        ensures
            0 <= self.at() <= self.bytes().len() <= usize::MAX,
    {
        assert(self.data.len() == self.data@.len());
    }

    /// A reader at the start of `data`.
    pub fn new(data: &'a [u8]) -> (r: Cursor<'a>)
        ensures
            r.wf(),
            r.bytes() == data@,
            r.at() == 0,
    {
        Cursor { data, pos: 0 }
    }

    /// The position of the next read.
    pub fn pos(&self) -> (r: usize)
        ensures
            r == self.at(),
    {
        self.pos
    }

    /// How many bytes are left.
    pub fn remaining(&self) -> (r: usize)
        requires
            self.wf(),
        ensures
            r == self.bytes().len() - self.at(),
    {
        self.data.len() - self.pos
    }

    /// How many bytes there are in all.
    pub fn total_len(&self) -> (r: u64)
        ensures
            r == self.bytes().len(),
    {
        self.data.len() as u64
    }

    /// The next `n` bytes.
    fn read_bytes(&mut self, n: usize) -> (r: GgufResult<&'a [u8]>)
        requires
            old(self).wf(),
        ensures
            final(self).wf(),
            final(self).bytes() == old(self).bytes(),
            old(self).at() + n <= old(self).bytes().len() ==> r is Ok && r->Ok_0@
                == old(self).bytes().subrange(old(self).at(), old(self).at() + n)
                && final(self).at() == old(self).at() + n,
            old(self).at() + n > old(self).bytes().len() ==> r is Err && r->Err_0@ == past_end(
                old(self).bytes(),
                old(self).at(),
                n as nat,
            ) && final(self).at() == old(self).at(),
    {
        let offset: u64 = self.pos as u64;
        if n > self.remaining() {
            return Err(
                GgufError::OutOfBounds { offset, required: n as u64, file_size: self.total_len() },
            );
        }
        proof {
            self.lemma_wf();
        }
        let chunk = slice_subrange(self.data, self.pos, self.pos + n);
        self.pos = self.pos + n;
        Ok(chunk)
    }

    /// The next number of `n` bytes.
    fn uint(&mut self, n: usize) -> (r: GgufResult<u64>)
        requires
            old(self).wf(),
            n <= 8,
        ensures
            final(self).wf(),
            final(self).bytes() == old(self).bytes(),
            match read_uint(old(self).bytes(), old(self).at(), n as nat) {
                Ok((v, p)) => r is Ok && r->Ok_0 == v && v < pow2((8 * n) as nat)
                    && final(self).at() == p,
                Err(e) => r is Err && r->Err_0@ == e && final(self).at() == old(self).at(),
            },
    {
        let ghost data = self.bytes();
        let ghost start = self.at();
        let chunk = match self.read_bytes(n) {
            Ok(c) => c,
            Err(e) => return Err(e),
        };
        let mut v: u64 = 0;
        let mut i: usize = n;
        while i > 0
            invariant
                i <= n <= 8,
                0 <= start,
                start + n <= data.len(),
                chunk@ == data.subrange(start, start + n),
                v == le(data, start + i, (n - i) as nat),
            decreases i,
        {
            i = i - 1;
            proof {
                lemma2_to64();
                lemma2_to64_rest();
                lemma_le_bound(data, start + i + 1, (n - i - 1) as nat);
                lemma_le_bound(data, start + i, (n - i) as nat);
                if n - i - 1 < 7 {
                    lemma_pow2_strictly_increases((8 * (n - i - 1)) as nat, 56);
                }
                assert(pow2(56) == 0x100_0000_0000_0000);
            }
            v = v * 256 + chunk[i] as u64;
        }
        proof {
            lemma_le_bound(data, start, n as nat);
        }
        Ok(v)
    }

    /// The next 8-bit unsigned number.
    pub fn u8(&mut self) -> (r: GgufResult<u8>)
        requires
            old(self).wf(),
        ensures
            final(self).wf(),
            final(self).bytes() == old(self).bytes(),
            match read_u8(old(self).bytes(), old(self).at()) {
                Ok((v, p)) => r is Ok && r->Ok_0 == v && final(self).at() == p,
                Err(e) => r is Err && r->Err_0@ == e && final(self).at() == old(self).at(),
            },
    {
        proof {
            lemma2_to64();
            lemma2_to64_rest();
        }
        match self.uint(1) {
            Ok(v) => Ok(v as u8),
            Err(e) => Err(e),
        }
    }

    /// The next 8-bit signed number.
    pub fn i8(&mut self) -> (r: GgufResult<i8>)
        requires
            old(self).wf(),
        ensures
            final(self).wf(),
            final(self).bytes() == old(self).bytes(),
            match read_i8(old(self).bytes(), old(self).at()) {
                Ok((v, p)) => r is Ok && r->Ok_0 == v && final(self).at() == p,
                Err(e) => r is Err && r->Err_0@ == e && final(self).at() == old(self).at(),
            },
    {
        proof {
            lemma2_to64();
            lemma2_to64_rest();
        }
        match self.uint(1) {
            Ok(v) => if v < 0x80 {
                Ok(v as i8)
            } else {
                Ok(i8::MIN + (v - 0x80) as i8)
            },
            Err(e) => Err(e),
        }
    }

    /// The next 16-bit unsigned number.
    pub fn u16(&mut self) -> (r: GgufResult<u16>)
        requires
            old(self).wf(),
        ensures
            final(self).wf(),
            final(self).bytes() == old(self).bytes(),
            match read_u16(old(self).bytes(), old(self).at()) {
                Ok((v, p)) => r is Ok && r->Ok_0 == v && final(self).at() == p,
                Err(e) => r is Err && r->Err_0@ == e && final(self).at() == old(self).at(),
            },
    {
        proof {
            lemma2_to64();
            lemma2_to64_rest();
        }
        match self.uint(2) {
            Ok(v) => Ok(v as u16),
            Err(e) => Err(e),
        }
    }

    /// The next 16-bit signed number.
    pub fn i16(&mut self) -> (r: GgufResult<i16>)
        requires
            old(self).wf(),
        ensures
            final(self).wf(),
            final(self).bytes() == old(self).bytes(),
            match read_i16(old(self).bytes(), old(self).at()) {
                Ok((v, p)) => r is Ok && r->Ok_0 == v && final(self).at() == p,
                Err(e) => r is Err && r->Err_0@ == e && final(self).at() == old(self).at(),
            },
    {
        proof {
            lemma2_to64();
            lemma2_to64_rest();
        }
        match self.uint(2) {
            Ok(v) => if v < 0x8000 {
                Ok(v as i16)
            } else {
                Ok(i16::MIN + (v - 0x8000) as i16)
            },
            Err(e) => Err(e),
        }
    }

    /// The next 32-bit unsigned number.
    pub fn u32(&mut self) -> (r: GgufResult<u32>)
        requires
            old(self).wf(),
        ensures
            final(self).wf(),
            final(self).bytes() == old(self).bytes(),
            match read_u32(old(self).bytes(), old(self).at()) {
                Ok((v, p)) => r is Ok && r->Ok_0 == v && final(self).at() == p,
                Err(e) => r is Err && r->Err_0@ == e && final(self).at() == old(self).at(),
            },
    {
        proof {
            lemma2_to64();
            lemma2_to64_rest();
        }
        match self.uint(4) {
            Ok(v) => Ok(v as u32),
            Err(e) => Err(e),
        }
    }

    /// The next 32-bit signed number.
    pub fn i32(&mut self) -> (r: GgufResult<i32>)
        requires
            old(self).wf(),
        ensures
            final(self).wf(),
            final(self).bytes() == old(self).bytes(),
            match read_i32(old(self).bytes(), old(self).at()) {
                Ok((v, p)) => r is Ok && r->Ok_0 == v && final(self).at() == p,
                Err(e) => r is Err && r->Err_0@ == e && final(self).at() == old(self).at(),
            },
    {
        proof {
            lemma2_to64();
            lemma2_to64_rest();
        }
        match self.uint(4) {
            Ok(v) => if v < 0x8000_0000 {
                Ok(v as i32)
            } else {
                Ok(i32::MIN + (v - 0x8000_0000) as i32)
            },
            Err(e) => Err(e),
        }
    }

    /// The next 64-bit unsigned number.
    pub fn u64(&mut self) -> (r: GgufResult<u64>)
        requires
            old(self).wf(),
        ensures
            final(self).wf(),
            final(self).bytes() == old(self).bytes(),
            match read_u64(old(self).bytes(), old(self).at()) {
                Ok((v, p)) => r is Ok && r->Ok_0 == v && final(self).at() == p,
                Err(e) => r is Err && r->Err_0@ == e && final(self).at() == old(self).at(),
            },
    {
        proof {
            lemma2_to64();
            lemma2_to64_rest();
        }
        self.uint(8)
    }

    /// The next 64-bit signed number.
    pub fn i64(&mut self) -> (r: GgufResult<i64>)
        requires
            old(self).wf(),
        ensures
            final(self).wf(),
            final(self).bytes() == old(self).bytes(),
            match read_i64(old(self).bytes(), old(self).at()) {
                Ok((v, p)) => r is Ok && r->Ok_0 == v && final(self).at() == p,
                Err(e) => r is Err && r->Err_0@ == e && final(self).at() == old(self).at(),
            },
    {
        proof {
            lemma2_to64();
            lemma2_to64_rest();
        }
        match self.uint(8) {
            Ok(v) => if v < 0x8000_0000_0000_0000 {
                Ok(v as i64)
            } else {
                Ok(i64::MIN + (v - 0x8000_0000_0000_0000) as i64)
            },
            Err(e) => Err(e),
        }
    }

    /// The next truth value: one byte, false only where it is zero.
    pub fn bool(&mut self) -> (r: GgufResult<bool>)
        requires
            old(self).wf(),
        ensures
            final(self).wf(),
            final(self).bytes() == old(self).bytes(),
            match read_bool(old(self).bytes(), old(self).at()) {
                Ok((v, p)) => r is Ok && r->Ok_0 == v && final(self).at() == p,
                Err(e) => r is Err && r->Err_0@ == e && final(self).at() == old(self).at(),
            },
    {
        proof {
            lemma2_to64();
            lemma2_to64_rest();
        }
        match self.uint(1) {
            Ok(v) => Ok(v != 0),
            Err(e) => Err(e),
        }
    }

    /// The bit pattern of the next single precision number.
    pub fn f32_bits(&mut self) -> (r: GgufResult<u32>)
        requires
            old(self).wf(),
        ensures
            final(self).wf(),
            final(self).bytes() == old(self).bytes(),
            match read_u32(old(self).bytes(), old(self).at()) {
                Ok((v, p)) => r is Ok && r->Ok_0 == v && final(self).at() == p,
                Err(e) => r is Err && r->Err_0@ == e && final(self).at() == old(self).at(),
            },
    {
        proof {
            lemma2_to64();
            lemma2_to64_rest();
        }
        self.u32()
    }

    /// The bit pattern of the next double precision number.
    pub fn f64_bits(&mut self) -> (r: GgufResult<u64>)
        requires
            old(self).wf(),
        ensures
            final(self).wf(),
            final(self).bytes() == old(self).bytes(),
            match read_u64(old(self).bytes(), old(self).at()) {
                Ok((v, p)) => r is Ok && r->Ok_0 == v && final(self).at() == p,
                Err(e) => r is Err && r->Err_0@ == e && final(self).at() == old(self).at(),
            },
    {
        proof {
            lemma2_to64();
            lemma2_to64_rest();
        }
        self.u64()
    }

    /// The next string. Where its bytes are not all there, only the length has been read; where
    /// they are not UTF-8, they have been read too.
    pub fn string(&mut self) -> (r: GgufResult<String>)
        requires
            old(self).wf(),
        ensures
            final(self).wf(),
            final(self).bytes() == old(self).bytes(),
            match read_string(old(self).bytes(), old(self).at()) {
                Ok((v, p)) => r is Ok && r->Ok_0@ == v && final(self).at() == p,
                Err(e) => r is Err && r->Err_0@ == e,
            },
            final(self).at() == string_stop(old(self).bytes(), old(self).at()),
    {
        let len: u64 = match self.u64() {
            Ok(v) => v,
            Err(e) => return Err(e),
        };
        proof {
            lemma2_to64();
            lemma2_to64_rest();
            lemma_le_bound(old(self).bytes(), old(self).at(), 8);
        }
        if len > self.remaining() as u64 {
            return Err(
                GgufError::OutOfBounds {
                    offset: self.pos as u64,
                    required: len,
                    file_size: self.total_len(),
                },
            );
        }
        let chunk = match self.read_bytes(len as usize) {
            Ok(c) => c,
            Err(e) => return Err(e),
        };
        match utf8_string(slice_to_vec(chunk)) {
            Some(s) => Ok(s),
            None => Err(GgufError::InvalidStringLength(len)),
        }
    }
}

} // verus!
