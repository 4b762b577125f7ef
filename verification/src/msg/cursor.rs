//! A bounds-checked cursor over input bytes. Every read is fallible; none
//! can run past the end of the buffer.

use vstd::prelude::*;
use vstd::utf8::{decode_utf8, valid_utf8};
use crate::msg::bytes::{u16_at, u16_of, u32_at, u32_of, u64_at, u64_of, push_all};
use crate::msg::error::{WireError, WireFault};

verus! {

/// The bytes of `buf` as a string, when they are valid UTF-8
/// (`String::from_utf8`).
#[verifier::external_body]
fn utf8_to_string(bytes: Vec<u8>) -> (r: Option<String>)
    ensures
        match r {
            Some(s) => valid_utf8(bytes@) && s@ == decode_utf8(bytes@),
            None => !valid_utf8(bytes@),
        },
{
    String::from_utf8(bytes).ok()
}

/// A `u32` length at `pos`, then that many bytes.
pub open spec fn parse_blob(buf: Seq<u8>, pos: int) -> Result<(Seq<u8>, int), WireFault> {
    if pos + 4 > buf.len() {
        Err(WireFault::Truncated)
    } else {
        let n = u32_at(buf, pos) as int;
        if pos + 4 + n > buf.len() {
            Err(WireFault::Truncated)
        } else {
            Ok((buf.subrange(pos + 4, pos + 4 + n), pos + 4 + n))
        }
    }
}

/// A blob at `pos`, read as UTF-8 text.
pub open spec fn parse_string(buf: Seq<u8>, pos: int) -> Result<(Seq<char>, int), WireFault> {
    match parse_blob(buf, pos) {
        Err(e) => Err(e),
        Ok((b, q)) => if valid_utf8(b) {
            Ok((decode_utf8(b), q))
        } else {
            Err(WireFault::BadUtf8)
        },
    }
}

/// A read position over a borrowed byte buffer.
pub(crate) struct Decoder<'a> {
    pub(crate) buf: &'a [u8],
    pub(crate) pos: usize,
}

impl<'a> Decoder<'a> {
    pub(crate) open spec fn wf(&self) -> bool {
        self.pos <= self.buf@.len()
    }

    pub(crate) fn new(buf: &'a [u8]) -> (d: Self)
        ensures
            d.buf@ == buf@,
            d.pos == 0,
    {
        Decoder { buf, pos: 0 }
    }

    pub(crate) fn at_end(&self) -> (b: bool)
        ensures
            b == (self.pos == self.buf@.len()),
    {
        self.pos == self.buf.len()
    }

    /// Consume exactly `n` bytes, or fail without consuming any.
    pub(crate) fn take(&mut self, n: usize) -> (r: Result<&'a [u8], WireError>)
        requires
            old(self).wf(),
        ensures
            final(self).wf(),
            final(self).buf == old(self).buf,
            match r {
                Ok(s) => old(self).pos + n <= old(self).buf@.len() && s@ == old(self).buf@.subrange(
                    old(self).pos as int,
                    old(self).pos + n,
                ) && final(self).pos == old(self).pos + n,
                Err(e) => old(self).pos + n > old(self).buf@.len() && e@ == WireFault::Truncated,
            },
    {
        if n > self.buf.len() - self.pos {
            return Err(WireError::Truncated);
        }
        let end = self.pos + n;
        let slice = &self.buf[self.pos..end];
        self.pos = end;
        Ok(slice)
    }

    pub(crate) fn u8(&mut self) -> (r: Result<u8, WireError>)
        requires
            old(self).wf(),
        ensures
            final(self).wf(),
            final(self).buf == old(self).buf,
            match r {
                Ok(b) => old(self).pos + 1 <= old(self).buf@.len() && b == old(self).buf@[old(
                    self,
                ).pos as int] && final(self).pos == old(self).pos + 1,
                Err(e) => old(self).pos + 1 > old(self).buf@.len() && e@ == WireFault::Truncated,
            },
    {
        let b = self.take(1)?;
        Ok(b[0])
    }

    pub(crate) fn u16(&mut self) -> (r: Result<u16, WireError>)
        requires
            old(self).wf(),
        ensures
            final(self).wf(),
            final(self).buf == old(self).buf,
            match r {
                Ok(x) => old(self).pos + 2 <= old(self).buf@.len() && x == u16_at(
                    old(self).buf@,
                    old(self).pos as int,
                ) && final(self).pos == old(self).pos + 2,
                Err(e) => old(self).pos + 2 > old(self).buf@.len() && e@ == WireFault::Truncated,
            },
    {
        let b = self.take(2)?;
        Ok((b[0] as u16) | ((b[1] as u16) << 8u16))
    }

    pub(crate) fn u32(&mut self) -> (r: Result<u32, WireError>)
        requires
            old(self).wf(),
        ensures
            final(self).wf(),
            final(self).buf == old(self).buf,
            match r {
                Ok(x) => old(self).pos + 4 <= old(self).buf@.len() && x == u32_at(
                    old(self).buf@,
                    old(self).pos as int,
                ) && final(self).pos == old(self).pos + 4,
                Err(e) => old(self).pos + 4 > old(self).buf@.len() && e@ == WireFault::Truncated,
            },
    {
        let b = self.take(4)?;
        Ok((b[0] as u32) | ((b[1] as u32) << 8u32) | ((b[2] as u32) << 16u32) | ((b[3] as u32)
            << 24u32))
    }

    fn u64_bits(&mut self) -> (r: Result<u64, WireError>)
        requires
            old(self).wf(),
        ensures
            final(self).wf(),
            final(self).buf == old(self).buf,
            match r {
                Ok(x) => old(self).pos + 8 <= old(self).buf@.len() && x == u64_at(
                    old(self).buf@,
                    old(self).pos as int,
                ) && final(self).pos == old(self).pos + 8,
                Err(e) => old(self).pos + 8 > old(self).buf@.len() && e@ == WireFault::Truncated,
            },
    {
        let b = self.take(8)?;
        Ok((b[0] as u64) | ((b[1] as u64) << 8u64) | ((b[2] as u64) << 16u64) | ((b[3] as u64)
            << 24u64) | ((b[4] as u64) << 32u64) | ((b[5] as u64) << 40u64) | ((b[6] as u64)
            << 48u64) | ((b[7] as u64) << 56u64))
    }

    pub(crate) fn i64(&mut self) -> (r: Result<i64, WireError>)
        requires
            old(self).wf(),
        ensures
            final(self).wf(),
            final(self).buf == old(self).buf,
            match r {
                Ok(x) => old(self).pos + 8 <= old(self).buf@.len() && x == u64_at(
                    old(self).buf@,
                    old(self).pos as int,
                ) as i64 && final(self).pos == old(self).pos + 8,
                Err(e) => old(self).pos + 8 > old(self).buf@.len() && e@ == WireFault::Truncated,
            },
    {
        let x = self.u64_bits()?;
        Ok(#[verifier::truncate] (x as i64))
    }

    /// The eight bytes of a float: its IEEE-754 bit pattern.
    pub(crate) fn float_bits(&mut self) -> (r: Result<u64, WireError>)
        requires
            old(self).wf(),
        ensures
            final(self).wf(),
            final(self).buf == old(self).buf,
            match r {
                Ok(x) => old(self).pos + 8 <= old(self).buf@.len() && x == u64_at(
                    old(self).buf@,
                    old(self).pos as int,
                ) && final(self).pos == old(self).pos + 8,
                Err(e) => old(self).pos + 8 > old(self).buf@.len() && e@ == WireFault::Truncated,
            },
    {
        self.u64_bits()
    }

    pub(crate) fn bool_byte(&mut self) -> (r: Result<bool, WireError>)
        requires
            old(self).wf(),
        ensures
            final(self).wf(),
            final(self).buf == old(self).buf,
            old(self).pos + 1 > old(self).buf@.len() ==> (r matches Err(e) && e@
                == WireFault::Truncated),
            old(self).pos + 1 <= old(self).buf@.len() ==> {
                let b = old(self).buf@[old(self).pos as int];
                &&& b == 0 ==> r == Ok::<bool, WireError>(false) && final(self).pos == old(self).pos + 1
                &&& b == 1 ==> r == Ok::<bool, WireError>(true) && final(self).pos == old(self).pos + 1
                &&& b > 1 ==> (r matches Err(e) && e@ == WireFault::BadBool(b))
            },
    {
        let b = self.u8()?;
        if b == 0 {
            Ok(false)
        } else if b == 1 {
            Ok(true)
        } else {
            Err(WireError::BadBool(b))
        }
    }

    /// A `u32` length prefix, then that many raw bytes.
    pub(crate) fn blob(&mut self) -> (r: Result<&'a [u8], WireError>)
        requires
            old(self).wf(),
        ensures
            final(self).wf(),
            final(self).buf == old(self).buf,
            match parse_blob(old(self).buf@, old(self).pos as int) {
                Ok((b, q)) => r matches Ok(s) && s@ == b && final(self).pos == q,
                Err(e) => r matches Err(x) && x@ == e,
            },
    {
        let len = self.u32()?;
        self.take(len as usize)
    }

    /// A blob, validated as UTF-8.
    pub(crate) fn string(&mut self) -> (r: Result<String, WireError>)
        requires
            old(self).wf(),
        ensures
            final(self).wf(),
            final(self).buf == old(self).buf,
            match parse_string(old(self).buf@, old(self).pos as int) {
                Ok((s, q)) => r matches Ok(x) && x@ == s && final(self).pos == q,
                Err(e) => r matches Err(x) && x@ == e,
            },
    {
        let bytes = self.blob()?;
        let mut owned: Vec<u8> = Vec::new();
        push_all(&mut owned, bytes);
        assert(owned@ =~= bytes@);
        match utf8_to_string(owned) {
            Some(s) => Ok(s),
            None => Err(WireError::BadUtf8),
        }
    }
}

} // verus!
