use vstd::prelude::*;
use crate::class_parser::encoding::{be32, enc_u2, enc_u2s, lemma_be16, lemma_be32};
use crate::class_parser::{U1, U2, U4};
use crate::errors::ParsingError;

verus! {

/// A cursor over the bytes of one class file. Every read is bounds-checked
/// and fails with `EndOfInput` instead of reading past the end.
#[derive(Debug)]
pub struct Parser<'class> {
    bytes: &'class [U1],
    index: usize,
}

/// `post` is `pre` after consuming exactly the bytes `b`.
pub open spec fn reads(pre: Parser, post: Parser, b: Seq<u8>) -> bool {
    &&& post.input() == pre.input()
    &&& pre.pos() + b.len() <= pre.input().len()
    &&& post.pos() == pre.pos() + b.len()
    &&& pre.input().subrange(pre.pos(), post.pos()) == b
}

/// Why decoding stops: one of the library's errors, or an attribute name
/// that no attribute kind has.
pub enum Fail {
    Error(ParsingError),
    UnknownAttribute(Seq<u8>),
}

/// `e` is the error that `f` describes.
pub open spec fn err_is(e: ParsingError, f: Fail) -> bool {
    match f {
        Fail::Error(x) => e == x,
        Fail::UnknownAttribute(name) => e matches ParsingError::InvalidAttribute(v) && v@ == name,
    }
}

/// The big-endian 16-bit value at `i`.
pub open spec fn u16_at(b: Seq<u8>, i: int) -> int {
    b[i] as int * 256 + b[i + 1] as int
}

/// The big-endian 32-bit value at `i`.
pub open spec fn u32_at(b: Seq<u8>, i: int) -> int {
    u16_at(b, i) * 65536 + u16_at(b, i + 2)
}

/// The position `n` bytes after `pos`, if the input holds them.
pub open spec fn skip(b: Seq<u8>, pos: int, n: int) -> Result<int, Fail> {
    if pos + n <= b.len() {
        Ok(pos + n)
    } else {
        Err(Fail::Error(ParsingError::EndOfInput))
    }
}

/// Where `n` items in a row end, each ending where `f` says, if all decode.
pub open spec fn list_end(b: Seq<u8>, pos: int, n: int, f: spec_fn(Seq<u8>, int) -> Result<int, Fail>) -> Result<int, Fail>
    decreases n,
{
    if n <= 0 {
        Ok(pos)
    } else {
        match f(b, pos) {
            Ok(e) => list_end(b, e, n - 1, f),
            Err(x) => Err(x),
        }
    }
}

/// Items of a fixed size `k`.
pub open spec fn fixed(k: int) -> spec_fn(Seq<u8>, int) -> Result<int, Fail> {
    |b: Seq<u8>, pos: int| skip(b, pos, k)
}

/// A 16-bit count at `pos` and then that many items as `f` decodes them.
pub open spec fn counted_end(b: Seq<u8>, pos: int, f: spec_fn(Seq<u8>, int) -> Result<int, Fail>) -> Result<int, Fail> {
    if pos + 2 > b.len() {
        Err(Fail::Error(ParsingError::EndOfInput))
    } else {
        list_end(b, pos + 2, u16_at(b, pos), f)
    }
}

/// Fewer than `n` bytes are left after the cursor of `p`.
pub open spec fn short(p: Parser, n: int) -> bool {
    p.pos() + n > p.input().len()
}

/// `post` is `pre` moved forward over the same input.
pub open spec fn advanced(pre: Parser, post: Parser) -> bool {
    &&& post.input() == pre.input()
    &&& pre.pos() <= post.pos() <= pre.input().len()
}

/// The bytes that lie between the cursors of `pre` and `post`.
pub open spec fn consumed(pre: Parser, post: Parser) -> Seq<u8> {
    pre.input().subrange(pre.pos(), post.pos())
}

/// What `reads` says, in terms of `advanced` and `consumed`.
pub proof fn lemma_reads_consumed(pre: Parser, post: Parser, b: Seq<u8>)
    requires
        pre.wf(),
        reads(pre, post, b),
    ensures
        advanced(pre, post),
        consumed(pre, post) == b,
{
}

/// Two steps forward: the bytes consumed are those of each step, in order.
pub proof fn lemma_consumed_cat(p0: Parser, p1: Parser, p2: Parser)
    requires
        p0.wf(),
        advanced(p0, p1),
        advanced(p1, p2),
    ensures
        advanced(p0, p2),
        consumed(p0, p2) == consumed(p0, p1) + consumed(p1, p2),
        consumed(p0, p2).subrange(0, p1.pos() - p0.pos()) == consumed(p0, p1),
        consumed(p0, p2).subrange(p1.pos() - p0.pos(), p2.pos() - p0.pos()) == consumed(p1, p2),
{
    assert(consumed(p0, p2) =~= consumed(p0, p1) + consumed(p1, p2));
    assert(consumed(p0, p2).subrange(0, p1.pos() - p0.pos()) =~= consumed(p0, p1));
    assert(consumed(p0, p2).subrange(p1.pos() - p0.pos(), p2.pos() - p0.pos()) =~= consumed(
        p1,
        p2,
    ));
}

/// The bytes between two intermediate cursors, as a slice of all that was consumed.
pub proof fn lemma_consumed_sub(p0: Parser, pa: Parser, pb: Parser, post: Parser)
    requires
        p0.wf(),
        advanced(p0, pa),
        advanced(pa, pb),
        advanced(pb, post),
    ensures
        consumed(p0, post).subrange(pa.pos() - p0.pos(), pb.pos() - p0.pos()) == consumed(pa, pb),
{
    assert(consumed(p0, post).subrange(pa.pos() - p0.pos(), pb.pos() - p0.pos()) =~= consumed(
        pa,
        pb,
    ));
}

/// Consuming `b1` and then `b2` consumes `b1 + b2`.
pub proof fn lemma_reads_trans(p0: Parser, p1: Parser, p2: Parser, b1: Seq<u8>, b2: Seq<u8>)
    requires
        reads(p0, p1, b1),
        reads(p1, p2, b2),
    ensures
        reads(p0, p2, b1 + b2),
{
    assert(p0.input().subrange(p0.pos(), p2.pos()) =~= p0.input().subrange(p0.pos(), p1.pos())
        + p1.input().subrange(p1.pos(), p2.pos()));
}

/// Consuming nothing leaves the cursor where it was.
pub proof fn lemma_reads_nothing(p: Parser)
    requires
        p.wf(),
    ensures
        reads(p, p, Seq::empty()),
{
    assert(p.input().subrange(p.pos(), p.pos()) =~= Seq::<u8>::empty());
}

impl<'class> Parser<'class> {
    /// The whole input.
    pub closed spec fn input(&self) -> Seq<u8> {
        self.bytes@
    }

    /// How many bytes have been consumed.
    pub closed spec fn pos(&self) -> int {
        self.index as int
    }

    /// The cursor lies within the input.
    pub open spec fn wf(&self) -> bool {
        0 <= self.pos() <= self.input().len()
    }

    /// A cursor at the start of `bytes`.
    pub fn new(bytes: &'class [u8]) -> (r: Self)
        ensures
            r.input() == bytes@,
            r.pos() == 0,
            r.wf(),
    {
        Self { bytes, index: 0 }
    }

    /// The number of bytes consumed so far.
    pub fn offset(&self) -> (r: usize)
        ensures
            r == self.pos(),
    {
        self.index
    }

    /// The number of bytes left after the cursor.
    pub fn remaining(&self) -> (r: usize)
        requires
            self.wf(),
        ensures
            r == self.input().len() - self.pos(),
    {
        self.bytes.len() - self.index
    }

    /// Reads one byte.
    pub fn u1(&mut self) -> (r: Result<U1, ParsingError>)
        requires
            old(self).wf(),
        ensures
            final(self).wf(),
            match r {
                Ok(b) => reads(*old(self), *final(self), seq![b]) && b == old(self).input()[old(
                    self,
                ).pos()],
                Err(e) => e == ParsingError::EndOfInput && short(*old(self), 1) && *final(self) == *old(self),
            },
    {
        if self.index >= self.bytes.len() {
            return Err(ParsingError::EndOfInput);
        }
        let b = self.bytes[self.index];
        self.index = self.index + 1;
        assert(self.bytes@.subrange(self.index - 1, self.index as int) =~= seq![b]);
        Ok(b)
    }

    /// Reads `length` bytes.
    pub fn u1_range(&mut self, length: U4) -> (r: Result<Vec<U1>, ParsingError>)
        requires
            old(self).wf(),
        ensures
            final(self).wf(),
            match r {
                Ok(v) => v@.len() == length && reads(*old(self), *final(self), v@),
                Err(e) => e == ParsingError::EndOfInput && short(*old(self), length as int)
                    && *final(self) == *old(self),
            },
    {
        if self.bytes.len() - self.index < length as usize {
            return Err(ParsingError::EndOfInput);
        }
        let start = self.index;
        let end = start + length as usize;
        let mut out: Vec<U1> = Vec::with_capacity(length as usize);
        let mut i: usize = start;
        while i < end
            invariant
                start <= i <= end <= self.bytes@.len(),
                out@ == self.bytes@.subrange(start as int, i as int),
            decreases end - i,
        {
            out.push(self.bytes[i]);
            assert(out@ =~= self.bytes@.subrange(start as int, i + 1));
            i = i + 1;
        }
        self.index = end;
        Ok(out)
    }

    /// Reads one big-endian 16-bit value.
    pub fn u2(&mut self) -> (r: Result<U2, ParsingError>)
        requires
            old(self).wf(),
        ensures
            final(self).wf(),
            match r {
                Ok(v) => reads(*old(self), *final(self), enc_u2(v)) && v.0 == u16_at(
                    old(self).input(),
                    old(self).pos(),
                ),
                Err(e) => e == ParsingError::EndOfInput && short(*old(self), 2) && *final(self) == *old(self),
            },
    {
        if self.bytes.len() - self.index < 2 {
            return Err(ParsingError::EndOfInput);
        }
        let b0 = self.bytes[self.index];
        let b1 = self.bytes[self.index + 1];
        self.index = self.index + 2;
        proof {
            lemma_be16(b0, b1);
            assert(self.bytes@.subrange(self.index - 2, self.index as int) =~= seq![b0, b1]);
        }
        Ok(U2(b0 as u16 * 256 + b1 as u16))
    }

    /// Reads `length` big-endian 16-bit values.
    pub fn u2_range(&mut self, length: U4) -> (r: Result<Vec<U2>, ParsingError>)
        requires
            old(self).wf(),
        ensures
            final(self).wf(),
            match r {
                Ok(v) => v@.len() == length && reads(*old(self), *final(self), enc_u2s(v@))
                    && final(self).pos() == old(self).pos() + 2 * length,
                Err(e) => e == ParsingError::EndOfInput && short(*old(self), 2 * length)
                    && *final(self) == *old(self),
            },
    {
        if (self.bytes.len() - self.index) / 2 < length as usize {
            return Err(ParsingError::EndOfInput);
        }
        let ghost pre = *self;
        let start = self.index;
        let mut out: Vec<U2> = Vec::with_capacity(length as usize);
        let mut i: u32 = 0;
        while i < length
            invariant
                pre.wf(),
                self.wf(),
                self.input() == pre.input(),
                i <= length,
                out@.len() == i,
                pre.pos() + 2 * length <= pre.input().len(),
                self.pos() == pre.pos() + 2 * i,
                pre.input().subrange(pre.pos(), self.pos()) == enc_u2s(out@),
            decreases length - i,
        {
            let ghost mid = *self;
            let ghost old_out = out@;
            let v = match self.u2() {
                Ok(v) => v,
                Err(e) => return Err(e),
            };
            out.push(v);
            assert(out@.drop_last() =~= old_out);
            assert(pre.input().subrange(pre.pos(), self.pos()) =~= pre.input().subrange(
                pre.pos(),
                mid.pos(),
            ) + mid.input().subrange(mid.pos(), self.pos()));
            i = i + 1;
        }
        Ok(out)
    }

    /// The value of a `U2`.
    pub fn to_u2(&self, data: U2) -> (r: u16)
        ensures
            r == data.0,
    {
        data.0
    }

    /// Reads one big-endian 32-bit value.
    pub fn u4(&mut self) -> (r: Result<U4, ParsingError>)
        requires
            old(self).wf(),
        ensures
            final(self).wf(),
            match r {
                Ok(v) => reads(*old(self), *final(self), be32(v)) && v == u32_at(
                    old(self).input(),
                    old(self).pos(),
                ),
                Err(e) => e == ParsingError::EndOfInput && short(*old(self), 4) && *final(self) == *old(self),
            },
    {
        if self.bytes.len() - self.index < 4 {
            return Err(ParsingError::EndOfInput);
        }
        let i = self.index;
        let b0 = self.bytes[i];
        let b1 = self.bytes[i + 1];
        let b2 = self.bytes[i + 2];
        let b3 = self.bytes[i + 3];
        self.index = i + 4;
        proof {
            lemma_be32(b0, b1, b2, b3);
            assert(self.bytes@.subrange(i as int, i + 4) =~= seq![b0, b1, b2, b3]);
        }
        let hi: u32 = b0 as u32 * 256 + b1 as u32;
        let lo: u32 = b2 as u32 * 256 + b3 as u32;
        Ok(hi * 65536 + lo)
    }
}

} // verus!
