use vstd::prelude::*;
use vstd::arithmetic::div_mod::lemma_fundamental_div_mod_converse;
use crate::class_parser::U2;

verus! {

/// The big-endian encoding of a 16-bit value.
pub open spec fn be16(v: u16) -> Seq<u8> {
    seq![(v / 256) as u8, (v % 256) as u8]
}

/// The big-endian encoding of a 32-bit value.
pub open spec fn be32(v: u32) -> Seq<u8> {
    be16((v / 65536) as u16) + be16((v % 65536) as u16)
}

/// The encoding of a `U2` field.
pub open spec fn enc_u2(v: U2) -> Seq<u8> {
    be16(v.0)
}

/// The encoding of a table of `U2` values, without its count.
pub open spec fn enc_u2s(s: Seq<U2>) -> Seq<u8>
    decreases s.len(),
{
    if s.len() == 0 {
        Seq::empty()
    } else {
        enc_u2s(s.drop_last()) + enc_u2(s.last())
    }
}

/// Two bytes read big-endian give the value whose encoding they are.
pub proof fn lemma_be16(b0: u8, b1: u8)
    ensures
        be16((b0 as u16 * 256 + b1 as u16) as u16) == seq![b0, b1],
{
    let v = b0 as int * 256 + b1 as int;
    lemma_fundamental_div_mod_converse(v, 256, b0 as int, b1 as int);
}

/// Four bytes read big-endian give the value whose encoding they are.
pub proof fn lemma_be32(b0: u8, b1: u8, b2: u8, b3: u8)
    ensures
        be32(
            ((b0 as u32 * 256 + b1 as u32) * 65536 + (b2 as u32 * 256 + b3 as u32)) as u32,
        ) == seq![b0, b1, b2, b3],
{
    let hi = b0 as int * 256 + b1 as int;
    let lo = b2 as int * 256 + b3 as int;
    lemma_fundamental_div_mod_converse(hi * 65536 + lo, 65536, hi, lo);
    lemma_be16(b0, b1);
    lemma_be16(b2, b3);
    assert(seq![b0, b1] + seq![b2, b3] =~= seq![b0, b1, b2, b3]);
}

/// Distinct 16-bit values have distinct encodings.
pub proof fn lemma_be16_injective(a: u16, b: u16)
    requires
        be16(a) == be16(b),
    ensures
        a == b,
{
    assert(be16(a)[0] == be16(b)[0]);
    assert(be16(a)[1] == be16(b)[1]);
    assert(a == (a / 256) * 256 + a % 256);
    assert(b == (b / 256) * 256 + b % 256);
}

/// Distinct 32-bit values have distinct encodings.
pub proof fn lemma_be32_injective(a: u32, b: u32)
    requires
        be32(a) == be32(b),
    ensures
        a == b,
{
    let ha = (a / 65536) as u16;
    let la = (a % 65536) as u16;
    let hb = (b / 65536) as u16;
    let lb = (b % 65536) as u16;
    assert(be32(a).subrange(0, 2) =~= be16(ha));
    assert(be32(b).subrange(0, 2) =~= be16(hb));
    assert(be32(a).subrange(2, 4) =~= be16(la));
    assert(be32(b).subrange(2, 4) =~= be16(lb));
    lemma_be16_injective(ha, hb);
    lemma_be16_injective(la, lb);
    assert(a == (a / 65536) * 65536 + a % 65536);
    assert(b == (b / 65536) * 65536 + b % 65536);
}

} // verus!
