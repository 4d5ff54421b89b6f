use vstd::prelude::*;
use vstd::utf8::valid_utf8;
use crate::class_parser::encoding::{be16, be32, enc_u2};
use crate::class_parser::reader::{
    err_is, Fail,
    lemma_reads_nothing, lemma_reads_trans, reads, short, skip, u16_at, Parser,
};
use crate::class_parser::{
    Class, CpNode, Double, Dynamic, Fieldref, Float, Integer, InterfaceMethodref, InvokeDynamic,
    Long, MethodHandle, MethodType, Methodref, ModuleCp, NameAndType, Package, StringCp, Utf8, U2,
};
use crate::class_parser::attributes::cp_names;
use crate::errors::ParsingError;

verus! {

/// The tags that open a constant-pool entry.
pub open spec fn is_cp_tag(t: u8) -> bool {
    t == 1 || (3 <= t <= 12) || (15 <= t <= 20)
}

/// Long and Double take two slots of the pool.
pub open spec fn is_wide(n: CpNode) -> bool {
    n is Long || n is Double
}

/// The encoding of one constant-pool entry; the slot after a Long or Double
/// encodes to nothing.
pub open spec fn enc_cp_node(n: CpNode) -> Seq<u8> {
    match n {
        CpNode::Utf8(u) => seq![1u8] + be16(u.bytes@.len() as u16) + u.bytes@,
        CpNode::Integer(v) => seq![3u8] + be32(v.bytes),
        CpNode::Float(v) => seq![4u8] + be32(v.bytes),
        CpNode::Long(v) => seq![5u8] + be32(v.high_bytes) + be32(v.low_bytes),
        CpNode::Double(v) => seq![6u8] + be32(v.high_bytes) + be32(v.low_bytes),
        CpNode::Class(v) => seq![7u8] + enc_u2(v.name_index),
        CpNode::String(v) => seq![8u8] + enc_u2(v.string_index),
        CpNode::FieldRef(v) => seq![9u8] + enc_u2(v.class_index) + enc_u2(v.name_and_type_index),
        CpNode::MethodRef(v) => seq![10u8] + enc_u2(v.class_index) + enc_u2(v.name_and_type_index),
        CpNode::InterfaceMethodRef(v) => seq![11u8] + enc_u2(v.class_index) + enc_u2(
            v.name_and_type_index,
        ),
        CpNode::NameAndType(v) => seq![12u8] + enc_u2(v.name_index) + enc_u2(v.descriptor_index),
        CpNode::MethodHandle(v) => seq![15u8] + seq![v.reference_kind] + enc_u2(v.reference_index),
        CpNode::MethodType(v) => seq![16u8] + enc_u2(v.descriptor_index),
        CpNode::Dynamic(v) => seq![17u8] + enc_u2(v.bootstrap_method_attr_index) + enc_u2(
            v.name_and_type_index,
        ),
        CpNode::InvokeDynamic(v) => seq![18u8] + enc_u2(v.bootstrap_method_attr_index) + enc_u2(
            v.name_and_type_index,
        ),
        CpNode::Module(v) => seq![19u8] + enc_u2(v.name_index),
        CpNode::Package(v) => seq![20u8] + enc_u2(v.name_index),
        CpNode::Sentinel => Seq::empty(),
    }
}

/// The encoding of a whole pool, slot by slot.
pub open spec fn enc_cp(s: Seq<CpNode>) -> Seq<u8>
    decreases s.len(),
{
    if s.len() == 0 {
        Seq::empty()
    } else {
        enc_cp(s.drop_last()) + enc_cp_node(s.last())
    }
}

/// Every Long and Double is followed by exactly one sentinel slot, and every
/// sentinel follows a Long or Double.
pub open spec fn pool_shape(s: Seq<CpNode>) -> bool {
    forall|i: int|
        0 <= i < s.len() ==> {
            &&& (is_wide(#[trigger] s[i]) ==> i + 1 < s.len() && s[i + 1] is Sentinel)
            &&& (s[i] is Sentinel ==> i > 0 && is_wide(s[i - 1]))
        }
}

/// Every Utf8 entry holds valid UTF-8 of at most 65535 bytes.
pub open spec fn pool_utf8_valid(s: Seq<CpNode>) -> bool {
    forall|i: int|
        0 <= i < s.len() && #[trigger] s[i] is Utf8 ==> valid_utf8(s[i]->Utf8_0.bytes@)
            && s[i]->Utf8_0.bytes@.len() < 65536
}

/// How many slots a pool declared with `count` has.
pub open spec fn pool_slots(count: u16) -> int {
    if count == 0 {
        0
    } else {
        count - 1
    }
}

/// The bytes of the Utf8 entry at the 1-based index `i`, if there is one.
pub open spec fn cp_utf8(cp: Seq<CpNode>, i: int) -> Option<Seq<u8>> {
    if 1 <= i <= cp.len() && cp[i - 1] is Utf8 {
        Some(cp[i - 1]->Utf8_0.bytes@)
    } else {
        None
    }
}

/// Where the constant-pool entry at `pos` ends, if it decodes.
#[verifier::opaque]
pub open spec fn cp_entry_end(b: Seq<u8>, pos: int) -> Result<int, Fail> {
    if pos + 1 > b.len() {
        Err(Fail::Error(ParsingError::EndOfInput))
    } else {
        let t = b[pos];
        let p = pos + 1;
        if t == 1 {
            if p + 2 > b.len() {
                Err(Fail::Error(ParsingError::EndOfInput))
            } else {
                let n = u16_at(b, p);
                if p + 2 + n > b.len() {
                    Err(Fail::Error(ParsingError::EndOfInput))
                } else if !valid_utf8(b.subrange(p + 2, p + 2 + n)) {
                    Err(Fail::Error(ParsingError::Utf8Decode))
                } else {
                    Ok(p + 2 + n)
                }
            }
        } else if t == 3 || t == 4 {
            skip(b, p, 4)
        } else if t == 5 || t == 6 {
            skip(b, p, 8)
        } else if t == 7 || t == 8 || t == 16 || t == 19 || t == 20 {
            skip(b, p, 2)
        } else if t == 9 || t == 10 || t == 11 || t == 12 || t == 17 || t == 18 {
            skip(b, p, 4)
        } else if t == 15 {
            skip(b, p, 3)
        } else {
            Err(Fail::Error(ParsingError::ConstantPoolTag(t)))
        }
    }
}

/// Where a pool of `slots` slots starting at `pos` ends, if it decodes.
pub open spec fn cp_end(b: Seq<u8>, pos: int, slots: int) -> Result<int, Fail>
    decreases slots,
{
    if slots <= 0 {
        Ok(pos)
    } else {
        match cp_entry_end(b, pos) {
            Err(x) => Err(x),
            Ok(e) => if b[pos] == 5 || b[pos] == 6 {
                if slots < 2 {
                    Err(Fail::Error(ParsingError::InvalidConstantPoolLayout))
                } else {
                    cp_end(b, e, slots - 2)
                }
            } else {
                cp_end(b, e, slots - 1)
            },
        }
    }
}

/// The bytes of the Utf8 entry at the 1-based slot `i` of the pool of `slots`
/// slots that starts at `pos`, if that slot holds one.
pub open spec fn pool_utf8(b: Seq<u8>, pos: int, slots: int, i: int) -> Option<Seq<u8>>
    decreases slots,
{
    if slots <= 0 || i < 1 {
        None
    } else {
        match cp_entry_end(b, pos) {
            Err(_) => None,
            Ok(e) => if i == 1 {
                if b[pos] == 1 {
                    Some(b.subrange(pos + 3, e))
                } else {
                    None
                }
            } else if b[pos] == 5 || b[pos] == 6 {
                if i == 2 || slots < 2 {
                    None
                } else {
                    pool_utf8(b, e, slots - 2, i - 2)
                }
            } else {
                pool_utf8(b, e, slots - 1, i - 1)
            },
        }
    }
}

/// The Utf8 entries of the pool of `slots` slots at `pos`, by 1-based index.
pub open spec fn pool_names(b: Seq<u8>, pos: int, slots: int) -> spec_fn(int) -> Option<Seq<u8>> {
    |i: int| pool_utf8(b, pos, slots, i)
}

/// Appending an entry that takes one slot keeps the pool's shape.
pub proof fn lemma_pool_push(s: Seq<CpNode>, n: CpNode)
    requires
        pool_shape(s),
        pool_utf8_valid(s),
        !is_wide(n),
        !(n is Sentinel),
        n is Utf8 ==> valid_utf8(n->Utf8_0.bytes@) && n->Utf8_0.bytes@.len() < 65536,
    ensures
        pool_shape(s.push(n)),
        pool_utf8_valid(s.push(n)),
{
    let t = s.push(n);
    assert forall|i: int| 0 <= i < t.len() implies {
        &&& (is_wide(#[trigger] t[i]) ==> i + 1 < t.len() && t[i + 1] is Sentinel)
        &&& (t[i] is Sentinel ==> i > 0 && is_wide(t[i - 1]))
    } by {
        if i < s.len() {
            assert(t[i] == s[i]);
        }
    }
    assert forall|i: int| 0 <= i < t.len() && #[trigger] t[i] is Utf8 implies valid_utf8(
        t[i]->Utf8_0.bytes@,
    ) && t[i]->Utf8_0.bytes@.len() < 65536 by {
        if i < s.len() {
            assert(t[i] == s[i]);
        }
    }
}

/// Appending a Long or Double and its sentinel keeps the pool's shape.
pub proof fn lemma_pool_push_wide(s: Seq<CpNode>, n: CpNode)
    requires
        pool_shape(s),
        pool_utf8_valid(s),
        is_wide(n),
    ensures
        pool_shape(s.push(n).push(CpNode::Sentinel)),
        pool_utf8_valid(s.push(n).push(CpNode::Sentinel)),
{
    let t = s.push(n).push(CpNode::Sentinel);
    assert forall|i: int| 0 <= i < t.len() implies {
        &&& (is_wide(#[trigger] t[i]) ==> i + 1 < t.len() && t[i + 1] is Sentinel)
        &&& (t[i] is Sentinel ==> i > 0 && is_wide(t[i - 1]))
    } by {
        if i < s.len() {
            assert(t[i] == s[i]);
        }
    }
    assert forall|i: int| 0 <= i < t.len() && #[trigger] t[i] is Utf8 implies valid_utf8(
        t[i]->Utf8_0.bytes@,
    ) && t[i]->Utf8_0.bytes@.len() < 65536 by {
        if i < s.len() {
            assert(t[i] == s[i]);
        }
    }
}

/// Relies on std::str::from_utf8: it succeeds exactly on valid UTF-8.
#[verifier::external_body]
fn is_valid_utf8(b: &[u8]) -> (r: bool)
    ensures
        r == valid_utf8(b@),
{
    std::str::from_utf8(b).is_ok()
}

impl<'class> Parser<'class> {
    /// Reads two consecutive `U2` values.
    pub(crate) fn u2_pair(&mut self) -> (r: Result<(U2, U2), ParsingError>)
        requires
            old(self).wf(),
        ensures
            final(self).wf(),
            r matches Ok((a, b)) ==> reads(*old(self), *final(self), enc_u2(a) + enc_u2(b))
                && a.0 == u16_at(old(self).input(), old(self).pos()) && b.0 == u16_at(
                old(self).input(),
                old(self).pos() + 2,
            ),
            r matches Err(e) ==> e == ParsingError::EndOfInput && short(*old(self), 4),
    {
        let ghost p0 = *self;
        let a = self.u2()?;
        let ghost p1 = *self;
        let b = self.u2()?;
        proof {
            lemma_reads_trans(p0, p1, *self, enc_u2(a), enc_u2(b));
        }
        Ok((a, b))
    }

    /// Reads one constant-pool entry, tag included.
    pub(crate) fn cp_entry(&mut self) -> (r: Result<CpNode, ParsingError>)
        requires
            old(self).wf(),
        ensures
            final(self).wf(),
            !short(*old(self), 1) && !is_cp_tag(old(self).input()[old(self).pos()]) ==> r == Err::<CpNode, ParsingError>(
                ParsingError::ConstantPoolTag(old(self).input()[old(self).pos()]),
            ),
            (r is Ok) == (cp_entry_end(old(self).input(), old(self).pos()) is Ok),
            r matches Err(e) ==> err_is(e, (cp_entry_end(old(self).input(), old(self).pos()))->Err_0),
            r is Ok ==> final(self).pos() == cp_entry_end(old(self).input(), old(self).pos())->Ok_0,
            r matches Ok(n) ==> (is_wide(n) == (old(self).input()[old(self).pos()] == 5
                || old(self).input()[old(self).pos()] == 6)),
            r matches Ok(n) ==> (n is Utf8) == (old(self).input()[old(self).pos()] == 1),
            r matches Ok(n) ==> (n is Utf8 ==> n->Utf8_0.bytes@ == old(self).input().subrange(
                old(self).pos() + 3,
                final(self).pos(),
            )),
            r matches Ok(n) ==> reads(*old(self), *final(self), enc_cp_node(n)) && !(n is Sentinel)
                && (n is Utf8 ==> valid_utf8(n->Utf8_0.bytes@) && n->Utf8_0.bytes@.len() < 65536),
            r matches Err(e) ==> {
                ||| e == ParsingError::EndOfInput
                ||| e == ParsingError::Utf8Decode
                ||| (e matches ParsingError::ConstantPoolTag(t) && !is_cp_tag(t)
                    && !short(*old(self), 1) && t == old(self).input()[old(self).pos()])
            },
    {
        let ghost p0 = *self;
        proof {
            reveal(cp_entry_end);
        }
        let tag = self.u1()?;
        let ghost p1 = *self;
        let node = match tag {
            1 => {
                let length = self.u2()?;
                let ghost p2 = *self;
                let bytes = self.u1_range(length.0 as u32)?;
                if !is_valid_utf8(bytes.as_slice()) {
                    return Err(ParsingError::Utf8Decode);
                }
                proof {
                    lemma_reads_trans(p1, p2, *self, enc_u2(length), bytes@);
                }
                CpNode::Utf8(Utf8 { bytes })
            },
            3 => {
                let bytes = self.u4()?;
                CpNode::Integer(Integer { bytes })
            },
            4 => {
                let bytes = self.u4()?;
                CpNode::Float(Float { bytes })
            },
            5 | 6 => {
                let high_bytes = self.u4()?;
                let ghost p2 = *self;
                let low_bytes = self.u4()?;
                proof {
                    lemma_reads_trans(p1, p2, *self, be32(high_bytes), be32(low_bytes));
                }
                if tag == 5 {
                    CpNode::Long(Long { high_bytes, low_bytes })
                } else {
                    CpNode::Double(Double { high_bytes, low_bytes })
                }
            },
            7 => CpNode::Class(Class { name_index: self.u2()? }),
            8 => CpNode::String(StringCp { string_index: self.u2()? }),
            9 => {
                let (class_index, name_and_type_index) = self.u2_pair()?;
                CpNode::FieldRef(Fieldref { class_index, name_and_type_index })
            },
            10 => {
                let (class_index, name_and_type_index) = self.u2_pair()?;
                CpNode::MethodRef(Methodref { class_index, name_and_type_index })
            },
            11 => {
                let (class_index, name_and_type_index) = self.u2_pair()?;
                CpNode::InterfaceMethodRef(InterfaceMethodref { class_index, name_and_type_index })
            },
            12 => {
                let (name_index, descriptor_index) = self.u2_pair()?;
                CpNode::NameAndType(NameAndType { name_index, descriptor_index })
            },
            15 => {
                let reference_kind = self.u1()?;
                let ghost p2 = *self;
                let reference_index = self.u2()?;
                proof {
                    lemma_reads_trans(p1, p2, *self, seq![reference_kind], enc_u2(reference_index));
                }
                CpNode::MethodHandle(MethodHandle { reference_kind, reference_index })
            },
            16 => CpNode::MethodType(MethodType { descriptor_index: self.u2()? }),
            17 => {
                let (bootstrap_method_attr_index, name_and_type_index) = self.u2_pair()?;
                CpNode::Dynamic(Dynamic { bootstrap_method_attr_index, name_and_type_index })
            },
            18 => {
                let (bootstrap_method_attr_index, name_and_type_index) = self.u2_pair()?;
                CpNode::InvokeDynamic(
                    InvokeDynamic { bootstrap_method_attr_index, name_and_type_index },
                )
            },
            19 => CpNode::Module(ModuleCp { name_index: self.u2()? }),
            20 => CpNode::Package(Package { name_index: self.u2()? }),
            _ => {
                assert(p0.input().subrange(p0.pos(), p1.pos())[0] == tag);
                return Err(ParsingError::ConstantPoolTag(tag));
            },
        };
        proof {
            let body = p1.input().subrange(p1.pos(), self.pos());
            lemma_reads_trans(p0, p1, *self, seq![tag], body);
            assert(enc_cp_node(node) =~= seq![tag] + body);
        }
        Ok(node)
    }

    /// Reads a constant pool declared with `length` (its count field): `length - 1`
    /// slots, a Long or Double taking two of them.
    #[verifier::rlimit(100)]
    pub fn cp(&mut self, length: u16) -> (r: Result<Vec<CpNode>, ParsingError>)
        requires
            old(self).wf(),
        ensures
            final(self).wf(),
            (r is Ok) == (cp_end(old(self).input(), old(self).pos(), pool_slots(length)) is Ok),
            r matches Err(e) ==> err_is(e, (cp_end(old(self).input(), old(self).pos(), pool_slots(length)))->Err_0),
            r is Ok ==> final(self).pos() == cp_end(
                old(self).input(),
                old(self).pos(),
                pool_slots(length),
            )->Ok_0,
            r matches Ok(v) ==> cp_names(v@) == pool_names(
                old(self).input(),
                old(self).pos(),
                pool_slots(length),
            ),
            r matches Ok(v) ==> {
                &&& reads(*old(self), *final(self), enc_cp(v@))
                &&& v@.len() == pool_slots(length)
                &&& pool_shape(v@)
                &&& pool_utf8_valid(v@)
            },
            r matches Err(e) ==> {
                ||| e == ParsingError::EndOfInput
                ||| e == ParsingError::Utf8Decode
                ||| e == ParsingError::InvalidConstantPoolLayout
                ||| (e matches ParsingError::ConstantPoolTag(t) && !is_cp_tag(t))
            },
    {
        let n: usize = if length == 0 {
            0
        } else {
            length as usize - 1
        };
        let ghost p0 = *self;
        let mut cp: Vec<CpNode> = Vec::with_capacity(n);
        proof {
            lemma_reads_nothing(p0);
            assert(enc_cp(cp@) =~= Seq::<u8>::empty());
        }
        while cp.len() < n
            invariant
                self.wf(),
                n == pool_slots(length),
                *old(self) == p0,
                cp@.len() <= n,
                reads(p0, *self, enc_cp(cp@)),
                cp_end(p0.input(), p0.pos(), n as int) == cp_end(
                    self.input(),
                    self.pos(),
                    n - cp@.len(),
                ),
                pool_shape(cp@),
                pool_utf8_valid(cp@),
                forall|i: int|
                    1 <= i <= cp@.len() ==> #[trigger] cp_utf8(cp@, i) == pool_utf8(
                        p0.input(),
                        p0.pos(),
                        n as int,
                        i,
                    ),
                forall|j: int|
                    j > cp@.len() ==> #[trigger] pool_utf8(p0.input(), p0.pos(), n as int, j)
                        == pool_utf8(self.input(), self.pos(), n - cp@.len(), j - cp@.len()),
            decreases n - cp.len(),
        {
            let ghost mid = *self;
            let ghost old_cp = cp@;
            let ghost rem = n - old_cp.len();
            let node = match self.cp_entry() {
                Ok(node) => node,
                Err(e) => {
                    proof {
                        assert(cp_end(mid.input(), mid.pos(), rem) is Err);
                    }
                    return Err(e);
                },
            };
            let wide = match node {
                CpNode::Long(_) => true,
                CpNode::Double(_) => true,
                _ => false,
            };
            proof {
                let b = mid.input();
                assert(cp_entry_end(b, mid.pos()) == Ok::<int, Fail>(self.pos()));
                assert(wide == (b[mid.pos()] == 5 || b[mid.pos()] == 6));
                assert(cp_end(b, mid.pos(), rem) == if wide {
                    if rem < 2 {
                        Err(Fail::Error(ParsingError::InvalidConstantPoolLayout))
                    } else {
                        cp_end(b, self.pos(), rem - 2)
                    }
                } else {
                    cp_end(b, self.pos(), rem - 1)
                });
            }
            if wide && cp.len() + 1 >= n {
                return Err(ParsingError::InvalidConstantPoolLayout);
            }
            let ghost enc_node = enc_cp_node(node);
            let ghost e = self.pos();
            proof {
                let b = mid.input();
                assert forall|j: int| j > old_cp.len() + (if wide { 2int } else { 1int }) implies #[trigger] pool_utf8(b, p0.pos(), n as int, j)
                    == pool_utf8(b, e, rem - (if wide { 2int } else { 1int }), j - old_cp.len() - (if wide { 2int } else { 1int })) by {
                    assert(pool_utf8(b, p0.pos(), n as int, j) == pool_utf8(b, mid.pos(), rem, j - old_cp.len()));
                }
                assert(pool_utf8(b, p0.pos(), n as int, old_cp.len() + 1int) == pool_utf8(b, mid.pos(), rem, 1));
                if wide {
                    assert(pool_utf8(b, p0.pos(), n as int, old_cp.len() + 2int) == pool_utf8(b, mid.pos(), rem, 2));
                }
            }
            cp.push(node);
            assert(cp@.drop_last() =~= old_cp);
            if wide {
                let ghost one = cp@;
                cp.push(CpNode::Sentinel);
                assert(cp@.drop_last() =~= one);
                assert(enc_cp(cp@) =~= enc_cp(one));
                proof {
                    lemma_pool_push_wide(old_cp, node);
                }
            } else {
                proof {
                    lemma_pool_push(old_cp, node);
                }
            }
            proof {
                lemma_reads_trans(p0, mid, *self, enc_cp(old_cp), enc_node);
                assert forall|i: int| 1 <= i <= cp@.len() implies #[trigger] cp_utf8(cp@, i) == pool_utf8(
                    p0.input(),
                    p0.pos(),
                    n as int,
                    i,
                ) by {
                    if i <= old_cp.len() {
                        assert(cp@[i - 1] == old_cp[i - 1]);
                        assert(cp_utf8(cp@, i) == cp_utf8(old_cp, i));
                    }
                }
            }
        }
        proof {
            let b = p0.input();
            assert forall|i: int| #[trigger] cp_names(cp@)(i) == pool_names(b, p0.pos(), n as int)(i) by {
                if i > cp@.len() {
                    assert(pool_utf8(b, p0.pos(), n as int, i) == pool_utf8(self.input(), self.pos(), n - cp@.len(), i - cp@.len()));
                }
            }
            assert(cp_names(cp@) =~= pool_names(b, p0.pos(), n as int));
        }
        Ok(cp)
    }
}

} // verus!
