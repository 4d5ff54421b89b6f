use vstd::prelude::*;
use crate::class_parser::encoding::{be16, enc_u2};
use crate::class_parser::reader::{
    err_is, short, Fail,
    advanced, consumed, lemma_consumed_cat, lemma_reads_consumed, lemma_reads_nothing,
    lemma_reads_trans, list_end, reads, skip, u16_at, Parser,
};
use crate::class_parser::{
    Annotation, AnnotationInner, ArrayValue, Catch, ElementValue, EnumConstValue, FormalParameter,
    Localvar, LocalvarInner, Offset, Supertype, TargetInfo, Throws, TypeAnnotation,
    TypeAnnotationInner, TypeArgument, TypeParameterBound, TypeParameterTarget, TypePath,
    TypePathInner,
};
use crate::errors::ParsingError;

verus! {

/// Tags of element values that hold one constant-pool index: the ASCII letters
/// `B C D F I J S s Z`.
pub open spec fn is_const_tag(t: u8) -> bool {
    t == 66 || t == 67 || t == 68 || t == 70 || t == 73 || t == 74 || t == 83
        || t == 115 || t == 90
}

/// Tags that open an element value: besides the constant tags, `e` (101) for an
/// enum constant, `c` (99) for a class, `@` (64) for a nested annotation and
/// `[` (91) for an array.
pub open spec fn is_ev_tag(t: u8) -> bool {
    is_const_tag(t) || t == 101 || t == 99 || t == 64 || t == 91
}

/// The errors that decoding annotations can raise.
pub open spec fn annotation_error(e: ParsingError) -> bool {
    ||| e == ParsingError::EndOfInput
    ||| e == ParsingError::NestingTooDeep
    ||| (e matches ParsingError::InvalidElementValue(t) && !is_ev_tag(t))
}

/// `b` encodes the element value `v`, nested at most `depth` deep.
pub open spec fn ev_ok(v: ElementValue, b: Seq<u8>, depth: nat) -> bool
    decreases depth, 0nat, 0nat,
{
    &&& depth > 0
    &&& b.len() >= 1
    &&& match v {
        ElementValue::ConstValueIndex(i) => is_const_tag(b[0]) && b.subrange(1, b.len() as int)
            == enc_u2(i),
        ElementValue::EnumConstValue(e) => b[0] == 101 && b.subrange(1, b.len() as int)
            == enc_u2(e.type_name_index) + enc_u2(e.const_name_index),
        ElementValue::ClassInfoIndex(i) => b[0] == 99 && b.subrange(1, b.len() as int)
            == enc_u2(i),
        ElementValue::AnnotationValue(a) => b[0] == 64 && ann_ok(
            a,
            b.subrange(1, b.len() as int),
            (depth - 1) as nat,
        ),
        ElementValue::ArrayValue(a) => {
            &&& b[0] == 91
            &&& b.len() >= 3
            &&& a.element_value@.len() < 65536
            &&& b.subrange(1, 3) == be16(a.element_value@.len() as u16)
            &&& evs_ok(a.element_value@, b.subrange(3, b.len() as int), (depth - 1) as nat)
        },
    }
}

/// `b` encodes the element values `s` one after another.
pub open spec fn evs_ok(s: Seq<ElementValue>, b: Seq<u8>, depth: nat) -> bool
    decreases depth, 1nat, s.len(),
{
    if s.len() == 0 {
        b.len() == 0
    } else {
        exists|k: int|
            0 <= k <= b.len() && evs_ok(s.drop_last(), #[trigger] b.subrange(0, k), depth) && ev_ok(
                s.last(),
                b.subrange(k, b.len() as int),
                depth,
            )
    }
}

/// `b` encodes one element_value_pair of an annotation.
pub open spec fn pair_ok(p: AnnotationInner, b: Seq<u8>, depth: nat) -> bool
    decreases depth, 0nat, 1nat,
{
    b.len() >= 2 && b.subrange(0, 2) == enc_u2(p.element_name_index) && ev_ok(
        p.value,
        b.subrange(2, b.len() as int),
        depth,
    )
}

/// `b` encodes the element_value_pairs `s` one after another.
pub open spec fn pairs_ok(s: Seq<AnnotationInner>, b: Seq<u8>, depth: nat) -> bool
    decreases depth, 1nat, s.len(),
{
    if s.len() == 0 {
        b.len() == 0
    } else {
        exists|k: int|
            0 <= k <= b.len() && pairs_ok(s.drop_last(), #[trigger] b.subrange(0, k), depth)
                && pair_ok(s.last(), b.subrange(k, b.len() as int), depth)
    }
}

/// `b` encodes the annotation `a`.
pub open spec fn ann_ok(a: Annotation, b: Seq<u8>, depth: nat) -> bool
    decreases depth, 2nat, 0nat,
{
    &&& b.len() >= 4
    &&& a.element_value_pairs@.len() < 65536
    &&& b.subrange(0, 2) == enc_u2(a.type_index)
    &&& b.subrange(2, 4) == be16(a.element_value_pairs@.len() as u16)
    &&& pairs_ok(a.element_value_pairs@, b.subrange(4, b.len() as int), depth)
}

/// `b` encodes the annotations `s` one after another.
pub open spec fn anns_ok(s: Seq<Annotation>, b: Seq<u8>, depth: nat) -> bool
    decreases depth, 3nat, s.len(),
{
    if s.len() == 0 {
        b.len() == 0
    } else {
        exists|k: int|
            0 <= k <= b.len() && anns_ok(s.drop_last(), #[trigger] b.subrange(0, k), depth)
                && ann_ok(s.last(), b.subrange(k, b.len() as int), depth)
    }
}

/// The encoding of a localvar_target table, without its count.
pub open spec fn enc_localvars(s: Seq<LocalvarInner>) -> Seq<u8>
    decreases s.len(),
{
    if s.len() == 0 {
        Seq::empty()
    } else {
        enc_localvars(s.drop_last()) + enc_u2(s.last().start_pc) + enc_u2(s.last().length)
            + enc_u2(s.last().index)
    }
}

/// `b` encodes the target_type byte and target_info `t`.
pub open spec fn target_ok(t: TargetInfo, b: Seq<u8>) -> bool {
    &&& b.len() >= 1
    &&& {
        let rest = b.subrange(1, b.len() as int);
        match t {
            TargetInfo::TypeParameterTarget(x) => (b[0] == 0x00 || b[0] == 0x01) && rest
                == seq![x.type_parameter_index],
            TargetInfo::Supertype(x) => b[0] == 0x10 && rest == enc_u2(x.supertype_index),
            TargetInfo::TypeParameterBound(x) => (b[0] == 0x11 || b[0] == 0x12) && rest
                == seq![x.type_parameter_index, x.bound_index],
            TargetInfo::Empty => 0x13 <= b[0] <= 0x15 && rest.len() == 0,
            TargetInfo::FormalParameter(x) => b[0] == 0x16 && rest
                == seq![x.formal_parameter_index],
            TargetInfo::Throws(x) => b[0] == 0x17 && rest == seq![x.throws_type_index],
            TargetInfo::Localvar(x) => (b[0] == 0x40 || b[0] == 0x41) && x.table@.len() < 65536
                && rest == be16(x.table@.len() as u16) + enc_localvars(x.table@),
            TargetInfo::Catch(x) => b[0] == 0x42 && rest == enc_u2(x.exception_table_index),
            TargetInfo::Offset(x) => 0x43 <= b[0] <= 0x46 && rest == enc_u2(x.offset),
            TargetInfo::TypeArgument(x) => 0x47 <= b[0] <= 0x4B && rest == enc_u2(x.offset)
                + seq![x.type_argument_index],
        }
    }
}

/// The target types that open a type annotation.
pub open spec fn is_target_type(t: u8) -> bool {
    t <= 0x01 || (0x10 <= t <= 0x17) || (0x40 <= t <= 0x4B)
}

/// The encoding of a type_path's entries, without their count.
pub open spec fn enc_path_entries(s: Seq<TypePathInner>) -> Seq<u8>
    decreases s.len(),
{
    if s.len() == 0 {
        Seq::empty()
    } else {
        enc_path_entries(s.drop_last()) + seq![s.last().type_path_kind, s.last().type_argument_index]
    }
}

/// The encoding of a type_path.
pub open spec fn enc_path(p: TypePath) -> Seq<u8> {
    seq![p.path@.len() as u8] + enc_path_entries(p.path@)
}

/// `b` encodes one element_value_pair of a type annotation.
pub open spec fn tpair_ok(p: TypeAnnotationInner, b: Seq<u8>, depth: nat) -> bool
    decreases depth, 0nat, 1nat,
{
    b.len() >= 2 && b.subrange(0, 2) == enc_u2(p.element_name_index) && ev_ok(
        p.value,
        b.subrange(2, b.len() as int),
        depth,
    )
}

/// `b` encodes the element_value_pairs `s` of a type annotation.
pub open spec fn tpairs_ok(s: Seq<TypeAnnotationInner>, b: Seq<u8>, depth: nat) -> bool
    decreases depth, 1nat, s.len(),
{
    if s.len() == 0 {
        b.len() == 0
    } else {
        exists|k: int|
            0 <= k <= b.len() && tpairs_ok(s.drop_last(), #[trigger] b.subrange(0, k), depth)
                && tpair_ok(s.last(), b.subrange(k, b.len() as int), depth)
    }
}

/// `b` encodes the type annotation `t`.
pub open spec fn ta_ok(t: TypeAnnotation, b: Seq<u8>, depth: nat) -> bool {
    &&& t.target_path.path@.len() < 256
    &&& t.num_element_value_pairs.0 == t.element_value_pairs@.len()
    &&& exists|k1: int, k2: int|
        0 <= k1 <= k2 <= b.len() && target_ok(t.target_info, #[trigger] b.subrange(0, k1))
            && #[trigger] b.subrange(k1, k2) == enc_path(t.target_path) + enc_u2(t.type_index)
            + enc_u2(t.num_element_value_pairs) && tpairs_ok(
            t.element_value_pairs@,
            b.subrange(k2, b.len() as int),
            depth,
        )
}

/// `b` encodes the type annotations `s` one after another.
pub open spec fn tas_ok(s: Seq<TypeAnnotation>, b: Seq<u8>, depth: nat) -> bool
    decreases s.len(),
{
    if s.len() == 0 {
        b.len() == 0
    } else {
        exists|k: int|
            0 <= k <= b.len() && tas_ok(s.drop_last(), #[trigger] b.subrange(0, k), depth) && ta_ok(
                s.last(),
                b.subrange(k, b.len() as int),
                depth,
            )
    }
}

/// Where the element value at `pos`, nested at most `depth` deep, ends.
pub open spec fn ev_end(b: Seq<u8>, pos: int, depth: int) -> Result<int, Fail>
    decreases depth, 2int, 0int,
{
    if depth <= 0 {
        Err(Fail::Error(ParsingError::NestingTooDeep))
    } else if pos + 1 > b.len() {
        Err(Fail::Error(ParsingError::EndOfInput))
    } else {
        let t = b[pos];
        let p = pos + 1;
        if is_const_tag(t) || t == 99 {
            skip(b, p, 2)
        } else if t == 101 {
            skip(b, p, 4)
        } else if t == 64 {
            ann_end(b, p, depth - 1)
        } else if t == 91 {
            if p + 2 > b.len() {
                Err(Fail::Error(ParsingError::EndOfInput))
            } else {
                evs_end(b, p + 2, u16_at(b, p), depth - 1)
            }
        } else {
            Err(Fail::Error(ParsingError::InvalidElementValue(t)))
        }
    }
}

/// Where `n` element values in a row end.
pub open spec fn evs_end(b: Seq<u8>, pos: int, n: int, depth: int) -> Result<int, Fail>
    decreases depth, 3int, n,
{
    if n <= 0 {
        Ok(pos)
    } else {
        match ev_end(b, pos, depth) {
            Ok(e) => evs_end(b, e, n - 1, depth),
            Err(x) => Err(x),
        }
    }
}

/// Where `n` element_value_pairs in a row end.
pub open spec fn pairs_end(b: Seq<u8>, pos: int, n: int, depth: int) -> Result<int, Fail>
    decreases depth, 4int, n,
{
    if n <= 0 {
        Ok(pos)
    } else if pos + 2 > b.len() {
        Err(Fail::Error(ParsingError::EndOfInput))
    } else {
        match ev_end(b, pos + 2, depth) {
            Ok(e) => pairs_end(b, e, n - 1, depth),
            Err(x) => Err(x),
        }
    }
}

/// Where the annotation at `pos` ends.
pub open spec fn ann_end(b: Seq<u8>, pos: int, depth: int) -> Result<int, Fail>
    decreases depth, 5int, 0int,
{
    if pos + 4 > b.len() {
        Err(Fail::Error(ParsingError::EndOfInput))
    } else {
        pairs_end(b, pos + 4, u16_at(b, pos + 2), depth)
    }
}

/// One annotation, as an item of a list.
pub open spec fn ann_item(depth: int) -> spec_fn(Seq<u8>, int) -> Result<int, Fail> {
    |b: Seq<u8>, pos: int| ann_end(b, pos, depth)
}

/// Where the target_type and target_info at `pos` end.
pub open spec fn target_end(b: Seq<u8>, pos: int) -> Result<int, Fail> {
    if pos + 1 > b.len() {
        Err(Fail::Error(ParsingError::EndOfInput))
    } else {
        let t = b[pos];
        let p = pos + 1;
        if t <= 0x01 || t == 0x16 || t == 0x17 {
            skip(b, p, 1)
        } else if t == 0x10 || t == 0x11 || t == 0x12 || t == 0x42 || (0x43 <= t <= 0x46) {
            skip(b, p, 2)
        } else if 0x13 <= t <= 0x15 {
            Ok(p)
        } else if t == 0x40 || t == 0x41 {
            if p + 2 > b.len() {
                Err(Fail::Error(ParsingError::EndOfInput))
            } else {
                skip(b, p + 2, 6 * u16_at(b, p))
            }
        } else if 0x47 <= t <= 0x4B {
            skip(b, p, 3)
        } else {
            Err(Fail::Error(ParsingError::InvalidTargetType(t)))
        }
    }
}

/// Where the type_path at `pos` ends.
pub open spec fn path_end(b: Seq<u8>, pos: int) -> Result<int, Fail> {
    if pos + 1 > b.len() {
        Err(Fail::Error(ParsingError::EndOfInput))
    } else {
        skip(b, pos + 1, 2 * b[pos])
    }
}

/// Where the type annotation at `pos` ends.
pub open spec fn ta_end(b: Seq<u8>, pos: int, depth: int) -> Result<int, Fail> {
    match target_end(b, pos) {
        Err(x) => Err(x),
        Ok(e1) => match path_end(b, e1) {
            Err(x) => Err(x),
            Ok(e2) => if e2 + 4 > b.len() {
                Err(Fail::Error(ParsingError::EndOfInput))
            } else {
                pairs_end(b, e2 + 4, u16_at(b, e2 + 2), depth)
            },
        },
    }
}

/// One type annotation, as an item of a list.
pub open spec fn ta_item(depth: int) -> spec_fn(Seq<u8>, int) -> Result<int, Fail> {
    |b: Seq<u8>, pos: int| ta_end(b, pos, depth)
}

impl<'class> Parser<'class> {
    /// Reads one element value, nested at most `depth` deep.
    pub fn element_value(&mut self, depth: u32) -> (r: Result<ElementValue, ParsingError>)
        requires
            old(self).wf(),
        ensures
            final(self).wf(),
            depth > 0 && !short(*old(self), 1) && !is_ev_tag(old(self).input()[old(self).pos()]) ==> r == Err::<ElementValue, ParsingError>(
                ParsingError::InvalidElementValue(old(self).input()[old(self).pos()]),
            ),
            r matches Ok(v) ==> advanced(*old(self), *final(self)) && ev_ok(
                v,
                consumed(*old(self), *final(self)),
                depth as nat,
            ),
            (r is Ok) == (ev_end(old(self).input(), old(self).pos(), depth as int) is Ok),
            r matches Err(e) ==> err_is(e, (ev_end(old(self).input(), old(self).pos(), depth as int))->Err_0),
            r is Ok ==> final(self).pos() == ev_end(
                old(self).input(),
                old(self).pos(),
                depth as int,
            )->Ok_0,
            r matches Err(e) ==> annotation_error(e),
        decreases depth, 1int,
    {
        if depth == 0 {
            return Err(ParsingError::NestingTooDeep);
        }
        let ghost p0 = *self;
        let tag = self.u1()?;
        let ghost p1 = *self;
        proof {
            lemma_reads_consumed(p0, p1, seq![tag]);
        }
        if tag == 66 || tag == 67 || tag == 68 || tag == 70 || tag == 73 || tag == 74
            || tag == 83 || tag == 115 || tag == 90 {
            let i = self.u2()?;
            proof {
                lemma_reads_consumed(p1, *self, enc_u2(i));
                lemma_consumed_cat(p0, p1, *self);
                assert(consumed(p0, *self)[0] == consumed(p0, p1)[0]);
            }
            Ok(ElementValue::ConstValueIndex(i))
        } else if tag == 101 {
            let (type_name_index, const_name_index) = self.u2_pair()?;
            proof {
                lemma_reads_consumed(
                    p1,
                    *self,
                    enc_u2(type_name_index) + enc_u2(const_name_index),
                );
                lemma_consumed_cat(p0, p1, *self);
                assert(consumed(p0, *self)[0] == consumed(p0, p1)[0]);
            }
            Ok(ElementValue::EnumConstValue(EnumConstValue { type_name_index, const_name_index }))
        } else if tag == 99 {
            let i = self.u2()?;
            proof {
                lemma_reads_consumed(p1, *self, enc_u2(i));
                lemma_consumed_cat(p0, p1, *self);
                assert(consumed(p0, *self)[0] == consumed(p0, p1)[0]);
            }
            Ok(ElementValue::ClassInfoIndex(i))
        } else if tag == 64 {
            let a = self.annotation(depth - 1)?;
            proof {
                lemma_consumed_cat(p0, p1, *self);
                assert(consumed(p0, *self)[0] == consumed(p0, p1)[0]);
            }
            Ok(ElementValue::AnnotationValue(a))
        } else if tag == 91 {
            let length = self.u2()?;
            let ghost p2 = *self;
            proof {
                lemma_reads_consumed(p1, p2, enc_u2(length));
            }
            let mut values: Vec<ElementValue> = Vec::with_capacity(length.0 as usize);
            proof {
                lemma_reads_nothing(p2);
                lemma_reads_consumed(p2, p2, Seq::empty());
            }
            let mut i: u16 = 0;
            while i < length.0
                invariant
                    self.wf(),
                    p2.wf(),
                    depth > 0,
                    i <= length.0,
                    values@.len() == i,
                    advanced(p2, *self),
                    evs_ok(values@, consumed(p2, *self), (depth - 1) as nat),
                    *old(self) == p0,
                    p2.input() == p0.input(),
                    p2.pos() == p0.pos() + 3,
                    p0.input()[p0.pos()] == 91,
                    length.0 == u16_at(p0.input(), p0.pos() + 1),
                    evs_end(p2.input(), p2.pos(), length.0 as int, depth - 1) == evs_end(
                        self.input(),
                        self.pos(),
                        length.0 - i,
                        depth - 1,
                    ),
                decreases length.0 - i,
            {
                let ghost mid = *self;
                let ghost old_values = values@;
                let v = match self.element_value(depth - 1) {
                    Ok(v) => v,
                    Err(e) => {
                        proof {
                            assert(evs_end(mid.input(), mid.pos(), length.0 - i, depth - 1) is Err);
                        }
                        return Err(e);
                    },
                };
                values.push(v);
                proof {
                    lemma_consumed_cat(p2, mid, *self);
                    assert(values@.drop_last() =~= old_values);
                    let k = mid.pos() - p2.pos();
                    assert(evs_ok(
                        values@.drop_last(),
                        consumed(p2, *self).subrange(0, k),
                        (depth - 1) as nat,
                    ));
                }
                i = i + 1;
            }
            proof {
                lemma_consumed_cat(p1, p2, *self);
                lemma_consumed_cat(p0, p1, *self);
                let b = consumed(p0, *self);
                assert(b.subrange(1, 3) == consumed(p1, p2)) by {
                    assert(b.subrange(1, 3) =~= consumed(p1, *self).subrange(0, 2));
                }
                assert(b.subrange(3, b.len() as int) == consumed(p2, *self)) by {
                    assert(b.subrange(3, b.len() as int) =~= consumed(p1, *self).subrange(
                        2,
                        consumed(p1, *self).len() as int,
                    ));
                }
                assert(b[0] == consumed(p0, p1)[0]);
            }
            Ok(ElementValue::ArrayValue(ArrayValue { element_value: values }))
        } else {
            Err(ParsingError::InvalidElementValue(tag))
        }
    }

    /// Reads one annotation, its element values nested at most `depth` deep.
    pub fn annotation(&mut self, depth: u32) -> (r: Result<Annotation, ParsingError>)
        requires
            old(self).wf(),
        ensures
            final(self).wf(),
            r matches Ok(a) ==> advanced(*old(self), *final(self)) && ann_ok(
                a,
                consumed(*old(self), *final(self)),
                depth as nat,
            ),
            (r is Ok) == (ann_end(old(self).input(), old(self).pos(), depth as int) is Ok),
            r matches Err(e) ==> err_is(e, (ann_end(old(self).input(), old(self).pos(), depth as int))->Err_0),
            r is Ok ==> final(self).pos() == ann_end(
                old(self).input(),
                old(self).pos(),
                depth as int,
            )->Ok_0,
            r matches Err(e) ==> annotation_error(e),
        decreases depth, 2int,
    {
        let ghost p0 = *self;
        let (type_index, num_element_value_pairs) = self.u2_pair()?;
        let ghost p1 = *self;
        proof {
            lemma_reads_consumed(p0, p1, enc_u2(type_index) + enc_u2(num_element_value_pairs));
        }
        let n = num_element_value_pairs.0;
        let mut element_value_pairs: Vec<AnnotationInner> = Vec::with_capacity(n as usize);
        proof {
            lemma_reads_nothing(p1);
            lemma_reads_consumed(p1, p1, Seq::empty());
        }
        let mut i: u16 = 0;
        while i < n
            invariant
                self.wf(),
                p1.wf(),
                i <= n,
                element_value_pairs@.len() == i,
                advanced(p1, *self),
                pairs_ok(element_value_pairs@, consumed(p1, *self), depth as nat),
                *old(self) == p0,
                p1.input() == p0.input(),
                p1.pos() == p0.pos() + 4,
                n == u16_at(p0.input(), p0.pos() + 2),
                pairs_end(p1.input(), p1.pos(), n as int, depth as int) == pairs_end(
                    self.input(),
                    self.pos(),
                    n - i,
                    depth as int,
                ),
            decreases n - i,
        {
            let ghost mid = *self;
            let ghost old_pairs = element_value_pairs@;
            let element_name_index = match self.u2() {
                Ok(v) => v,
                Err(e) => {
                    proof {
                        assert(pairs_end(mid.input(), mid.pos(), n - i, depth as int) is Err);
                    }
                    return Err(e);
                },
            };
            let ghost q = *self;
            let value = match self.element_value(depth) {
                Ok(v) => v,
                Err(e) => {
                    proof {
                        assert(pairs_end(mid.input(), mid.pos(), n - i, depth as int) is Err);
                    }
                    return Err(e);
                },
            };
            let pair = AnnotationInner { element_name_index, value };
            element_value_pairs.push(pair);
            proof {
                lemma_reads_consumed(mid, q, enc_u2(element_name_index));
                lemma_consumed_cat(mid, q, *self);
                assert(pair_ok(pair, consumed(mid, *self), depth as nat));
                lemma_consumed_cat(p1, mid, *self);
                assert(element_value_pairs@.drop_last() =~= old_pairs);
                let k = mid.pos() - p1.pos();
                assert(pairs_ok(
                    element_value_pairs@.drop_last(),
                    consumed(p1, *self).subrange(0, k),
                    depth as nat,
                ));
            }
            i = i + 1;
        }
        proof {
            lemma_consumed_cat(p0, p1, *self);
            let b = consumed(p0, *self);
            assert(b.subrange(0, 2) =~= enc_u2(type_index));
            assert(b.subrange(2, 4) =~= enc_u2(num_element_value_pairs));
        }
        Ok(Annotation { type_index, element_value_pairs })
    }

    /// Reads `length` annotations in a row.
    pub fn annotation_range(&mut self, length: u16, depth: u32) -> (r: Result<
        Vec<Annotation>,
        ParsingError,
    >)
        requires
            old(self).wf(),
        ensures
            final(self).wf(),
            (r is Ok) == (list_end(
                old(self).input(),
                old(self).pos(),
                length as int,
                ann_item(depth as int),
            ) is Ok),
            r matches Err(e) ==> err_is(e, (list_end(
                old(self).input(),
                old(self).pos(),
                length as int,
                ann_item(depth as int),
            ))->Err_0),
            r is Ok ==> final(self).pos() == list_end(
                old(self).input(),
                old(self).pos(),
                length as int,
                ann_item(depth as int),
            )->Ok_0,
            r matches Ok(v) ==> v@.len() == length && advanced(*old(self), *final(self)) && anns_ok(
                v@,
                consumed(*old(self), *final(self)),
                depth as nat,
            ),
            r matches Err(e) ==> annotation_error(e),
    {
        let ghost p0 = *self;
        let mut annotations: Vec<Annotation> = Vec::with_capacity(length as usize);
        proof {
            lemma_reads_nothing(p0);
            lemma_reads_consumed(p0, p0, Seq::empty());
        }
        let mut i: u16 = 0;
        while i < length
            invariant
                self.wf(),
                p0.wf(),
                i <= length,
                annotations@.len() == i,
                advanced(p0, *self),
                anns_ok(annotations@, consumed(p0, *self), depth as nat),
                *old(self) == p0,
                list_end(p0.input(), p0.pos(), length as int, ann_item(depth as int)) == list_end(
                    self.input(),
                    self.pos(),
                    length - i,
                    ann_item(depth as int),
                ),
            decreases length - i,
        {
            let ghost mid = *self;
            let ghost old_annotations = annotations@;
            let a = self.annotation(depth)?;
            assert(ann_item(depth as int)(mid.input(), mid.pos()) == Ok::<int, Fail>(self.pos()));
            annotations.push(a);
            proof {
                lemma_consumed_cat(p0, mid, *self);
                assert(annotations@.drop_last() =~= old_annotations);
                let k = mid.pos() - p0.pos();
                assert(anns_ok(
                    annotations@.drop_last(),
                    consumed(p0, *self).subrange(0, k),
                    depth as nat,
                ));
            }
            i = i + 1;
        }
        Ok(annotations)
    }

    /// Reads a target_type byte and the target_info it selects.
    fn target_info(&mut self) -> (r: Result<TargetInfo, ParsingError>)
        requires
            old(self).wf(),
        ensures
            final(self).wf(),
            (r is Ok) == (target_end(old(self).input(), old(self).pos()) is Ok),
            r matches Err(e) ==> err_is(e, (target_end(old(self).input(), old(self).pos()))->Err_0),
            r is Ok ==> final(self).pos() == target_end(old(self).input(), old(self).pos())->Ok_0,
            r matches Ok(t) ==> advanced(*old(self), *final(self)) && target_ok(
                t,
                consumed(*old(self), *final(self)),
            ),
            r matches Err(e) ==> {
                ||| e == ParsingError::EndOfInput
                ||| (e matches ParsingError::InvalidTargetType(t) && !is_target_type(t))
            },
    {
        let ghost p0 = *self;
        let target_type = self.u1()?;
        let ghost p1 = *self;
        let t = if target_type <= 0x01 {
            let type_parameter_index = self.u1()?;
            TargetInfo::TypeParameterTarget(TypeParameterTarget { type_parameter_index })
        } else if target_type == 0x10 {
            let supertype_index = self.u2()?;
            TargetInfo::Supertype(Supertype { supertype_index })
        } else if target_type == 0x11 || target_type == 0x12 {
            let type_parameter_index = self.u1()?;
            let ghost p2 = *self;
            let bound_index = self.u1()?;
            proof {
                lemma_reads_trans(p1, p2, *self, seq![type_parameter_index], seq![bound_index]);
                assert(seq![type_parameter_index] + seq![bound_index] =~= seq![
                    type_parameter_index,
                    bound_index,
                ]);
            }
            TargetInfo::TypeParameterBound(TypeParameterBound { type_parameter_index, bound_index })
        } else if 0x13 <= target_type && target_type <= 0x15 {
            proof {
                lemma_reads_nothing(p1);
            }
            TargetInfo::Empty
        } else if target_type == 0x16 {
            let formal_parameter_index = self.u1()?;
            TargetInfo::FormalParameter(FormalParameter { formal_parameter_index })
        } else if target_type == 0x17 {
            let throws_type_index = self.u1()?;
            TargetInfo::Throws(Throws { throws_type_index })
        } else if target_type == 0x40 || target_type == 0x41 {
            let length = self.u2()?;
            let ghost p2 = *self;
            let mut table: Vec<LocalvarInner> = Vec::with_capacity(length.0 as usize);
            proof {
                lemma_reads_nothing(p2);
                assert(enc_localvars(table@) =~= Seq::<u8>::empty());
            }
            let mut i: u16 = 0;
            while i < length.0
                invariant
                    self.wf(),
                    i <= length.0,
                    table@.len() == i,
                    reads(p2, *self, enc_localvars(table@)),
                    self.pos() == p2.pos() + 6 * i,
                    *old(self) == p0,
                    p2.input() == p0.input(),
                    p2.pos() == p0.pos() + 3,
                    p0.input()[p0.pos()] == 0x40 || p0.input()[p0.pos()] == 0x41,
                    length.0 == u16_at(p0.input(), p0.pos() + 1),
                decreases length.0 - i,
            {
                let ghost mid = *self;
                let ghost old_table = table@;
                let start_pc = self.u2()?;
                let ghost q1 = *self;
                let (length, index) = self.u2_pair()?;
                table.push(LocalvarInner { start_pc, length, index });
                proof {
                    lemma_reads_trans(mid, q1, *self, enc_u2(start_pc), enc_u2(length) + enc_u2(index));
                    assert(table@.drop_last() =~= old_table);
                    lemma_reads_trans(
                        p2,
                        mid,
                        *self,
                        enc_localvars(old_table),
                        enc_u2(start_pc) + (enc_u2(length) + enc_u2(index)),
                    );
                    assert(enc_localvars(old_table) + (enc_u2(start_pc) + (enc_u2(length) + enc_u2(
                        index,
                    ))) =~= enc_localvars(table@));
                }
                i = i + 1;
            }
            proof {
                lemma_reads_trans(p1, p2, *self, enc_u2(length), enc_localvars(table@));
            }
            TargetInfo::Localvar(Localvar { table })
        } else if target_type == 0x42 {
            let exception_table_index = self.u2()?;
            TargetInfo::Catch(Catch { exception_table_index })
        } else if 0x43 <= target_type && target_type <= 0x46 {
            let offset = self.u2()?;
            TargetInfo::Offset(Offset { offset })
        } else if 0x47 <= target_type && target_type <= 0x4B {
            let offset = self.u2()?;
            let ghost p2 = *self;
            let type_argument_index = self.u1()?;
            proof {
                lemma_reads_trans(p1, p2, *self, enc_u2(offset), seq![type_argument_index]);
            }
            TargetInfo::TypeArgument(TypeArgument { offset, type_argument_index })
        } else {
            return Err(ParsingError::InvalidTargetType(target_type));
        };
        proof {
            let body = p1.input().subrange(p1.pos(), self.pos());
            lemma_reads_trans(p0, p1, *self, seq![target_type], body);
            lemma_reads_consumed(p0, *self, seq![target_type] + body);
            let b = consumed(p0, *self);
            assert(b[0] == target_type);
            assert(b.subrange(1, b.len() as int) =~= body);
        }
        Ok(t)
    }

    /// Reads a type_path.
    fn type_path(&mut self) -> (r: Result<TypePath, ParsingError>)
        requires
            old(self).wf(),
        ensures
            final(self).wf(),
            (r is Ok) == (path_end(old(self).input(), old(self).pos()) is Ok),
            r matches Err(e) ==> err_is(e, (path_end(old(self).input(), old(self).pos()))->Err_0),
            r is Ok ==> final(self).pos() == path_end(old(self).input(), old(self).pos())->Ok_0,
            r matches Ok(p) ==> reads(*old(self), *final(self), enc_path(p)) && p.path@.len()
                < 256,
            r matches Err(e) ==> e == ParsingError::EndOfInput,
    {
        let ghost p0 = *self;
        let type_path_length = self.u1()?;
        let ghost p1 = *self;
        let mut path: Vec<TypePathInner> = Vec::with_capacity(type_path_length as usize);
        proof {
            lemma_reads_nothing(p1);
            assert(enc_path_entries(path@) =~= Seq::<u8>::empty());
        }
        let mut i: u8 = 0;
        while i < type_path_length
            invariant
                self.wf(),
                i <= type_path_length,
                path@.len() == i,
                reads(p1, *self, enc_path_entries(path@)),
                self.pos() == p1.pos() + 2 * i,
                *old(self) == p0,
                p1.input() == p0.input(),
                p1.pos() == p0.pos() + 1,
                type_path_length == p0.input()[p0.pos()],
            decreases type_path_length - i,
        {
            let ghost mid = *self;
            let ghost old_path = path@;
            let type_path_kind = self.u1()?;
            let ghost q = *self;
            let type_argument_index = self.u1()?;
            path.push(TypePathInner { type_path_kind, type_argument_index });
            proof {
                lemma_reads_trans(mid, q, *self, seq![type_path_kind], seq![type_argument_index]);
                assert(path@.drop_last() =~= old_path);
                lemma_reads_trans(
                    p1,
                    mid,
                    *self,
                    enc_path_entries(old_path),
                    seq![type_path_kind] + seq![type_argument_index],
                );
                assert(enc_path_entries(old_path) + (seq![type_path_kind] + seq![
                    type_argument_index,
                ]) =~= enc_path_entries(path@));
            }
            i = i + 1;
        }
        proof {
            lemma_reads_trans(p0, p1, *self, seq![type_path_length], enc_path_entries(path@));
        }
        Ok(TypePath { path })
    }

    /// Reads one type annotation, its element values nested at most `depth` deep.
    pub fn type_annotation(&mut self, depth: u32) -> (r: Result<TypeAnnotation, ParsingError>)
        requires
            old(self).wf(),
        ensures
            final(self).wf(),
            !short(*old(self), 1) && !is_target_type(old(self).input()[old(self).pos()]) ==> r == Err::<TypeAnnotation, ParsingError>(
                ParsingError::InvalidTargetType(old(self).input()[old(self).pos()]),
            ),
            (r is Ok) == (ta_end(old(self).input(), old(self).pos(), depth as int) is Ok),
            r matches Err(e) ==> err_is(e, (ta_end(old(self).input(), old(self).pos(), depth as int))->Err_0),
            r is Ok ==> final(self).pos() == ta_end(
                old(self).input(),
                old(self).pos(),
                depth as int,
            )->Ok_0,
            r matches Ok(t) ==> advanced(*old(self), *final(self)) && ta_ok(
                t,
                consumed(*old(self), *final(self)),
                depth as nat,
            ),
            r matches Err(e) ==> {
                ||| annotation_error(e)
                ||| (e matches ParsingError::InvalidTargetType(t) && !is_target_type(t))
            },
    {
        let ghost p0 = *self;
        let target_info = self.target_info()?;
        let ghost p1 = *self;
        let target_path = self.type_path()?;
        let ghost p2 = *self;
        let (type_index, num_element_value_pairs) = self.u2_pair()?;
        let ghost p3 = *self;
        proof {
            lemma_reads_trans(
                p1,
                p2,
                p3,
                enc_path(target_path),
                enc_u2(type_index) + enc_u2(num_element_value_pairs),
            );
            lemma_reads_consumed(
                p1,
                p3,
                enc_path(target_path) + (enc_u2(type_index) + enc_u2(num_element_value_pairs)),
            );
        }
        let n = num_element_value_pairs.0;
        proof {
            assert(target_end(p0.input(), p0.pos()) == Ok::<int, Fail>(p1.pos()));
            assert(path_end(p0.input(), p1.pos()) == Ok::<int, Fail>(p2.pos()));
            assert(ta_end(p0.input(), p0.pos(), depth as int) == pairs_end(
                p3.input(),
                p3.pos(),
                n as int,
                depth as int,
            ));
        }
        let mut element_value_pairs: Vec<TypeAnnotationInner> = Vec::with_capacity(n as usize);
        proof {
            lemma_reads_nothing(p3);
            lemma_reads_consumed(p3, p3, Seq::empty());
        }
        let mut i: u16 = 0;
        while i < n
            invariant
                self.wf(),
                p3.wf(),
                i <= n,
                element_value_pairs@.len() == i,
                advanced(p3, *self),
                tpairs_ok(element_value_pairs@, consumed(p3, *self), depth as nat),
                ta_end(p0.input(), p0.pos(), depth as int) == pairs_end(
                    p3.input(),
                    p3.pos(),
                    n as int,
                    depth as int,
                ),
                *old(self) == p0,
                pairs_end(p3.input(), p3.pos(), n as int, depth as int) == pairs_end(
                    self.input(),
                    self.pos(),
                    n - i,
                    depth as int,
                ),
            decreases n - i,
        {
            let ghost mid = *self;
            let ghost old_pairs = element_value_pairs@;
            let element_name_index = match self.u2() {
                Ok(v) => v,
                Err(e) => {
                    proof {
                        assert(pairs_end(mid.input(), mid.pos(), n - i, depth as int) is Err);
                    }
                    return Err(e);
                },
            };
            let ghost q = *self;
            let value = match self.element_value(depth) {
                Ok(v) => v,
                Err(e) => {
                    proof {
                        assert(pairs_end(mid.input(), mid.pos(), n - i, depth as int) is Err);
                    }
                    return Err(e);
                },
            };
            let pair = TypeAnnotationInner { element_name_index, value };
            element_value_pairs.push(pair);
            proof {
                lemma_reads_consumed(mid, q, enc_u2(element_name_index));
                lemma_consumed_cat(mid, q, *self);
                assert(tpair_ok(pair, consumed(mid, *self), depth as nat));
                lemma_consumed_cat(p3, mid, *self);
                assert(element_value_pairs@.drop_last() =~= old_pairs);
                let k = mid.pos() - p3.pos();
                assert(tpairs_ok(
                    element_value_pairs@.drop_last(),
                    consumed(p3, *self).subrange(0, k),
                    depth as nat,
                ));
            }
            i = i + 1;
        }
        let t = TypeAnnotation {
            target_info,
            target_path,
            type_index,
            num_element_value_pairs,
            element_value_pairs,
        };
        proof {
            lemma_consumed_cat(p0, p1, p3);
            lemma_consumed_cat(p0, p3, *self);
            let b = consumed(p0, *self);
            let k1 = p1.pos() - p0.pos();
            let k2 = p3.pos() - p0.pos();
            assert(b.subrange(0, k1) =~= consumed(p0, p1));
            assert(b.subrange(k1, k2) =~= consumed(p1, p3));
            assert(enc_path(target_path) + (enc_u2(type_index) + enc_u2(num_element_value_pairs))
                =~= enc_path(target_path) + enc_u2(type_index) + enc_u2(num_element_value_pairs));
            assert(b.subrange(k2, b.len() as int) =~= consumed(p3, *self));
            assert(ta_ok(t, b, depth as nat));
        }
        Ok(t)
    }

    /// Reads `length` type annotations in a row.
    pub fn type_annotation_range(&mut self, length: u16, depth: u32) -> (r: Result<
        Vec<TypeAnnotation>,
        ParsingError,
    >)
        requires
            old(self).wf(),
        ensures
            final(self).wf(),
            (r is Ok) == (list_end(
                old(self).input(),
                old(self).pos(),
                length as int,
                ta_item(depth as int),
            ) is Ok),
            r matches Err(e) ==> err_is(e, (list_end(
                old(self).input(),
                old(self).pos(),
                length as int,
                ta_item(depth as int),
            ))->Err_0),
            r is Ok ==> final(self).pos() == list_end(
                old(self).input(),
                old(self).pos(),
                length as int,
                ta_item(depth as int),
            )->Ok_0,
            r matches Ok(v) ==> v@.len() == length && advanced(*old(self), *final(self)) && tas_ok(
                v@,
                consumed(*old(self), *final(self)),
                depth as nat,
            ),
            r matches Err(e) ==> {
                ||| annotation_error(e)
                ||| (e matches ParsingError::InvalidTargetType(t) && !is_target_type(t))
            },
    {
        let ghost p0 = *self;
        let mut annotations: Vec<TypeAnnotation> = Vec::with_capacity(length as usize);
        proof {
            lemma_reads_nothing(p0);
            lemma_reads_consumed(p0, p0, Seq::empty());
        }
        let mut i: u16 = 0;
        while i < length
            invariant
                self.wf(),
                p0.wf(),
                i <= length,
                annotations@.len() == i,
                advanced(p0, *self),
                tas_ok(annotations@, consumed(p0, *self), depth as nat),
                *old(self) == p0,
                list_end(p0.input(), p0.pos(), length as int, ta_item(depth as int)) == list_end(
                    self.input(),
                    self.pos(),
                    length - i,
                    ta_item(depth as int),
                ),
            decreases length - i,
        {
            let ghost mid = *self;
            let ghost old_annotations = annotations@;
            let a = self.type_annotation(depth)?;
            assert(ta_item(depth as int)(mid.input(), mid.pos()) == Ok::<int, Fail>(self.pos()));
            annotations.push(a);
            proof {
                lemma_consumed_cat(p0, mid, *self);
                assert(annotations@.drop_last() =~= old_annotations);
                let k = mid.pos() - p0.pos();
                assert(tas_ok(
                    annotations@.drop_last(),
                    consumed(p0, *self).subrange(0, k),
                    depth as nat,
                ));
            }
            i = i + 1;
        }
        Ok(annotations)
    }
}

} // verus!
