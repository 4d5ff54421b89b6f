use vstd::prelude::*;
use crate::class_parser::attributes::{attribute_error, attrs_end, attrs_ok, cp_names};
use crate::class_parser::constant_pool::{
    cp_end, enc_cp, is_cp_tag, pool_names, pool_shape, pool_slots, pool_utf8_valid,
};
use crate::class_parser::encoding::{be16, be32, enc_u2, enc_u2s, lemma_be32_injective};
use crate::class_parser::reader::{
    err_is, Fail,
    advanced, consumed, lemma_consumed_cat, lemma_reads_consumed, lemma_reads_nothing,
    counted_end, lemma_consumed_sub, lemma_reads_trans, list_end, short, u16_at, u32_at, Parser,
};
use crate::class_parser::{ClassFile, CpNode, FieldInfo, MethodInfo};
use crate::consts::{MAGIC, MAX_ATTRIBUTE_DEPTH};
use crate::errors::ParsingError;

verus! {

/// `b` encodes one field_info.
pub open spec fn field_ok(cp: Seq<CpNode>, f: FieldInfo, b: Seq<u8>) -> bool {
    &&& f.attributes@.len() < 65536
    &&& b.len() >= 8
    &&& b.subrange(0, 8) == enc_u2(f.access_flags) + enc_u2(f.name_index) + enc_u2(
        f.descriptor_index,
    ) + be16(f.attributes@.len() as u16)
    &&& attrs_ok(cp, f.attributes@, b.subrange(8, b.len() as int), MAX_ATTRIBUTE_DEPTH as nat)
}

/// `b` encodes the field_info entries `s`, one after another.
pub open spec fn fields_ok(cp: Seq<CpNode>, s: Seq<FieldInfo>, b: Seq<u8>) -> bool
    decreases s.len(),
{
    if s.len() == 0 {
        b.len() == 0
    } else {
        exists|k: int|
            0 <= k <= b.len() && fields_ok(cp, s.drop_last(), #[trigger] b.subrange(0, k))
                && field_ok(cp, s.last(), b.subrange(k, b.len() as int))
    }
}

/// `b` encodes one method_info.
pub open spec fn method_ok(cp: Seq<CpNode>, f: MethodInfo, b: Seq<u8>) -> bool {
    &&& f.attributes@.len() < 65536
    &&& b.len() >= 8
    &&& b.subrange(0, 8) == enc_u2(f.access_flags) + enc_u2(f.name_index) + enc_u2(
        f.descriptor_index,
    ) + be16(f.attributes@.len() as u16)
    &&& attrs_ok(cp, f.attributes@, b.subrange(8, b.len() as int), MAX_ATTRIBUTE_DEPTH as nat)
}

/// `b` encodes the method_info entries `s`, one after another.
pub open spec fn methods_ok(cp: Seq<CpNode>, s: Seq<MethodInfo>, b: Seq<u8>) -> bool
    decreases s.len(),
{
    if s.len() == 0 {
        b.len() == 0
    } else {
        exists|k: int|
            0 <= k <= b.len() && methods_ok(cp, s.drop_last(), #[trigger] b.subrange(0, k))
                && method_ok(cp, s.last(), b.subrange(k, b.len() as int))
    }
}

/// The bytes of a class file up to its fields, with `count` as the
/// constant-pool count.
pub open spec fn enc_head(c: ClassFile, count: u16) -> Seq<u8> {
    be32(MAGIC) + enc_u2(c.minor_v) + enc_u2(c.major_v) + be16(count) + enc_cp(c.cp@) + enc_u2(
        c.access_flags,
    ) + enc_u2(c.this_class) + enc_u2(c.super_class) + be16(c.interfaces@.len() as u16)
        + enc_u2s(c.interfaces@)
}

/// `b` holds a 16-bit count and then what `ok` accepts.
pub open spec fn counted(n: int, b: Seq<u8>) -> bool {
    n < 65536 && b.len() >= 2 && b.subrange(0, 2) == be16(n as u16)
}

/// `b` is exactly a class file that decodes to `c`.
pub open spec fn class_ok(c: ClassFile, b: Seq<u8>) -> bool {
    &&& pool_shape(c.cp@)
    &&& pool_utf8_valid(c.cp@)
    &&& c.interfaces@.len() < 65536
    &&& exists|count: u16, k1: int, k2: int, k3: int|
        #![trigger enc_head(c, count), b.subrange(k1, k2), b.subrange(k2, k3)]
        {
            &&& 0 <= k1 <= k2 <= k3 <= b.len()
            &&& pool_slots(count) == c.cp@.len()
            &&& b.subrange(0, k1) == enc_head(c, count)
            &&& counted(c.fields@.len() as int, b.subrange(k1, k2))
            &&& fields_ok(c.cp@, c.fields@, b.subrange(k1 + 2, k2))
            &&& counted(c.methods@.len() as int, b.subrange(k2, k3))
            &&& methods_ok(c.cp@, c.methods@, b.subrange(k2 + 2, k3))
            &&& counted(c.attributes@.len() as int, b.subrange(k3, b.len() as int))
            &&& attrs_ok(
                c.cp@,
                c.attributes@,
                b.subrange(k3 + 2, b.len() as int),
                MAX_ATTRIBUTE_DEPTH as nat,
            )
        }
}

/// Where the field_info or method_info at `pos` ends.
pub open spec fn member_end(names: spec_fn(int) -> Option<Seq<u8>>, b: Seq<u8>, pos: int) -> Result<int, Fail> {
    if pos + 8 > b.len() {
        Err(Fail::Error(ParsingError::EndOfInput))
    } else {
        attrs_end(names, b, pos + 8, u16_at(b, pos + 6), MAX_ATTRIBUTE_DEPTH as int)
    }
}

/// One field_info or method_info, as an item of a list.
pub open spec fn member_item(names: spec_fn(int) -> Option<Seq<u8>>) -> spec_fn(Seq<u8>, int) -> Result<int, Fail> {
    |b: Seq<u8>, pos: int| member_end(names, b, pos)
}

/// Where the class file at `pos` ends, if it decodes: magic, versions, a
/// constant pool, the class header, fields, methods and attributes, every
/// attribute name resolving in that pool.
pub open spec fn class_end(b: Seq<u8>, pos: int) -> Result<int, Fail> {
    if pos + 4 > b.len() {
        Err(Fail::Error(ParsingError::EndOfInput))
    } else if u32_at(b, pos) != MAGIC as int {
        Err(Fail::Error(ParsingError::Magic))
    } else if pos + 10 > b.len() {
        Err(Fail::Error(ParsingError::EndOfInput))
    } else {
        let slots = pool_slots(u16_at(b, pos + 8) as u16);
        match cp_end(b, pos + 10, slots) {
            Err(x) => Err(x),
            Ok(p1) => {
                let names = pool_names(b, pos + 10, slots);
                if p1 + 8 > b.len() || p1 + 8 + 2 * u16_at(b, p1 + 6) > b.len() {
                    Err(Fail::Error(ParsingError::EndOfInput))
                } else {
                    let p2 = p1 + 8 + 2 * u16_at(b, p1 + 6);
                    match counted_end(b, p2, member_item(names)) {
                        Err(x) => Err(x),
                        Ok(p3) => match counted_end(b, p3, member_item(names)) {
                            Err(x) => Err(x),
                            Ok(p4) => if p4 + 2 > b.len() {
                                Err(Fail::Error(ParsingError::EndOfInput))
                            } else {
                                attrs_end(
                                    names,
                                    b,
                                    p4 + 2,
                                    u16_at(b, p4),
                                    MAX_ATTRIBUTE_DEPTH as int,
                                )
                            },
                        },
                    }
                }
            },
        }
    }
}

/// The errors that parsing a class file can raise.
pub open spec fn parse_error(e: ParsingError) -> bool {
    ||| attribute_error(e)
    ||| e == ParsingError::Magic
    ||| e == ParsingError::Utf8Decode
    ||| (e matches ParsingError::ConstantPoolTag(t) && !is_cp_tag(t))
    ||| e == ParsingError::InvalidConstantPoolLayout
    ||| e == ParsingError::TrailingBytes
}

impl<'class> Parser<'class> {

    /// Reads `length` field_info entries, resolving attribute names in `cp`.
    pub fn fields(&mut self, length: u16, cp: &Vec<CpNode>) -> (r: Result<Vec<FieldInfo>, ParsingError>)
        requires
            old(self).wf(),
        ensures
            final(self).wf(),
            (r is Ok) == (list_end(
                old(self).input(),
                old(self).pos(),
                length as int,
                member_item(cp_names(cp@)),
            ) is Ok),
            r matches Err(e) ==> err_is(e, (list_end(
                old(self).input(),
                old(self).pos(),
                length as int,
                member_item(cp_names(cp@)),
            ))->Err_0),
            r is Ok ==> final(self).pos() == list_end(
                old(self).input(),
                old(self).pos(),
                length as int,
                member_item(cp_names(cp@)),
            )->Ok_0,
            r matches Ok(v) ==> v@.len() == length && advanced(*old(self), *final(self)) && fields_ok(
                cp@,
                v@,
                consumed(*old(self), *final(self)),
            ),
            r matches Err(e) ==> attribute_error(e),
    {
        let ghost p0 = *self;
        let mut out: Vec<FieldInfo> = Vec::with_capacity(length as usize);
        proof {
            lemma_reads_nothing(p0);
            lemma_reads_consumed(p0, p0, Seq::empty());
        }
        let mut i: u16 = 0;
        while i < length
            invariant
                self.wf(),
                p0.wf(),
                i <= length,
                out@.len() == i,
                advanced(p0, *self),
                fields_ok(cp@, out@, consumed(p0, *self)),
                *old(self) == p0,
                list_end(p0.input(), p0.pos(), length as int, member_item(cp_names(cp@))) == list_end(
                    self.input(),
                    self.pos(),
                    length - i,
                    member_item(cp_names(cp@)),
                ),
            decreases length - i,
        {
            let ghost mid = *self;
            let ghost old_out = out@;
            let (access_flags, name_index) = match self.u2_pair() {
                Ok(v) => v,
                Err(e) => {
                    proof {
                        assert(member_item(cp_names(cp@))(mid.input(), mid.pos()) is Err);
                    }
                    return Err(e);
                },
            };
            let ghost q1 = *self;
            let (descriptor_index, attributes_count) = match self.u2_pair() {
                Ok(v) => v,
                Err(e) => {
                    proof {
                        assert(member_item(cp_names(cp@))(mid.input(), mid.pos()) is Err);
                    }
                    return Err(e);
                },
            };
            let ghost q2 = *self;
            proof {
                lemma_reads_trans(
                    mid,
                    q1,
                    q2,
                    enc_u2(access_flags) + enc_u2(name_index),
                    enc_u2(descriptor_index) + enc_u2(attributes_count),
                );
                lemma_reads_consumed(
                    mid,
                    q2,
                    enc_u2(access_flags) + enc_u2(name_index) + (enc_u2(descriptor_index) + enc_u2(
                        attributes_count,
                    )),
                );
            }
            let attributes = match self.attributes(attributes_count.0, cp, MAX_ATTRIBUTE_DEPTH) {
                Ok(v) => v,
                Err(e) => {
                    proof {
                        assert(member_item(cp_names(cp@))(mid.input(), mid.pos()) is Err);
                    }
                    return Err(e);
                },
            };
            proof {
                assert(member_item(cp_names(cp@))(mid.input(), mid.pos()) == Ok::<int, Fail>(self.pos()));
            }
            let f = FieldInfo { access_flags, name_index, descriptor_index, attributes };
            out.push(f);
            proof {
                lemma_consumed_cat(mid, q2, *self);
                assert(consumed(mid, *self).subrange(0, 8) =~= enc_u2(access_flags) + enc_u2(
                    name_index,
                ) + enc_u2(descriptor_index) + be16(f.attributes@.len() as u16));
                assert(field_ok(cp@, f, consumed(mid, *self)));
                lemma_consumed_cat(p0, mid, *self);
                assert(out@.drop_last() =~= old_out);
                let k = mid.pos() - p0.pos();
                assert(fields_ok(cp@, out@.drop_last(), consumed(p0, *self).subrange(0, k)));
            }
            i = i + 1;
        }
        Ok(out)
    }

    /// Reads `length` method_info entries, resolving attribute names in `cp`.
    pub fn methods(&mut self, length: u16, cp: &Vec<CpNode>) -> (r: Result<Vec<MethodInfo>, ParsingError>)
        requires
            old(self).wf(),
        ensures
            final(self).wf(),
            (r is Ok) == (list_end(
                old(self).input(),
                old(self).pos(),
                length as int,
                member_item(cp_names(cp@)),
            ) is Ok),
            r matches Err(e) ==> err_is(e, (list_end(
                old(self).input(),
                old(self).pos(),
                length as int,
                member_item(cp_names(cp@)),
            ))->Err_0),
            r is Ok ==> final(self).pos() == list_end(
                old(self).input(),
                old(self).pos(),
                length as int,
                member_item(cp_names(cp@)),
            )->Ok_0,
            r matches Ok(v) ==> v@.len() == length && advanced(*old(self), *final(self)) && methods_ok(
                cp@,
                v@,
                consumed(*old(self), *final(self)),
            ),
            r matches Err(e) ==> attribute_error(e),
    {
        let ghost p0 = *self;
        let mut out: Vec<MethodInfo> = Vec::with_capacity(length as usize);
        proof {
            lemma_reads_nothing(p0);
            lemma_reads_consumed(p0, p0, Seq::empty());
        }
        let mut i: u16 = 0;
        while i < length
            invariant
                self.wf(),
                p0.wf(),
                i <= length,
                out@.len() == i,
                advanced(p0, *self),
                methods_ok(cp@, out@, consumed(p0, *self)),
                *old(self) == p0,
                list_end(p0.input(), p0.pos(), length as int, member_item(cp_names(cp@))) == list_end(
                    self.input(),
                    self.pos(),
                    length - i,
                    member_item(cp_names(cp@)),
                ),
            decreases length - i,
        {
            let ghost mid = *self;
            let ghost old_out = out@;
            let (access_flags, name_index) = match self.u2_pair() {
                Ok(v) => v,
                Err(e) => {
                    proof {
                        assert(member_item(cp_names(cp@))(mid.input(), mid.pos()) is Err);
                    }
                    return Err(e);
                },
            };
            let ghost q1 = *self;
            let (descriptor_index, attributes_count) = match self.u2_pair() {
                Ok(v) => v,
                Err(e) => {
                    proof {
                        assert(member_item(cp_names(cp@))(mid.input(), mid.pos()) is Err);
                    }
                    return Err(e);
                },
            };
            let ghost q2 = *self;
            proof {
                lemma_reads_trans(
                    mid,
                    q1,
                    q2,
                    enc_u2(access_flags) + enc_u2(name_index),
                    enc_u2(descriptor_index) + enc_u2(attributes_count),
                );
                lemma_reads_consumed(
                    mid,
                    q2,
                    enc_u2(access_flags) + enc_u2(name_index) + (enc_u2(descriptor_index) + enc_u2(
                        attributes_count,
                    )),
                );
            }
            let attributes = match self.attributes(attributes_count.0, cp, MAX_ATTRIBUTE_DEPTH) {
                Ok(v) => v,
                Err(e) => {
                    proof {
                        assert(member_item(cp_names(cp@))(mid.input(), mid.pos()) is Err);
                    }
                    return Err(e);
                },
            };
            proof {
                assert(member_item(cp_names(cp@))(mid.input(), mid.pos()) == Ok::<int, Fail>(self.pos()));
            }
            let f = MethodInfo { access_flags, name_index, descriptor_index, attributes };
            out.push(f);
            proof {
                lemma_consumed_cat(mid, q2, *self);
                assert(consumed(mid, *self).subrange(0, 8) =~= enc_u2(access_flags) + enc_u2(
                    name_index,
                ) + enc_u2(descriptor_index) + be16(f.attributes@.len() as u16));
                assert(method_ok(cp@, f, consumed(mid, *self)));
                lemma_consumed_cat(p0, mid, *self);
                assert(out@.drop_last() =~= old_out);
                let k = mid.pos() - p0.pos();
                assert(methods_ok(cp@, out@.drop_last(), consumed(p0, *self).subrange(0, k)));
            }
            i = i + 1;
        }
        Ok(out)
    }


    /// Decodes one whole class file from the cursor on: the input must end
    /// where the class file does.
    pub fn parse(&mut self) -> (r: Result<ClassFile, ParsingError>)
        requires
            old(self).wf(),
        ensures
            final(self).wf(),
            (r is Ok) == (class_end(old(self).input(), old(self).pos()) == Ok::<int, Fail>(
                old(self).input().len() as int,
            )),
            r matches Err(e) ==> match class_end(old(self).input(), old(self).pos()) {
                Ok(_) => e == ParsingError::TrailingBytes,
                Err(f) => err_is(e, f),
            },
            r matches Ok(c) ==> {
                &&& advanced(*old(self), *final(self))
                &&& final(self).pos() == final(self).input().len()
                &&& class_ok(c, consumed(*old(self), *final(self)))
            },
            (r matches Err(e) && e == ParsingError::Magic) <==> (!short(*old(self), 4)
                && old(self).input().subrange(old(self).pos(), old(self).pos() + 4) != be32(
                MAGIC,
            )),
            short(*old(self), 4) ==> (r matches Err(e) && e == ParsingError::EndOfInput),
            r matches Err(e) ==> parse_error(e),
    {
        let ghost p0 = *self;
        let magic = self.u4()?;
        if magic != MAGIC {
            proof {
                if be32(magic) == be32(MAGIC) {
                    lemma_be32_injective(magic, MAGIC);
                }
            }
            return Err(ParsingError::Magic);
        }
        let ghost mut prev = *self;
        let ghost mut acc = be32(magic);
        let minor_v = self.u2()?;
        proof {
            lemma_reads_trans(p0, prev, *self, acc, enc_u2(minor_v));
            acc = acc + enc_u2(minor_v);
            prev = *self;
        }
        let major_v = self.u2()?;
        proof {
            lemma_reads_trans(p0, prev, *self, acc, enc_u2(major_v));
            acc = acc + enc_u2(major_v);
            prev = *self;
        }
        let cp_count = self.u2()?;
        proof {
            lemma_reads_trans(p0, prev, *self, acc, enc_u2(cp_count));
            acc = acc + enc_u2(cp_count);
            prev = *self;
        }
        let cp = self.cp(cp_count.0)?;
        proof {
            lemma_reads_trans(p0, prev, *self, acc, enc_cp(cp@));
            acc = acc + enc_cp(cp@);
            prev = *self;
        }
        let access_flags = self.u2()?;
        proof {
            lemma_reads_trans(p0, prev, *self, acc, enc_u2(access_flags));
            acc = acc + enc_u2(access_flags);
            prev = *self;
        }
        let this_class = self.u2()?;
        proof {
            lemma_reads_trans(p0, prev, *self, acc, enc_u2(this_class));
            acc = acc + enc_u2(this_class);
            prev = *self;
        }
        let super_class = self.u2()?;
        proof {
            lemma_reads_trans(p0, prev, *self, acc, enc_u2(super_class));
            acc = acc + enc_u2(super_class);
            prev = *self;
        }
        let interfaces_count = self.u2()?;
        proof {
            lemma_reads_trans(p0, prev, *self, acc, enc_u2(interfaces_count));
            acc = acc + enc_u2(interfaces_count);
            prev = *self;
        }
        let interfaces = self.u2_range(interfaces_count.0 as u32)?;
        proof {
            lemma_reads_trans(p0, prev, *self, acc, enc_u2s(interfaces@));
            acc = acc + enc_u2s(interfaces@);
            lemma_reads_consumed(p0, *self, acc);
        }
        let ghost k1 = *self;
        let fields_count = self.u2()?;
        let ghost k1b = *self;
        let fields = self.fields(fields_count.0, &cp)?;
        let ghost k2 = *self;
        let methods_count = self.u2()?;
        let ghost k2b = *self;
        let methods = self.methods(methods_count.0, &cp)?;
        let ghost k3 = *self;
        let attributes_count = self.u2()?;
        let ghost k3b = *self;
        let attributes = self.attributes(attributes_count.0, &cp, MAX_ATTRIBUTE_DEPTH)?;
        if self.remaining() != 0 {
            return Err(ParsingError::TrailingBytes);
        }
        let c = ClassFile {
            minor_v,
            major_v,
            cp,
            access_flags,
            this_class,
            super_class,
            interfaces,
            fields,
            methods,
            attributes,
        };
        proof {
            let end = *self;
            lemma_reads_consumed(k1, k1b, enc_u2(fields_count));
            lemma_reads_consumed(k2, k2b, enc_u2(methods_count));
            lemma_reads_consumed(k3, k3b, enc_u2(attributes_count));
            let b = consumed(p0, end);
            let o1 = k1.pos() - p0.pos();
            let o2 = k2.pos() - p0.pos();
            let o3 = k3.pos() - p0.pos();
            assert(acc == enc_head(c, cp_count.0));
            lemma_consumed_sub(p0, p0, k1, end);
            lemma_consumed_sub(p0, k1, k2, end);
            lemma_consumed_sub(p0, k1b, k2, end);
            lemma_consumed_sub(p0, k2, k3, end);
            lemma_consumed_sub(p0, k2b, k3, end);
            lemma_consumed_sub(p0, k3, end, end);
            lemma_consumed_sub(p0, k3b, end, end);
            lemma_consumed_sub(k1, k1, k1b, k2);
            lemma_consumed_sub(k2, k2, k2b, k3);
            lemma_consumed_sub(k3, k3, k3b, end);
            assert(b.subrange(o1 + 2, o2) == consumed(k1b, k2));
            assert(b.subrange(o2 + 2, o3) == consumed(k2b, k3));
            assert(b.subrange(o3 + 2, b.len() as int) == consumed(k3b, end));
            assert(b.subrange(0, o1) == enc_head(c, cp_count.0));
            assert(counted(c.fields@.len() as int, b.subrange(o1, o2)));
            assert(counted(c.methods@.len() as int, b.subrange(o2, o3)));
            assert(counted(c.attributes@.len() as int, b.subrange(o3, b.len() as int)));
            assert(class_ok(c, b));
        }
        Ok(c)
    }
}

} // verus!
