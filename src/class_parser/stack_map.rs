use vstd::prelude::*;
use crate::class_parser::encoding::{be16, enc_u2};
use crate::class_parser::reader::{
    err_is, Fail,
    lemma_reads_nothing, lemma_reads_trans, list_end, reads, short, skip, u16_at, Parser,
};
use crate::class_parser::{
    AppendFrame, ChopFrame, DoubleVariableInfo, FloatVariableInfo, FullFrame, IntegerVariableInfo,
    LongVariableInfo, NullVariableInfo, ObjectVariableInfo, SameFrame, SameFrameExtended,
    SameLocals1StackItemFrame, SameLocals1StackItemFrameExtended, StackMapFrame, TopVariableInfo,
    UninitializedThisVariableInfo, UninitializedVariableInfo, VerificationTypeInfo,
};
use crate::errors::ParsingError;

verus! {

/// The encoding of one verification_type_info.
pub open spec fn enc_vti(v: VerificationTypeInfo) -> Seq<u8> {
    match v {
        VerificationTypeInfo::TopVariableInfo(x) => seq![x.tag],
        VerificationTypeInfo::IntegerVariableInfo(x) => seq![x.tag],
        VerificationTypeInfo::FloatVariableInfo(x) => seq![x.tag],
        VerificationTypeInfo::DoubleVariableInfo(x) => seq![x.tag],
        VerificationTypeInfo::LongVariableInfo(x) => seq![x.tag],
        VerificationTypeInfo::NullVariableInfo(x) => seq![x.tag],
        VerificationTypeInfo::UninitializedThisVariableInfo(x) => seq![x.tag],
        VerificationTypeInfo::ObjectVariableInfo(x) => seq![x.tag] + enc_u2(x.cp_index),
        VerificationTypeInfo::UninitializedVariableInfo(x) => seq![x.tag] + enc_u2(x.offset),
    }
}

/// Each variant carries the tag that selects it.
pub open spec fn vti_wf(v: VerificationTypeInfo) -> bool {
    match v {
        VerificationTypeInfo::TopVariableInfo(x) => x.tag == 0,
        VerificationTypeInfo::IntegerVariableInfo(x) => x.tag == 1,
        VerificationTypeInfo::FloatVariableInfo(x) => x.tag == 2,
        VerificationTypeInfo::DoubleVariableInfo(x) => x.tag == 3,
        VerificationTypeInfo::LongVariableInfo(x) => x.tag == 4,
        VerificationTypeInfo::NullVariableInfo(x) => x.tag == 5,
        VerificationTypeInfo::UninitializedThisVariableInfo(x) => x.tag == 6,
        VerificationTypeInfo::ObjectVariableInfo(x) => x.tag == 7,
        VerificationTypeInfo::UninitializedVariableInfo(x) => x.tag == 8,
    }
}

/// The encoding of a list of verification_type_info, without its count.
pub open spec fn enc_vtis(s: Seq<VerificationTypeInfo>) -> Seq<u8>
    decreases s.len(),
{
    if s.len() == 0 {
        Seq::empty()
    } else {
        enc_vtis(s.drop_last()) + enc_vti(s.last())
    }
}

/// Every element carries the tag of its variant.
pub open spec fn vtis_wf(s: Seq<VerificationTypeInfo>) -> bool {
    forall|i: int| 0 <= i < s.len() ==> vti_wf(#[trigger] s[i])
}

/// The encoding of one stack-map frame.
pub open spec fn enc_frame(f: StackMapFrame) -> Seq<u8> {
    match f {
        StackMapFrame::SameFrame(x) => seq![x.frame_type],
        StackMapFrame::SameLocals1StackItemFrame(x) => seq![x.frame_type] + enc_vti(x.stack),
        StackMapFrame::SameLocals1StackItemFrameExtended(x) => seq![x.frame_type] + enc_u2(
            x.offset_delta,
        ) + enc_vti(x.stack),
        StackMapFrame::ChopFrame(x) => seq![x.frame_type] + enc_u2(x.offset_delta),
        StackMapFrame::SameFrameExtended(x) => seq![x.frame_type] + enc_u2(x.offset_delta),
        StackMapFrame::AppendFrame(x) => seq![x.frame_type] + enc_u2(x.offset_delta) + enc_vtis(
            x.locals@,
        ),
        StackMapFrame::FullFrame(x) => seq![x.frame_type] + enc_u2(x.offset_delta) + be16(
            x.locals@.len() as u16,
        ) + enc_vtis(x.locals@) + be16(x.stack@.len() as u16) + enc_vtis(x.stack@),
    }
}

/// Each frame variant carries a frame_type of its range, and its lists the
/// lengths that the frame_type or the counts give.
pub open spec fn frame_wf(f: StackMapFrame) -> bool {
    match f {
        StackMapFrame::SameFrame(x) => x.frame_type <= 63,
        StackMapFrame::SameLocals1StackItemFrame(x) => 64 <= x.frame_type <= 127 && vti_wf(
            x.stack,
        ),
        StackMapFrame::SameLocals1StackItemFrameExtended(x) => x.frame_type == 247 && vti_wf(
            x.stack,
        ),
        StackMapFrame::ChopFrame(x) => 248 <= x.frame_type <= 250,
        StackMapFrame::SameFrameExtended(x) => x.frame_type == 251,
        StackMapFrame::AppendFrame(x) => 252 <= x.frame_type <= 254 && x.locals@.len()
            == x.frame_type - 251 && vtis_wf(x.locals@),
        StackMapFrame::FullFrame(x) => x.frame_type == 255 && x.locals@.len() < 65536
            && x.stack@.len() < 65536 && vtis_wf(x.locals@) && vtis_wf(x.stack@),
    }
}

/// Where the verification_type_info at `pos` ends, if it decodes.
pub open spec fn vti_end(b: Seq<u8>, pos: int) -> Result<int, Fail> {
    if pos + 1 > b.len() {
        Err(Fail::Error(ParsingError::EndOfInput))
    } else if b[pos] <= 6 {
        Ok(pos + 1)
    } else if b[pos] <= 8 {
        skip(b, pos + 1, 2)
    } else {
        Err(Fail::Error(ParsingError::InvalidTagVerificationTypeInfo(b[pos])))
    }
}

/// One verification_type_info, as an item of a list.
pub open spec fn vti_item() -> spec_fn(Seq<u8>, int) -> Result<int, Fail> {
    |b: Seq<u8>, pos: int| vti_end(b, pos)
}

/// Where the stack-map frame at `pos` ends, if it decodes.
pub open spec fn frame_end(b: Seq<u8>, pos: int) -> Result<int, Fail> {
    if pos + 1 > b.len() {
        Err(Fail::Error(ParsingError::EndOfInput))
    } else {
        let t = b[pos];
        let p = pos + 1;
        if t <= 63 {
            Ok(p)
        } else if t <= 127 {
            vti_end(b, p)
        } else if t <= 246 {
            Err(Fail::Error(ParsingError::InvalidFrameType(t)))
        } else if p + 2 > b.len() {
            Err(Fail::Error(ParsingError::EndOfInput))
        } else if t == 247 {
            vti_end(b, p + 2)
        } else if t <= 251 {
            Ok(p + 2)
        } else if t <= 254 {
            list_end(b, p + 2, t - 251, vti_item())
        } else if p + 4 > b.len() {
            Err(Fail::Error(ParsingError::EndOfInput))
        } else {
            match list_end(b, p + 4, u16_at(b, p + 2), vti_item()) {
                Err(x) => Err(x),
                Ok(e) => if e + 2 > b.len() {
                    Err(Fail::Error(ParsingError::EndOfInput))
                } else {
                    list_end(b, e + 2, u16_at(b, e), vti_item())
                },
            }
        }
    }
}

/// One stack-map frame, as an item of a list.
pub open spec fn frame_item() -> spec_fn(Seq<u8>, int) -> Result<int, Fail> {
    |b: Seq<u8>, pos: int| frame_end(b, pos)
}

impl<'class> Parser<'class> {
    /// Reads one verification_type_info.
    pub fn verification_type_info(&mut self) -> (r: Result<VerificationTypeInfo, ParsingError>)
        requires
            old(self).wf(),
        ensures
            final(self).wf(),
            !short(*old(self), 1) && old(self).input()[old(self).pos()] > 8 ==> r == Err::<VerificationTypeInfo, ParsingError>(
                ParsingError::InvalidTagVerificationTypeInfo(old(self).input()[old(self).pos()]),
            ),
            (r is Ok) == (vti_end(old(self).input(), old(self).pos()) is Ok),
            r matches Err(e) ==> err_is(e, (vti_end(old(self).input(), old(self).pos()))->Err_0),
            r is Ok ==> final(self).pos() == vti_end(old(self).input(), old(self).pos())->Ok_0,
            r matches Ok(v) ==> reads(*old(self), *final(self), enc_vti(v)) && vti_wf(v),
            r matches Err(e) ==> {
                ||| e == ParsingError::EndOfInput
                ||| (e matches ParsingError::InvalidTagVerificationTypeInfo(t) && t > 8
                    && !short(*old(self), 1) && t == old(self).input()[old(self).pos()])
            },
    {
        let ghost p0 = *self;
        let tag = self.u1()?;
        let ghost p1 = *self;
        let v = match tag {
            0 => VerificationTypeInfo::TopVariableInfo(TopVariableInfo { tag }),
            1 => VerificationTypeInfo::IntegerVariableInfo(IntegerVariableInfo { tag }),
            2 => VerificationTypeInfo::FloatVariableInfo(FloatVariableInfo { tag }),
            3 => VerificationTypeInfo::DoubleVariableInfo(DoubleVariableInfo { tag }),
            4 => VerificationTypeInfo::LongVariableInfo(LongVariableInfo { tag }),
            5 => VerificationTypeInfo::NullVariableInfo(NullVariableInfo { tag }),
            6 => VerificationTypeInfo::UninitializedThisVariableInfo(
                UninitializedThisVariableInfo { tag },
            ),
            7 => VerificationTypeInfo::ObjectVariableInfo(
                ObjectVariableInfo { tag, cp_index: self.u2()? },
            ),
            8 => VerificationTypeInfo::UninitializedVariableInfo(
                UninitializedVariableInfo { tag, offset: self.u2()? },
            ),
            _ => {
                assert(p0.input().subrange(p0.pos(), p1.pos())[0] == tag);
                return Err(ParsingError::InvalidTagVerificationTypeInfo(tag));
            },
        };
        proof {
            let body = p1.input().subrange(p1.pos(), self.pos());
            lemma_reads_trans(p0, p1, *self, seq![tag], body);
            assert(enc_vti(v) =~= seq![tag] + body);
        }
        Ok(v)
    }

    /// Reads `n` verification_type_info in a row.
    fn verification_type_info_list(&mut self, n: u16) -> (r: Result<
        Vec<VerificationTypeInfo>,
        ParsingError,
    >)
        requires
            old(self).wf(),
        ensures
            final(self).wf(),
            (r is Ok) == (list_end(old(self).input(), old(self).pos(), n as int, vti_item()) is Ok),
            r matches Err(e) ==> err_is(e, (list_end(old(self).input(), old(self).pos(), n as int, vti_item()))->Err_0),
            r is Ok ==> final(self).pos() == list_end(
                old(self).input(),
                old(self).pos(),
                n as int,
                vti_item(),
            )->Ok_0,
            r matches Ok(v) ==> reads(*old(self), *final(self), enc_vtis(v@)) && v@.len() == n
                && vtis_wf(v@),
            r matches Err(e) ==> {
                ||| e == ParsingError::EndOfInput
                ||| e matches ParsingError::InvalidTagVerificationTypeInfo(_)
            },
    {
        let ghost p0 = *self;
        let mut out: Vec<VerificationTypeInfo> = Vec::with_capacity(n as usize);
        proof {
            lemma_reads_nothing(p0);
            assert(enc_vtis(out@) =~= Seq::<u8>::empty());
        }
        let mut i: u16 = 0;
        while i < n
            invariant
                self.wf(),
                i <= n,
                out@.len() == i,
                reads(p0, *self, enc_vtis(out@)),
                vtis_wf(out@),
                *old(self) == p0,
                list_end(p0.input(), p0.pos(), n as int, vti_item()) == list_end(
                    self.input(),
                    self.pos(),
                    n - i,
                    vti_item(),
                ),
            decreases n - i,
        {
            let ghost mid = *self;
            let ghost old_out = out@;
            let v = self.verification_type_info()?;
            assert(vti_item()(mid.input(), mid.pos()) == Ok::<int, Fail>(self.pos()));
            out.push(v);
            proof {
                assert(out@.drop_last() =~= old_out);
                lemma_reads_trans(p0, mid, *self, enc_vtis(old_out), enc_vti(v));
                assert forall|k: int| 0 <= k < out@.len() implies vti_wf(#[trigger] out@[k]) by {
                    if k < old_out.len() {
                        assert(out@[k] == old_out[k]);
                    }
                }
            }
            i = i + 1;
        }
        Ok(out)
    }

    /// Reads one stack-map frame.
    pub fn stackmapframe(&mut self) -> (r: Result<StackMapFrame, ParsingError>)
        requires
            old(self).wf(),
        ensures
            final(self).wf(),
            !short(*old(self), 1) && 128 <= old(self).input()[old(self).pos()] <= 246 ==> r == Err::<StackMapFrame, ParsingError>(
                ParsingError::InvalidFrameType(old(self).input()[old(self).pos()]),
            ),
            (r is Ok) == (frame_end(old(self).input(), old(self).pos()) is Ok),
            r matches Err(e) ==> err_is(e, (frame_end(old(self).input(), old(self).pos()))->Err_0),
            r is Ok ==> final(self).pos() == frame_end(old(self).input(), old(self).pos())->Ok_0,
            r matches Ok(f) ==> reads(*old(self), *final(self), enc_frame(f)) && frame_wf(f),
            r matches Err(e) ==> {
                ||| e == ParsingError::EndOfInput
                ||| e matches ParsingError::InvalidTagVerificationTypeInfo(_)
                ||| (e matches ParsingError::InvalidFrameType(t) && 128 <= t <= 246
                    && !short(*old(self), 1) && t == old(self).input()[old(self).pos()])
            },
    {
        let ghost p0 = *self;
        let frame_type = self.u1()?;
        let ghost p1 = *self;
        let f = if frame_type <= 63 {
            StackMapFrame::SameFrame(SameFrame { frame_type })
        } else if frame_type <= 127 {
            let stack = self.verification_type_info()?;
            StackMapFrame::SameLocals1StackItemFrame(SameLocals1StackItemFrame { frame_type, stack })
        } else if frame_type <= 246 {
            assert(p0.input().subrange(p0.pos(), p1.pos())[0] == frame_type);
            return Err(ParsingError::InvalidFrameType(frame_type));
        } else {
            let offset_delta = self.u2()?;
            let ghost p2 = *self;
            if frame_type == 247 {
                let stack = self.verification_type_info()?;
                proof {
                    lemma_reads_trans(p1, p2, *self, enc_u2(offset_delta), enc_vti(stack));
                }
                StackMapFrame::SameLocals1StackItemFrameExtended(
                    SameLocals1StackItemFrameExtended { frame_type, offset_delta, stack },
                )
            } else if frame_type <= 250 {
                StackMapFrame::ChopFrame(ChopFrame { frame_type, offset_delta })
            } else if frame_type == 251 {
                StackMapFrame::SameFrameExtended(SameFrameExtended { frame_type, offset_delta })
            } else if frame_type <= 254 {
                let locals = self.verification_type_info_list((frame_type - 251) as u16)?;
                proof {
                    lemma_reads_trans(p1, p2, *self, enc_u2(offset_delta), enc_vtis(locals@));
                }
                StackMapFrame::AppendFrame(AppendFrame { frame_type, offset_delta, locals })
            } else {
                let locals_count = self.u2()?;
                let ghost p3 = *self;
                let locals = self.verification_type_info_list(locals_count.0)?;
                let ghost p4 = *self;
                let stack_count = self.u2()?;
                let ghost p5 = *self;
                let stack = self.verification_type_info_list(stack_count.0)?;
                proof {
                    lemma_reads_trans(p2, p3, p4, enc_u2(locals_count), enc_vtis(locals@));
                    lemma_reads_trans(
                        p2,
                        p4,
                        p5,
                        enc_u2(locals_count) + enc_vtis(locals@),
                        enc_u2(stack_count),
                    );
                    lemma_reads_trans(
                        p2,
                        p5,
                        *self,
                        enc_u2(locals_count) + enc_vtis(locals@) + enc_u2(stack_count),
                        enc_vtis(stack@),
                    );
                    lemma_reads_trans(
                        p1,
                        p2,
                        *self,
                        enc_u2(offset_delta),
                        enc_u2(locals_count) + enc_vtis(locals@) + enc_u2(stack_count)
                            + enc_vtis(stack@),
                    );
                }
                StackMapFrame::FullFrame(FullFrame { frame_type, offset_delta, locals, stack })
            }
        };
        proof {
            let body = p1.input().subrange(p1.pos(), self.pos());
            lemma_reads_trans(p0, p1, *self, seq![frame_type], body);
            assert(enc_frame(f) =~= seq![frame_type] + body);
        }
        Ok(f)
    }
}

} // verus!
