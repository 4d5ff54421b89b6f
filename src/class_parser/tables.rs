use vstd::prelude::*;
use crate::class_parser::encoding::{be16, enc_u2, enc_u2s};
use crate::class_parser::reader::{
    err_is, Fail,
    fixed, lemma_reads_nothing, lemma_reads_trans, list_end, reads, skip, u16_at, Parser,
};
use crate::class_parser::{
    BootStrapMethodsInner, ClassesInnerClassAttr, ExceptionTableAttrCode, LineNumberTableAttrInner,
    LocalVariableTableAttrInner, LocalVariableTypeTableAttrInner, MethodParametersInner,
    ModuleExports, ModuleOpens, ModuleProvides, ModuleRequires,
};
use crate::errors::ParsingError;

verus! {

/// Where a record ends that holds `k0` bytes, then a 16-bit count and that
/// many 16-bit values.
pub open spec fn u2s_record_end(b: Seq<u8>, pos: int, k0: int) -> Result<int, Fail> {
    if pos + k0 + 2 > b.len() {
        Err(Fail::Error(ParsingError::EndOfInput))
    } else {
        skip(b, pos + k0 + 2, 2 * u16_at(b, pos + k0))
    }
}

/// Such a record, as an item of a list.
pub open spec fn u2s_record(k0: int) -> spec_fn(Seq<u8>, int) -> Result<int, Fail> {
    |b: Seq<u8>, pos: int| u2s_record_end(b, pos, k0)
}

/// The encoding of one `ExceptionTableAttrCode`.
pub open spec fn enc_exception_table_attr_code(x: ExceptionTableAttrCode) -> Seq<u8> {
    enc_u2(x.start_pc) + enc_u2(x.end_pc) + enc_u2(x.handler_pc) + enc_u2(x.catch_type)
}

/// The encoding of a table of `ExceptionTableAttrCode`, without its count.
pub open spec fn enc_exception_table_attr_code_list(s: Seq<ExceptionTableAttrCode>) -> Seq<u8>
    decreases s.len(),
{
    if s.len() == 0 {
        Seq::empty()
    } else {
        enc_exception_table_attr_code_list(s.drop_last()) + enc_exception_table_attr_code(s.last())
    }
}

/// Where one `ExceptionTableAttrCode` ends.
pub open spec fn item_exception_table_attr_code() -> spec_fn(Seq<u8>, int) -> Result<int, Fail> {
    fixed(8)
}

/// The encoding of one `ClassesInnerClassAttr`.
pub open spec fn enc_classes_inner_class_attr(x: ClassesInnerClassAttr) -> Seq<u8> {
    enc_u2(x.inner_class_info_index) + enc_u2(x.outer_class_info_index) + enc_u2(x.inner_name_index) + enc_u2(x.inner_class_access_flags)
}

/// The encoding of a table of `ClassesInnerClassAttr`, without its count.
pub open spec fn enc_classes_inner_class_attr_list(s: Seq<ClassesInnerClassAttr>) -> Seq<u8>
    decreases s.len(),
{
    if s.len() == 0 {
        Seq::empty()
    } else {
        enc_classes_inner_class_attr_list(s.drop_last()) + enc_classes_inner_class_attr(s.last())
    }
}

/// Where one `ClassesInnerClassAttr` ends.
pub open spec fn item_classes_inner_class_attr() -> spec_fn(Seq<u8>, int) -> Result<int, Fail> {
    fixed(8)
}

/// The encoding of one `LineNumberTableAttrInner`.
pub open spec fn enc_line_number_table_attr_inner(x: LineNumberTableAttrInner) -> Seq<u8> {
    enc_u2(x.start_pc) + enc_u2(x.line_number)
}

/// The encoding of a table of `LineNumberTableAttrInner`, without its count.
pub open spec fn enc_line_number_table_attr_inner_list(s: Seq<LineNumberTableAttrInner>) -> Seq<u8>
    decreases s.len(),
{
    if s.len() == 0 {
        Seq::empty()
    } else {
        enc_line_number_table_attr_inner_list(s.drop_last()) + enc_line_number_table_attr_inner(s.last())
    }
}

/// Where one `LineNumberTableAttrInner` ends.
pub open spec fn item_line_number_table_attr_inner() -> spec_fn(Seq<u8>, int) -> Result<int, Fail> {
    fixed(4)
}

/// The encoding of one `LocalVariableTableAttrInner`.
pub open spec fn enc_local_variable_table_attr_inner(x: LocalVariableTableAttrInner) -> Seq<u8> {
    enc_u2(x.start_pc) + enc_u2(x.length) + enc_u2(x.name_index) + enc_u2(x.descriptor_index) + enc_u2(x.index)
}

/// The encoding of a table of `LocalVariableTableAttrInner`, without its count.
pub open spec fn enc_local_variable_table_attr_inner_list(s: Seq<LocalVariableTableAttrInner>) -> Seq<u8>
    decreases s.len(),
{
    if s.len() == 0 {
        Seq::empty()
    } else {
        enc_local_variable_table_attr_inner_list(s.drop_last()) + enc_local_variable_table_attr_inner(s.last())
    }
}

/// Where one `LocalVariableTableAttrInner` ends.
pub open spec fn item_local_variable_table_attr_inner() -> spec_fn(Seq<u8>, int) -> Result<int, Fail> {
    fixed(10)
}

/// The encoding of one `LocalVariableTypeTableAttrInner`.
pub open spec fn enc_local_variable_type_table_attr_inner(x: LocalVariableTypeTableAttrInner) -> Seq<u8> {
    enc_u2(x.start_pc) + enc_u2(x.length) + enc_u2(x.name_index) + enc_u2(x.signature_index) + enc_u2(x.index)
}

/// The encoding of a table of `LocalVariableTypeTableAttrInner`, without its count.
pub open spec fn enc_local_variable_type_table_attr_inner_list(s: Seq<LocalVariableTypeTableAttrInner>) -> Seq<u8>
    decreases s.len(),
{
    if s.len() == 0 {
        Seq::empty()
    } else {
        enc_local_variable_type_table_attr_inner_list(s.drop_last()) + enc_local_variable_type_table_attr_inner(s.last())
    }
}

/// Where one `LocalVariableTypeTableAttrInner` ends.
pub open spec fn item_local_variable_type_table_attr_inner() -> spec_fn(Seq<u8>, int) -> Result<int, Fail> {
    fixed(10)
}

/// The encoding of one `MethodParametersInner`.
pub open spec fn enc_method_parameters_inner(x: MethodParametersInner) -> Seq<u8> {
    enc_u2(x.name_index) + enc_u2(x.access_flags)
}

/// The encoding of a table of `MethodParametersInner`, without its count.
pub open spec fn enc_method_parameters_inner_list(s: Seq<MethodParametersInner>) -> Seq<u8>
    decreases s.len(),
{
    if s.len() == 0 {
        Seq::empty()
    } else {
        enc_method_parameters_inner_list(s.drop_last()) + enc_method_parameters_inner(s.last())
    }
}

/// Where one `MethodParametersInner` ends.
pub open spec fn item_method_parameters_inner() -> spec_fn(Seq<u8>, int) -> Result<int, Fail> {
    fixed(4)
}

/// The encoding of one `ModuleRequires`.
pub open spec fn enc_module_requires(x: ModuleRequires) -> Seq<u8> {
    enc_u2(x.requires_index) + enc_u2(x.requires_flags) + enc_u2(x.require_version_index)
}

/// The encoding of a table of `ModuleRequires`, without its count.
pub open spec fn enc_module_requires_list(s: Seq<ModuleRequires>) -> Seq<u8>
    decreases s.len(),
{
    if s.len() == 0 {
        Seq::empty()
    } else {
        enc_module_requires_list(s.drop_last()) + enc_module_requires(s.last())
    }
}

/// Where one `ModuleRequires` ends.
pub open spec fn item_module_requires() -> spec_fn(Seq<u8>, int) -> Result<int, Fail> {
    fixed(6)
}

/// The encoding of one `ModuleExports`.
pub open spec fn enc_module_exports(x: ModuleExports) -> Seq<u8> {
    enc_u2(x.exports_index) + enc_u2(x.exports_flags) + (be16(x.exports_to_index@.len() as u16) + enc_u2s(x.exports_to_index@))
}

/// The encoding of a table of `ModuleExports`, without its count.
pub open spec fn enc_module_exports_list(s: Seq<ModuleExports>) -> Seq<u8>
    decreases s.len(),
{
    if s.len() == 0 {
        Seq::empty()
    } else {
        enc_module_exports_list(s.drop_last()) + enc_module_exports(s.last())
    }
}

/// Where one `ModuleExports` ends.
pub open spec fn item_module_exports() -> spec_fn(Seq<u8>, int) -> Result<int, Fail> {
    u2s_record(4)
}

/// Its index tables hold at most 65535 entries.
pub open spec fn wf_module_exports(x: ModuleExports) -> bool {
    x.exports_to_index@.len() < 65536
}

/// Every element's table fits its count.
pub open spec fn wf_module_exports_list(s: Seq<ModuleExports>) -> bool {
    forall|i: int| 0 <= i < s.len() ==> wf_module_exports(#[trigger] s[i])
}

/// The encoding of one `ModuleOpens`.
pub open spec fn enc_module_opens(x: ModuleOpens) -> Seq<u8> {
    enc_u2(x.opens_index) + enc_u2(x.opens_flags) + (be16(x.opens_to_index@.len() as u16) + enc_u2s(x.opens_to_index@))
}

/// The encoding of a table of `ModuleOpens`, without its count.
pub open spec fn enc_module_opens_list(s: Seq<ModuleOpens>) -> Seq<u8>
    decreases s.len(),
{
    if s.len() == 0 {
        Seq::empty()
    } else {
        enc_module_opens_list(s.drop_last()) + enc_module_opens(s.last())
    }
}

/// Where one `ModuleOpens` ends.
pub open spec fn item_module_opens() -> spec_fn(Seq<u8>, int) -> Result<int, Fail> {
    u2s_record(4)
}

/// Its index tables hold at most 65535 entries.
pub open spec fn wf_module_opens(x: ModuleOpens) -> bool {
    x.opens_to_index@.len() < 65536
}

/// Every element's table fits its count.
pub open spec fn wf_module_opens_list(s: Seq<ModuleOpens>) -> bool {
    forall|i: int| 0 <= i < s.len() ==> wf_module_opens(#[trigger] s[i])
}

/// The encoding of one `ModuleProvides`.
pub open spec fn enc_module_provides(x: ModuleProvides) -> Seq<u8> {
    enc_u2(x.provides_index) + (be16(x.provides_with_index@.len() as u16) + enc_u2s(x.provides_with_index@))
}

/// The encoding of a table of `ModuleProvides`, without its count.
pub open spec fn enc_module_provides_list(s: Seq<ModuleProvides>) -> Seq<u8>
    decreases s.len(),
{
    if s.len() == 0 {
        Seq::empty()
    } else {
        enc_module_provides_list(s.drop_last()) + enc_module_provides(s.last())
    }
}

/// Where one `ModuleProvides` ends.
pub open spec fn item_module_provides() -> spec_fn(Seq<u8>, int) -> Result<int, Fail> {
    u2s_record(2)
}

/// Its index tables hold at most 65535 entries.
pub open spec fn wf_module_provides(x: ModuleProvides) -> bool {
    x.provides_with_index@.len() < 65536
}

/// Every element's table fits its count.
pub open spec fn wf_module_provides_list(s: Seq<ModuleProvides>) -> bool {
    forall|i: int| 0 <= i < s.len() ==> wf_module_provides(#[trigger] s[i])
}

/// The encoding of one `BootStrapMethodsInner`.
pub open spec fn enc_boot_strap_methods_inner(x: BootStrapMethodsInner) -> Seq<u8> {
    enc_u2(x.bootstrap_method_ref) + (be16(x.bootstrap_arguments@.len() as u16) + enc_u2s(x.bootstrap_arguments@))
}

/// The encoding of a table of `BootStrapMethodsInner`, without its count.
pub open spec fn enc_boot_strap_methods_inner_list(s: Seq<BootStrapMethodsInner>) -> Seq<u8>
    decreases s.len(),
{
    if s.len() == 0 {
        Seq::empty()
    } else {
        enc_boot_strap_methods_inner_list(s.drop_last()) + enc_boot_strap_methods_inner(s.last())
    }
}

/// Where one `BootStrapMethodsInner` ends.
pub open spec fn item_boot_strap_methods_inner() -> spec_fn(Seq<u8>, int) -> Result<int, Fail> {
    u2s_record(2)
}

/// Its index tables hold at most 65535 entries.
pub open spec fn wf_boot_strap_methods_inner(x: BootStrapMethodsInner) -> bool {
    x.bootstrap_arguments@.len() < 65536
}

/// Every element's table fits its count.
pub open spec fn wf_boot_strap_methods_inner_list(s: Seq<BootStrapMethodsInner>) -> bool {
    forall|i: int| 0 <= i < s.len() ==> wf_boot_strap_methods_inner(#[trigger] s[i])
}

impl<'class> Parser<'class> {
    /// Reads one `ExceptionTableAttrCode`.
    pub(crate) fn record_exception_table_attr_code(&mut self) -> (r: Result<ExceptionTableAttrCode, ParsingError>)
        requires
            old(self).wf(),
        ensures
            final(self).wf(),
            (r is Ok) == (item_exception_table_attr_code()(old(self).input(), old(self).pos()) is Ok),
            r matches Err(e) ==> err_is(e, (item_exception_table_attr_code()(old(self).input(), old(self).pos()))->Err_0),
            r is Ok ==> final(self).pos() == item_exception_table_attr_code()(old(self).input(), old(self).pos())->Ok_0,
            r matches Ok(v) ==> reads(*old(self), *final(self), enc_exception_table_attr_code(v)),
            r matches Err(e) ==> e == ParsingError::EndOfInput,
    {
        let ghost q0 = *self;
        let start_pc = self.u2()?;
        let ghost q1 = *self;
        let end_pc = self.u2()?;
        let ghost q2 = *self;
        let handler_pc = self.u2()?;
        let ghost q3 = *self;
        let catch_type = self.u2()?;
        let ghost q4 = *self;
        proof {
            lemma_reads_trans(q0, q1, q2, enc_u2(start_pc), enc_u2(end_pc));
            lemma_reads_trans(q0, q2, q3, enc_u2(start_pc) + enc_u2(end_pc), enc_u2(handler_pc));
            lemma_reads_trans(q0, q3, q4, enc_u2(start_pc) + enc_u2(end_pc) + enc_u2(handler_pc), enc_u2(catch_type));
        }
        Ok(ExceptionTableAttrCode { start_pc, end_pc, handler_pc, catch_type })
    }

    /// Reads `n` entries of `ExceptionTableAttrCode` in a row.
    pub(crate) fn table_exception_table_attr_code(&mut self, n: u16) -> (r: Result<Vec<ExceptionTableAttrCode>, ParsingError>)
        requires
            old(self).wf(),
        ensures
            final(self).wf(),
            (r is Ok) == (list_end(old(self).input(), old(self).pos(), n as int, item_exception_table_attr_code()) is Ok),
            r matches Err(e) ==> err_is(e, (list_end(old(self).input(), old(self).pos(), n as int, item_exception_table_attr_code()))->Err_0),
            r is Ok ==> final(self).pos() == list_end(
                old(self).input(),
                old(self).pos(),
                n as int,
                item_exception_table_attr_code(),
            )->Ok_0,
            r matches Ok(v) ==> v@.len() == n && reads(*old(self), *final(self), enc_exception_table_attr_code_list(v@)),
            r matches Err(e) ==> e == ParsingError::EndOfInput,
    {
        let ghost p0 = *self;
        let mut out: Vec<ExceptionTableAttrCode> = Vec::with_capacity(n as usize);
        proof {
            lemma_reads_nothing(p0);
            assert(enc_exception_table_attr_code_list(out@) =~= Seq::<u8>::empty());
        }
        let mut i: u16 = 0;
        while i < n
            invariant
                self.wf(),
                i <= n,
                out@.len() == i,
                reads(p0, *self, enc_exception_table_attr_code_list(out@)),
                *old(self) == p0,
                list_end(p0.input(), p0.pos(), n as int, item_exception_table_attr_code()) == list_end(
                    self.input(),
                    self.pos(),
                    n - i,
                    item_exception_table_attr_code(),
                ),
            decreases n - i,
        {
            let ghost mid = *self;
            let ghost old_out = out@;
            let x = self.record_exception_table_attr_code()?;
            out.push(x);
            proof {
                assert(out@.drop_last() =~= old_out);
                lemma_reads_trans(p0, mid, *self, enc_exception_table_attr_code_list(old_out), enc_exception_table_attr_code(x));
            }
            i = i + 1;
        }
        Ok(out)
    }

    /// Reads one `ClassesInnerClassAttr`.
    pub(crate) fn record_classes_inner_class_attr(&mut self) -> (r: Result<ClassesInnerClassAttr, ParsingError>)
        requires
            old(self).wf(),
        ensures
            final(self).wf(),
            (r is Ok) == (item_classes_inner_class_attr()(old(self).input(), old(self).pos()) is Ok),
            r matches Err(e) ==> err_is(e, (item_classes_inner_class_attr()(old(self).input(), old(self).pos()))->Err_0),
            r is Ok ==> final(self).pos() == item_classes_inner_class_attr()(old(self).input(), old(self).pos())->Ok_0,
            r matches Ok(v) ==> reads(*old(self), *final(self), enc_classes_inner_class_attr(v)),
            r matches Err(e) ==> e == ParsingError::EndOfInput,
    {
        let ghost q0 = *self;
        let inner_class_info_index = self.u2()?;
        let ghost q1 = *self;
        let outer_class_info_index = self.u2()?;
        let ghost q2 = *self;
        let inner_name_index = self.u2()?;
        let ghost q3 = *self;
        let inner_class_access_flags = self.u2()?;
        let ghost q4 = *self;
        proof {
            lemma_reads_trans(q0, q1, q2, enc_u2(inner_class_info_index), enc_u2(outer_class_info_index));
            lemma_reads_trans(q0, q2, q3, enc_u2(inner_class_info_index) + enc_u2(outer_class_info_index), enc_u2(inner_name_index));
            lemma_reads_trans(q0, q3, q4, enc_u2(inner_class_info_index) + enc_u2(outer_class_info_index) + enc_u2(inner_name_index), enc_u2(inner_class_access_flags));
        }
        Ok(ClassesInnerClassAttr { inner_class_info_index, outer_class_info_index, inner_name_index, inner_class_access_flags })
    }

    /// Reads `n` entries of `ClassesInnerClassAttr` in a row.
    pub(crate) fn table_classes_inner_class_attr(&mut self, n: u16) -> (r: Result<Vec<ClassesInnerClassAttr>, ParsingError>)
        requires
            old(self).wf(),
        ensures
            final(self).wf(),
            (r is Ok) == (list_end(old(self).input(), old(self).pos(), n as int, item_classes_inner_class_attr()) is Ok),
            r matches Err(e) ==> err_is(e, (list_end(old(self).input(), old(self).pos(), n as int, item_classes_inner_class_attr()))->Err_0),
            r is Ok ==> final(self).pos() == list_end(
                old(self).input(),
                old(self).pos(),
                n as int,
                item_classes_inner_class_attr(),
            )->Ok_0,
            r matches Ok(v) ==> v@.len() == n && reads(*old(self), *final(self), enc_classes_inner_class_attr_list(v@)),
            r matches Err(e) ==> e == ParsingError::EndOfInput,
    {
        let ghost p0 = *self;
        let mut out: Vec<ClassesInnerClassAttr> = Vec::with_capacity(n as usize);
        proof {
            lemma_reads_nothing(p0);
            assert(enc_classes_inner_class_attr_list(out@) =~= Seq::<u8>::empty());
        }
        let mut i: u16 = 0;
        while i < n
            invariant
                self.wf(),
                i <= n,
                out@.len() == i,
                reads(p0, *self, enc_classes_inner_class_attr_list(out@)),
                *old(self) == p0,
                list_end(p0.input(), p0.pos(), n as int, item_classes_inner_class_attr()) == list_end(
                    self.input(),
                    self.pos(),
                    n - i,
                    item_classes_inner_class_attr(),
                ),
            decreases n - i,
        {
            let ghost mid = *self;
            let ghost old_out = out@;
            let x = self.record_classes_inner_class_attr()?;
            out.push(x);
            proof {
                assert(out@.drop_last() =~= old_out);
                lemma_reads_trans(p0, mid, *self, enc_classes_inner_class_attr_list(old_out), enc_classes_inner_class_attr(x));
            }
            i = i + 1;
        }
        Ok(out)
    }

    /// Reads one `LineNumberTableAttrInner`.
    pub(crate) fn record_line_number_table_attr_inner(&mut self) -> (r: Result<LineNumberTableAttrInner, ParsingError>)
        requires
            old(self).wf(),
        ensures
            final(self).wf(),
            (r is Ok) == (item_line_number_table_attr_inner()(old(self).input(), old(self).pos()) is Ok),
            r matches Err(e) ==> err_is(e, (item_line_number_table_attr_inner()(old(self).input(), old(self).pos()))->Err_0),
            r is Ok ==> final(self).pos() == item_line_number_table_attr_inner()(old(self).input(), old(self).pos())->Ok_0,
            r matches Ok(v) ==> reads(*old(self), *final(self), enc_line_number_table_attr_inner(v)),
            r matches Err(e) ==> e == ParsingError::EndOfInput,
    {
        let ghost q0 = *self;
        let start_pc = self.u2()?;
        let ghost q1 = *self;
        let line_number = self.u2()?;
        let ghost q2 = *self;
        proof {
            lemma_reads_trans(q0, q1, q2, enc_u2(start_pc), enc_u2(line_number));
        }
        Ok(LineNumberTableAttrInner { start_pc, line_number })
    }

    /// Reads `n` entries of `LineNumberTableAttrInner` in a row.
    pub(crate) fn table_line_number_table_attr_inner(&mut self, n: u16) -> (r: Result<Vec<LineNumberTableAttrInner>, ParsingError>)
        requires
            old(self).wf(),
        ensures
            final(self).wf(),
            (r is Ok) == (list_end(old(self).input(), old(self).pos(), n as int, item_line_number_table_attr_inner()) is Ok),
            r matches Err(e) ==> err_is(e, (list_end(old(self).input(), old(self).pos(), n as int, item_line_number_table_attr_inner()))->Err_0),
            r is Ok ==> final(self).pos() == list_end(
                old(self).input(),
                old(self).pos(),
                n as int,
                item_line_number_table_attr_inner(),
            )->Ok_0,
            r matches Ok(v) ==> v@.len() == n && reads(*old(self), *final(self), enc_line_number_table_attr_inner_list(v@)),
            r matches Err(e) ==> e == ParsingError::EndOfInput,
    {
        let ghost p0 = *self;
        let mut out: Vec<LineNumberTableAttrInner> = Vec::with_capacity(n as usize);
        proof {
            lemma_reads_nothing(p0);
            assert(enc_line_number_table_attr_inner_list(out@) =~= Seq::<u8>::empty());
        }
        let mut i: u16 = 0;
        while i < n
            invariant
                self.wf(),
                i <= n,
                out@.len() == i,
                reads(p0, *self, enc_line_number_table_attr_inner_list(out@)),
                *old(self) == p0,
                list_end(p0.input(), p0.pos(), n as int, item_line_number_table_attr_inner()) == list_end(
                    self.input(),
                    self.pos(),
                    n - i,
                    item_line_number_table_attr_inner(),
                ),
            decreases n - i,
        {
            let ghost mid = *self;
            let ghost old_out = out@;
            let x = self.record_line_number_table_attr_inner()?;
            out.push(x);
            proof {
                assert(out@.drop_last() =~= old_out);
                lemma_reads_trans(p0, mid, *self, enc_line_number_table_attr_inner_list(old_out), enc_line_number_table_attr_inner(x));
            }
            i = i + 1;
        }
        Ok(out)
    }

    /// Reads one `LocalVariableTableAttrInner`.
    pub(crate) fn record_local_variable_table_attr_inner(&mut self) -> (r: Result<LocalVariableTableAttrInner, ParsingError>)
        requires
            old(self).wf(),
        ensures
            final(self).wf(),
            (r is Ok) == (item_local_variable_table_attr_inner()(old(self).input(), old(self).pos()) is Ok),
            r matches Err(e) ==> err_is(e, (item_local_variable_table_attr_inner()(old(self).input(), old(self).pos()))->Err_0),
            r is Ok ==> final(self).pos() == item_local_variable_table_attr_inner()(old(self).input(), old(self).pos())->Ok_0,
            r matches Ok(v) ==> reads(*old(self), *final(self), enc_local_variable_table_attr_inner(v)),
            r matches Err(e) ==> e == ParsingError::EndOfInput,
    {
        let ghost q0 = *self;
        let start_pc = self.u2()?;
        let ghost q1 = *self;
        let length = self.u2()?;
        let ghost q2 = *self;
        let name_index = self.u2()?;
        let ghost q3 = *self;
        let descriptor_index = self.u2()?;
        let ghost q4 = *self;
        let index = self.u2()?;
        let ghost q5 = *self;
        proof {
            lemma_reads_trans(q0, q1, q2, enc_u2(start_pc), enc_u2(length));
            lemma_reads_trans(q0, q2, q3, enc_u2(start_pc) + enc_u2(length), enc_u2(name_index));
            lemma_reads_trans(q0, q3, q4, enc_u2(start_pc) + enc_u2(length) + enc_u2(name_index), enc_u2(descriptor_index));
            lemma_reads_trans(q0, q4, q5, enc_u2(start_pc) + enc_u2(length) + enc_u2(name_index) + enc_u2(descriptor_index), enc_u2(index));
        }
        Ok(LocalVariableTableAttrInner { start_pc, length, name_index, descriptor_index, index })
    }

    /// Reads `n` entries of `LocalVariableTableAttrInner` in a row.
    pub(crate) fn table_local_variable_table_attr_inner(&mut self, n: u16) -> (r: Result<Vec<LocalVariableTableAttrInner>, ParsingError>)
        requires
            old(self).wf(),
        ensures
            final(self).wf(),
            (r is Ok) == (list_end(old(self).input(), old(self).pos(), n as int, item_local_variable_table_attr_inner()) is Ok),
            r matches Err(e) ==> err_is(e, (list_end(old(self).input(), old(self).pos(), n as int, item_local_variable_table_attr_inner()))->Err_0),
            r is Ok ==> final(self).pos() == list_end(
                old(self).input(),
                old(self).pos(),
                n as int,
                item_local_variable_table_attr_inner(),
            )->Ok_0,
            r matches Ok(v) ==> v@.len() == n && reads(*old(self), *final(self), enc_local_variable_table_attr_inner_list(v@)),
            r matches Err(e) ==> e == ParsingError::EndOfInput,
    {
        let ghost p0 = *self;
        let mut out: Vec<LocalVariableTableAttrInner> = Vec::with_capacity(n as usize);
        proof {
            lemma_reads_nothing(p0);
            assert(enc_local_variable_table_attr_inner_list(out@) =~= Seq::<u8>::empty());
        }
        let mut i: u16 = 0;
        while i < n
            invariant
                self.wf(),
                i <= n,
                out@.len() == i,
                reads(p0, *self, enc_local_variable_table_attr_inner_list(out@)),
                *old(self) == p0,
                list_end(p0.input(), p0.pos(), n as int, item_local_variable_table_attr_inner()) == list_end(
                    self.input(),
                    self.pos(),
                    n - i,
                    item_local_variable_table_attr_inner(),
                ),
            decreases n - i,
        {
            let ghost mid = *self;
            let ghost old_out = out@;
            let x = self.record_local_variable_table_attr_inner()?;
            out.push(x);
            proof {
                assert(out@.drop_last() =~= old_out);
                lemma_reads_trans(p0, mid, *self, enc_local_variable_table_attr_inner_list(old_out), enc_local_variable_table_attr_inner(x));
            }
            i = i + 1;
        }
        Ok(out)
    }

    /// Reads one `LocalVariableTypeTableAttrInner`.
    pub(crate) fn record_local_variable_type_table_attr_inner(&mut self) -> (r: Result<LocalVariableTypeTableAttrInner, ParsingError>)
        requires
            old(self).wf(),
        ensures
            final(self).wf(),
            (r is Ok) == (item_local_variable_type_table_attr_inner()(old(self).input(), old(self).pos()) is Ok),
            r matches Err(e) ==> err_is(e, (item_local_variable_type_table_attr_inner()(old(self).input(), old(self).pos()))->Err_0),
            r is Ok ==> final(self).pos() == item_local_variable_type_table_attr_inner()(old(self).input(), old(self).pos())->Ok_0,
            r matches Ok(v) ==> reads(*old(self), *final(self), enc_local_variable_type_table_attr_inner(v)),
            r matches Err(e) ==> e == ParsingError::EndOfInput,
    {
        let ghost q0 = *self;
        let start_pc = self.u2()?;
        let ghost q1 = *self;
        let length = self.u2()?;
        let ghost q2 = *self;
        let name_index = self.u2()?;
        let ghost q3 = *self;
        let signature_index = self.u2()?;
        let ghost q4 = *self;
        let index = self.u2()?;
        let ghost q5 = *self;
        proof {
            lemma_reads_trans(q0, q1, q2, enc_u2(start_pc), enc_u2(length));
            lemma_reads_trans(q0, q2, q3, enc_u2(start_pc) + enc_u2(length), enc_u2(name_index));
            lemma_reads_trans(q0, q3, q4, enc_u2(start_pc) + enc_u2(length) + enc_u2(name_index), enc_u2(signature_index));
            lemma_reads_trans(q0, q4, q5, enc_u2(start_pc) + enc_u2(length) + enc_u2(name_index) + enc_u2(signature_index), enc_u2(index));
        }
        Ok(LocalVariableTypeTableAttrInner { start_pc, length, name_index, signature_index, index })
    }

    /// Reads `n` entries of `LocalVariableTypeTableAttrInner` in a row.
    pub(crate) fn table_local_variable_type_table_attr_inner(&mut self, n: u16) -> (r: Result<Vec<LocalVariableTypeTableAttrInner>, ParsingError>)
        requires
            old(self).wf(),
        ensures
            final(self).wf(),
            (r is Ok) == (list_end(old(self).input(), old(self).pos(), n as int, item_local_variable_type_table_attr_inner()) is Ok),
            r matches Err(e) ==> err_is(e, (list_end(old(self).input(), old(self).pos(), n as int, item_local_variable_type_table_attr_inner()))->Err_0),
            r is Ok ==> final(self).pos() == list_end(
                old(self).input(),
                old(self).pos(),
                n as int,
                item_local_variable_type_table_attr_inner(),
            )->Ok_0,
            r matches Ok(v) ==> v@.len() == n && reads(*old(self), *final(self), enc_local_variable_type_table_attr_inner_list(v@)),
            r matches Err(e) ==> e == ParsingError::EndOfInput,
    {
        let ghost p0 = *self;
        let mut out: Vec<LocalVariableTypeTableAttrInner> = Vec::with_capacity(n as usize);
        proof {
            lemma_reads_nothing(p0);
            assert(enc_local_variable_type_table_attr_inner_list(out@) =~= Seq::<u8>::empty());
        }
        let mut i: u16 = 0;
        while i < n
            invariant
                self.wf(),
                i <= n,
                out@.len() == i,
                reads(p0, *self, enc_local_variable_type_table_attr_inner_list(out@)),
                *old(self) == p0,
                list_end(p0.input(), p0.pos(), n as int, item_local_variable_type_table_attr_inner()) == list_end(
                    self.input(),
                    self.pos(),
                    n - i,
                    item_local_variable_type_table_attr_inner(),
                ),
            decreases n - i,
        {
            let ghost mid = *self;
            let ghost old_out = out@;
            let x = self.record_local_variable_type_table_attr_inner()?;
            out.push(x);
            proof {
                assert(out@.drop_last() =~= old_out);
                lemma_reads_trans(p0, mid, *self, enc_local_variable_type_table_attr_inner_list(old_out), enc_local_variable_type_table_attr_inner(x));
            }
            i = i + 1;
        }
        Ok(out)
    }

    /// Reads one `MethodParametersInner`.
    pub(crate) fn record_method_parameters_inner(&mut self) -> (r: Result<MethodParametersInner, ParsingError>)
        requires
            old(self).wf(),
        ensures
            final(self).wf(),
            (r is Ok) == (item_method_parameters_inner()(old(self).input(), old(self).pos()) is Ok),
            r matches Err(e) ==> err_is(e, (item_method_parameters_inner()(old(self).input(), old(self).pos()))->Err_0),
            r is Ok ==> final(self).pos() == item_method_parameters_inner()(old(self).input(), old(self).pos())->Ok_0,
            r matches Ok(v) ==> reads(*old(self), *final(self), enc_method_parameters_inner(v)),
            r matches Err(e) ==> e == ParsingError::EndOfInput,
    {
        let ghost q0 = *self;
        let name_index = self.u2()?;
        let ghost q1 = *self;
        let access_flags = self.u2()?;
        let ghost q2 = *self;
        proof {
            lemma_reads_trans(q0, q1, q2, enc_u2(name_index), enc_u2(access_flags));
        }
        Ok(MethodParametersInner { name_index, access_flags })
    }

    /// Reads `n` entries of `MethodParametersInner` in a row.
    pub(crate) fn table_method_parameters_inner(&mut self, n: u16) -> (r: Result<Vec<MethodParametersInner>, ParsingError>)
        requires
            old(self).wf(),
        ensures
            final(self).wf(),
            (r is Ok) == (list_end(old(self).input(), old(self).pos(), n as int, item_method_parameters_inner()) is Ok),
            r matches Err(e) ==> err_is(e, (list_end(old(self).input(), old(self).pos(), n as int, item_method_parameters_inner()))->Err_0),
            r is Ok ==> final(self).pos() == list_end(
                old(self).input(),
                old(self).pos(),
                n as int,
                item_method_parameters_inner(),
            )->Ok_0,
            r matches Ok(v) ==> v@.len() == n && reads(*old(self), *final(self), enc_method_parameters_inner_list(v@)),
            r matches Err(e) ==> e == ParsingError::EndOfInput,
    {
        let ghost p0 = *self;
        let mut out: Vec<MethodParametersInner> = Vec::with_capacity(n as usize);
        proof {
            lemma_reads_nothing(p0);
            assert(enc_method_parameters_inner_list(out@) =~= Seq::<u8>::empty());
        }
        let mut i: u16 = 0;
        while i < n
            invariant
                self.wf(),
                i <= n,
                out@.len() == i,
                reads(p0, *self, enc_method_parameters_inner_list(out@)),
                *old(self) == p0,
                list_end(p0.input(), p0.pos(), n as int, item_method_parameters_inner()) == list_end(
                    self.input(),
                    self.pos(),
                    n - i,
                    item_method_parameters_inner(),
                ),
            decreases n - i,
        {
            let ghost mid = *self;
            let ghost old_out = out@;
            let x = self.record_method_parameters_inner()?;
            out.push(x);
            proof {
                assert(out@.drop_last() =~= old_out);
                lemma_reads_trans(p0, mid, *self, enc_method_parameters_inner_list(old_out), enc_method_parameters_inner(x));
            }
            i = i + 1;
        }
        Ok(out)
    }

    /// Reads one `ModuleRequires`.
    pub(crate) fn record_module_requires(&mut self) -> (r: Result<ModuleRequires, ParsingError>)
        requires
            old(self).wf(),
        ensures
            final(self).wf(),
            (r is Ok) == (item_module_requires()(old(self).input(), old(self).pos()) is Ok),
            r matches Err(e) ==> err_is(e, (item_module_requires()(old(self).input(), old(self).pos()))->Err_0),
            r is Ok ==> final(self).pos() == item_module_requires()(old(self).input(), old(self).pos())->Ok_0,
            r matches Ok(v) ==> reads(*old(self), *final(self), enc_module_requires(v)),
            r matches Err(e) ==> e == ParsingError::EndOfInput,
    {
        let ghost q0 = *self;
        let requires_index = self.u2()?;
        let ghost q1 = *self;
        let requires_flags = self.u2()?;
        let ghost q2 = *self;
        let require_version_index = self.u2()?;
        let ghost q3 = *self;
        proof {
            lemma_reads_trans(q0, q1, q2, enc_u2(requires_index), enc_u2(requires_flags));
            lemma_reads_trans(q0, q2, q3, enc_u2(requires_index) + enc_u2(requires_flags), enc_u2(require_version_index));
        }
        Ok(ModuleRequires { requires_index, requires_flags, require_version_index })
    }

    /// Reads `n` entries of `ModuleRequires` in a row.
    pub(crate) fn table_module_requires(&mut self, n: u16) -> (r: Result<Vec<ModuleRequires>, ParsingError>)
        requires
            old(self).wf(),
        ensures
            final(self).wf(),
            (r is Ok) == (list_end(old(self).input(), old(self).pos(), n as int, item_module_requires()) is Ok),
            r matches Err(e) ==> err_is(e, (list_end(old(self).input(), old(self).pos(), n as int, item_module_requires()))->Err_0),
            r is Ok ==> final(self).pos() == list_end(
                old(self).input(),
                old(self).pos(),
                n as int,
                item_module_requires(),
            )->Ok_0,
            r matches Ok(v) ==> v@.len() == n && reads(*old(self), *final(self), enc_module_requires_list(v@)),
            r matches Err(e) ==> e == ParsingError::EndOfInput,
    {
        let ghost p0 = *self;
        let mut out: Vec<ModuleRequires> = Vec::with_capacity(n as usize);
        proof {
            lemma_reads_nothing(p0);
            assert(enc_module_requires_list(out@) =~= Seq::<u8>::empty());
        }
        let mut i: u16 = 0;
        while i < n
            invariant
                self.wf(),
                i <= n,
                out@.len() == i,
                reads(p0, *self, enc_module_requires_list(out@)),
                *old(self) == p0,
                list_end(p0.input(), p0.pos(), n as int, item_module_requires()) == list_end(
                    self.input(),
                    self.pos(),
                    n - i,
                    item_module_requires(),
                ),
            decreases n - i,
        {
            let ghost mid = *self;
            let ghost old_out = out@;
            let x = self.record_module_requires()?;
            out.push(x);
            proof {
                assert(out@.drop_last() =~= old_out);
                lemma_reads_trans(p0, mid, *self, enc_module_requires_list(old_out), enc_module_requires(x));
            }
            i = i + 1;
        }
        Ok(out)
    }

    /// Reads one `ModuleExports`.
    pub(crate) fn record_module_exports(&mut self) -> (r: Result<ModuleExports, ParsingError>)
        requires
            old(self).wf(),
        ensures
            final(self).wf(),
            (r is Ok) == (item_module_exports()(old(self).input(), old(self).pos()) is Ok),
            r matches Err(e) ==> err_is(e, (item_module_exports()(old(self).input(), old(self).pos()))->Err_0),
            r is Ok ==> final(self).pos() == item_module_exports()(old(self).input(), old(self).pos())->Ok_0,
            r matches Ok(v) ==> reads(*old(self), *final(self), enc_module_exports(v)) && wf_module_exports(v),
            r matches Err(e) ==> e == ParsingError::EndOfInput,
    {
        let ghost q0 = *self;
        let exports_index = self.u2()?;
        let ghost q1 = *self;
        let exports_flags = self.u2()?;
        let ghost q2 = *self;
        let exports_to_index_count = self.u2()?;
        let ghost c2 = *self;
        let exports_to_index = self.u2_range(exports_to_index_count.0 as u32)?;
        proof {
            lemma_reads_trans(q2, c2, *self, enc_u2(exports_to_index_count), enc_u2s(exports_to_index@));
        }
        let ghost q3 = *self;
        proof {
            lemma_reads_trans(q0, q1, q2, enc_u2(exports_index), enc_u2(exports_flags));
            lemma_reads_trans(q0, q2, q3, enc_u2(exports_index) + enc_u2(exports_flags), (be16(exports_to_index@.len() as u16) + enc_u2s(exports_to_index@)));
        }
        Ok(ModuleExports { exports_index, exports_flags, exports_to_index })
    }

    /// Reads `n` entries of `ModuleExports` in a row.
    pub(crate) fn table_module_exports(&mut self, n: u16) -> (r: Result<Vec<ModuleExports>, ParsingError>)
        requires
            old(self).wf(),
        ensures
            final(self).wf(),
            (r is Ok) == (list_end(old(self).input(), old(self).pos(), n as int, item_module_exports()) is Ok),
            r matches Err(e) ==> err_is(e, (list_end(old(self).input(), old(self).pos(), n as int, item_module_exports()))->Err_0),
            r is Ok ==> final(self).pos() == list_end(
                old(self).input(),
                old(self).pos(),
                n as int,
                item_module_exports(),
            )->Ok_0,
            r matches Ok(v) ==> v@.len() == n && reads(*old(self), *final(self), enc_module_exports_list(v@)) && wf_module_exports_list(v@),
            r matches Err(e) ==> e == ParsingError::EndOfInput,
    {
        let ghost p0 = *self;
        let mut out: Vec<ModuleExports> = Vec::with_capacity(n as usize);
        proof {
            lemma_reads_nothing(p0);
            assert(enc_module_exports_list(out@) =~= Seq::<u8>::empty());
        }
        let mut i: u16 = 0;
        while i < n
            invariant
                self.wf(),
                i <= n,
                out@.len() == i,
                reads(p0, *self, enc_module_exports_list(out@)),
                wf_module_exports_list(out@),
                *old(self) == p0,
                list_end(p0.input(), p0.pos(), n as int, item_module_exports()) == list_end(
                    self.input(),
                    self.pos(),
                    n - i,
                    item_module_exports(),
                ),
            decreases n - i,
        {
            let ghost mid = *self;
            let ghost old_out = out@;
            let x = self.record_module_exports()?;
            out.push(x);
            proof {
                assert(out@.drop_last() =~= old_out);
                lemma_reads_trans(p0, mid, *self, enc_module_exports_list(old_out), enc_module_exports(x));
                assert forall|k: int| 0 <= k < out@.len() implies wf_module_exports(#[trigger] out@[k]) by {
                    if k < old_out.len() {
                        assert(out@[k] == old_out[k]);
                    }
                }
            }
            i = i + 1;
        }
        Ok(out)
    }

    /// Reads one `ModuleOpens`.
    pub(crate) fn record_module_opens(&mut self) -> (r: Result<ModuleOpens, ParsingError>)
        requires
            old(self).wf(),
        ensures
            final(self).wf(),
            (r is Ok) == (item_module_opens()(old(self).input(), old(self).pos()) is Ok),
            r matches Err(e) ==> err_is(e, (item_module_opens()(old(self).input(), old(self).pos()))->Err_0),
            r is Ok ==> final(self).pos() == item_module_opens()(old(self).input(), old(self).pos())->Ok_0,
            r matches Ok(v) ==> reads(*old(self), *final(self), enc_module_opens(v)) && wf_module_opens(v),
            r matches Err(e) ==> e == ParsingError::EndOfInput,
    {
        let ghost q0 = *self;
        let opens_index = self.u2()?;
        let ghost q1 = *self;
        let opens_flags = self.u2()?;
        let ghost q2 = *self;
        let opens_to_index_count = self.u2()?;
        let ghost c2 = *self;
        let opens_to_index = self.u2_range(opens_to_index_count.0 as u32)?;
        proof {
            lemma_reads_trans(q2, c2, *self, enc_u2(opens_to_index_count), enc_u2s(opens_to_index@));
        }
        let ghost q3 = *self;
        proof {
            lemma_reads_trans(q0, q1, q2, enc_u2(opens_index), enc_u2(opens_flags));
            lemma_reads_trans(q0, q2, q3, enc_u2(opens_index) + enc_u2(opens_flags), (be16(opens_to_index@.len() as u16) + enc_u2s(opens_to_index@)));
        }
        Ok(ModuleOpens { opens_index, opens_flags, opens_to_index })
    }

    /// Reads `n` entries of `ModuleOpens` in a row.
    pub(crate) fn table_module_opens(&mut self, n: u16) -> (r: Result<Vec<ModuleOpens>, ParsingError>)
        requires
            old(self).wf(),
        ensures
            final(self).wf(),
            (r is Ok) == (list_end(old(self).input(), old(self).pos(), n as int, item_module_opens()) is Ok),
            r matches Err(e) ==> err_is(e, (list_end(old(self).input(), old(self).pos(), n as int, item_module_opens()))->Err_0),
            r is Ok ==> final(self).pos() == list_end(
                old(self).input(),
                old(self).pos(),
                n as int,
                item_module_opens(),
            )->Ok_0,
            r matches Ok(v) ==> v@.len() == n && reads(*old(self), *final(self), enc_module_opens_list(v@)) && wf_module_opens_list(v@),
            r matches Err(e) ==> e == ParsingError::EndOfInput,
    {
        let ghost p0 = *self;
        let mut out: Vec<ModuleOpens> = Vec::with_capacity(n as usize);
        proof {
            lemma_reads_nothing(p0);
            assert(enc_module_opens_list(out@) =~= Seq::<u8>::empty());
        }
        let mut i: u16 = 0;
        while i < n
            invariant
                self.wf(),
                i <= n,
                out@.len() == i,
                reads(p0, *self, enc_module_opens_list(out@)),
                wf_module_opens_list(out@),
                *old(self) == p0,
                list_end(p0.input(), p0.pos(), n as int, item_module_opens()) == list_end(
                    self.input(),
                    self.pos(),
                    n - i,
                    item_module_opens(),
                ),
            decreases n - i,
        {
            let ghost mid = *self;
            let ghost old_out = out@;
            let x = self.record_module_opens()?;
            out.push(x);
            proof {
                assert(out@.drop_last() =~= old_out);
                lemma_reads_trans(p0, mid, *self, enc_module_opens_list(old_out), enc_module_opens(x));
                assert forall|k: int| 0 <= k < out@.len() implies wf_module_opens(#[trigger] out@[k]) by {
                    if k < old_out.len() {
                        assert(out@[k] == old_out[k]);
                    }
                }
            }
            i = i + 1;
        }
        Ok(out)
    }

    /// Reads one `ModuleProvides`.
    pub(crate) fn record_module_provides(&mut self) -> (r: Result<ModuleProvides, ParsingError>)
        requires
            old(self).wf(),
        ensures
            final(self).wf(),
            (r is Ok) == (item_module_provides()(old(self).input(), old(self).pos()) is Ok),
            r matches Err(e) ==> err_is(e, (item_module_provides()(old(self).input(), old(self).pos()))->Err_0),
            r is Ok ==> final(self).pos() == item_module_provides()(old(self).input(), old(self).pos())->Ok_0,
            r matches Ok(v) ==> reads(*old(self), *final(self), enc_module_provides(v)) && wf_module_provides(v),
            r matches Err(e) ==> e == ParsingError::EndOfInput,
    {
        let ghost q0 = *self;
        let provides_index = self.u2()?;
        let ghost q1 = *self;
        let provides_with_index_count = self.u2()?;
        let ghost c1 = *self;
        let provides_with_index = self.u2_range(provides_with_index_count.0 as u32)?;
        proof {
            lemma_reads_trans(q1, c1, *self, enc_u2(provides_with_index_count), enc_u2s(provides_with_index@));
        }
        let ghost q2 = *self;
        proof {
            lemma_reads_trans(q0, q1, q2, enc_u2(provides_index), (be16(provides_with_index@.len() as u16) + enc_u2s(provides_with_index@)));
        }
        Ok(ModuleProvides { provides_index, provides_with_index })
    }

    /// Reads `n` entries of `ModuleProvides` in a row.
    pub(crate) fn table_module_provides(&mut self, n: u16) -> (r: Result<Vec<ModuleProvides>, ParsingError>)
        requires
            old(self).wf(),
        ensures
            final(self).wf(),
            (r is Ok) == (list_end(old(self).input(), old(self).pos(), n as int, item_module_provides()) is Ok),
            r matches Err(e) ==> err_is(e, (list_end(old(self).input(), old(self).pos(), n as int, item_module_provides()))->Err_0),
            r is Ok ==> final(self).pos() == list_end(
                old(self).input(),
                old(self).pos(),
                n as int,
                item_module_provides(),
            )->Ok_0,
            r matches Ok(v) ==> v@.len() == n && reads(*old(self), *final(self), enc_module_provides_list(v@)) && wf_module_provides_list(v@),
            r matches Err(e) ==> e == ParsingError::EndOfInput,
    {
        let ghost p0 = *self;
        let mut out: Vec<ModuleProvides> = Vec::with_capacity(n as usize);
        proof {
            lemma_reads_nothing(p0);
            assert(enc_module_provides_list(out@) =~= Seq::<u8>::empty());
        }
        let mut i: u16 = 0;
        while i < n
            invariant
                self.wf(),
                i <= n,
                out@.len() == i,
                reads(p0, *self, enc_module_provides_list(out@)),
                wf_module_provides_list(out@),
                *old(self) == p0,
                list_end(p0.input(), p0.pos(), n as int, item_module_provides()) == list_end(
                    self.input(),
                    self.pos(),
                    n - i,
                    item_module_provides(),
                ),
            decreases n - i,
        {
            let ghost mid = *self;
            let ghost old_out = out@;
            let x = self.record_module_provides()?;
            out.push(x);
            proof {
                assert(out@.drop_last() =~= old_out);
                lemma_reads_trans(p0, mid, *self, enc_module_provides_list(old_out), enc_module_provides(x));
                assert forall|k: int| 0 <= k < out@.len() implies wf_module_provides(#[trigger] out@[k]) by {
                    if k < old_out.len() {
                        assert(out@[k] == old_out[k]);
                    }
                }
            }
            i = i + 1;
        }
        Ok(out)
    }

    /// Reads one `BootStrapMethodsInner`.
    pub(crate) fn record_boot_strap_methods_inner(&mut self) -> (r: Result<BootStrapMethodsInner, ParsingError>)
        requires
            old(self).wf(),
        ensures
            final(self).wf(),
            (r is Ok) == (item_boot_strap_methods_inner()(old(self).input(), old(self).pos()) is Ok),
            r matches Err(e) ==> err_is(e, (item_boot_strap_methods_inner()(old(self).input(), old(self).pos()))->Err_0),
            r is Ok ==> final(self).pos() == item_boot_strap_methods_inner()(old(self).input(), old(self).pos())->Ok_0,
            r matches Ok(v) ==> reads(*old(self), *final(self), enc_boot_strap_methods_inner(v)) && wf_boot_strap_methods_inner(v),
            r matches Err(e) ==> e == ParsingError::EndOfInput,
    {
        let ghost q0 = *self;
        let bootstrap_method_ref = self.u2()?;
        let ghost q1 = *self;
        let bootstrap_arguments_count = self.u2()?;
        let ghost c1 = *self;
        let bootstrap_arguments = self.u2_range(bootstrap_arguments_count.0 as u32)?;
        proof {
            lemma_reads_trans(q1, c1, *self, enc_u2(bootstrap_arguments_count), enc_u2s(bootstrap_arguments@));
        }
        let ghost q2 = *self;
        proof {
            lemma_reads_trans(q0, q1, q2, enc_u2(bootstrap_method_ref), (be16(bootstrap_arguments@.len() as u16) + enc_u2s(bootstrap_arguments@)));
        }
        Ok(BootStrapMethodsInner { bootstrap_method_ref, bootstrap_arguments })
    }

    /// Reads `n` entries of `BootStrapMethodsInner` in a row.
    pub(crate) fn table_boot_strap_methods_inner(&mut self, n: u16) -> (r: Result<Vec<BootStrapMethodsInner>, ParsingError>)
        requires
            old(self).wf(),
        ensures
            final(self).wf(),
            (r is Ok) == (list_end(old(self).input(), old(self).pos(), n as int, item_boot_strap_methods_inner()) is Ok),
            r matches Err(e) ==> err_is(e, (list_end(old(self).input(), old(self).pos(), n as int, item_boot_strap_methods_inner()))->Err_0),
            r is Ok ==> final(self).pos() == list_end(
                old(self).input(),
                old(self).pos(),
                n as int,
                item_boot_strap_methods_inner(),
            )->Ok_0,
            r matches Ok(v) ==> v@.len() == n && reads(*old(self), *final(self), enc_boot_strap_methods_inner_list(v@)) && wf_boot_strap_methods_inner_list(v@),
            r matches Err(e) ==> e == ParsingError::EndOfInput,
    {
        let ghost p0 = *self;
        let mut out: Vec<BootStrapMethodsInner> = Vec::with_capacity(n as usize);
        proof {
            lemma_reads_nothing(p0);
            assert(enc_boot_strap_methods_inner_list(out@) =~= Seq::<u8>::empty());
        }
        let mut i: u16 = 0;
        while i < n
            invariant
                self.wf(),
                i <= n,
                out@.len() == i,
                reads(p0, *self, enc_boot_strap_methods_inner_list(out@)),
                wf_boot_strap_methods_inner_list(out@),
                *old(self) == p0,
                list_end(p0.input(), p0.pos(), n as int, item_boot_strap_methods_inner()) == list_end(
                    self.input(),
                    self.pos(),
                    n - i,
                    item_boot_strap_methods_inner(),
                ),
            decreases n - i,
        {
            let ghost mid = *self;
            let ghost old_out = out@;
            let x = self.record_boot_strap_methods_inner()?;
            out.push(x);
            proof {
                assert(out@.drop_last() =~= old_out);
                lemma_reads_trans(p0, mid, *self, enc_boot_strap_methods_inner_list(old_out), enc_boot_strap_methods_inner(x));
                assert forall|k: int| 0 <= k < out@.len() implies wf_boot_strap_methods_inner(#[trigger] out@[k]) by {
                    if k < old_out.len() {
                        assert(out@[k] == old_out[k]);
                    }
                }
            }
            i = i + 1;
        }
        Ok(out)
    }
}

} // verus!
