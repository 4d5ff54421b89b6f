use vstd::prelude::*;
use vstd::string::StringSliceAdditionalSpecFns;
use crate::class_parser::annotations::{
    ann_item, anns_ok, annotation_error, ev_end, ev_ok, is_target_type, ta_item, tas_ok,
};
use crate::class_parser::constant_pool::cp_utf8;
use crate::class_parser::encoding::{be16, be32, enc_u2, enc_u2s};
use crate::class_parser::reader::{
    err_is, short, Fail,
    advanced, consumed, lemma_consumed_cat, lemma_reads_consumed, lemma_reads_nothing,
    counted_end, lemma_reads_trans, list_end, reads, skip, u16_at, u32_at, Parser,
};
use crate::class_parser::stack_map::{enc_frame, frame_item, frame_wf};
use crate::class_parser::tables::{
    enc_boot_strap_methods_inner_list, enc_classes_inner_class_attr_list,
    enc_exception_table_attr_code_list, enc_line_number_table_attr_inner_list,
    enc_local_variable_table_attr_inner_list, enc_local_variable_type_table_attr_inner_list,
    enc_method_parameters_inner_list, enc_module_exports_list, enc_module_opens_list,
    enc_module_provides_list, enc_module_requires_list, wf_boot_strap_methods_inner_list,
    item_boot_strap_methods_inner, item_classes_inner_class_attr, item_exception_table_attr_code, item_line_number_table_attr_inner,
    item_local_variable_table_attr_inner, item_local_variable_type_table_attr_inner,
    item_method_parameters_inner, item_module_exports, item_module_opens, item_module_provides,
    item_module_requires, wf_module_exports_list, wf_module_opens_list, wf_module_provides_list,
};
use crate::class_parser::{
    AnnotationDefault, AttrCode, Attributes, BootStrapMethods, CpNode, Deprecated, EnclosingMethod,
    Exceptions, InnerClass, LineNumberTable, LocalVariableTable, LocalVariableTypeTable,
    MethodParameters, Module, ModuleMainClass, ModulePackages, NestHost, NestMembers,
    ParameterAnnotationsRuntimeParameterAnnotationsAttr, PermittedSubclasses, Record,
    RecordComponentInfo, RuntimeInvisibleAnnotations, RuntimeInvisibleParameterAnnotations,
    RuntimeInvisibleTypeAnnotations, RuntimeVisibleAnnotations, RuntimeVisibleParameterAnnotations,
    RuntimeVisibleTypeAnnotations, Signature, SourceDebugExt, SourceFile, StackMapFrame,
    StackMapTable, Synthetic, Value, Annotation, TypeAnnotation,
};
use crate::consts::MAX_ELEMENT_VALUE_DEPTH;
use crate::errors::ParsingError;

verus! {

/// The name under which each attribute kind is stored in the constant pool.
pub open spec fn attr_name(a: Attributes) -> Seq<u8> {
    match a {
        Attributes::Value(_) => "ConstantValue".spec_bytes(),
        Attributes::Code(_) => "Code".spec_bytes(),
        Attributes::StackMapTable(_) => "StackMapTable".spec_bytes(),
        Attributes::Exceptions(_) => "Exceptions".spec_bytes(),
        Attributes::InnerClass(_) => "InnerClasses".spec_bytes(),
        Attributes::EnclosingMethod(_) => "EnclosingMethod".spec_bytes(),
        Attributes::Synthetic(_) => "Synthetic".spec_bytes(),
        Attributes::Signature(_) => "Signature".spec_bytes(),
        Attributes::SourceFile(_) => "SourceFile".spec_bytes(),
        Attributes::SourceDebugExt(_) => "SourceDebugExtension".spec_bytes(),
        Attributes::LineNumberTable(_) => "LineNumberTable".spec_bytes(),
        Attributes::LocalVariableTable(_) => "LocalVariableTable".spec_bytes(),
        Attributes::LocalVariableTypeTable(_) => "LocalVariableTypeTable".spec_bytes(),
        Attributes::Deprecated(_) => "Deprecated".spec_bytes(),
        Attributes::RuntimeVisibleAnnotations(_) => "RuntimeVisibleAnnotations".spec_bytes(),
        Attributes::RuntimeInvisibleAnnotations(_) => "RuntimeInvisibleAnnotations".spec_bytes(),
        Attributes::RuntimeVisibleParameterAnnotations(_) => "RuntimeVisibleParameterAnnotations".spec_bytes(),
        Attributes::RuntimeInvisibleParameterAnnotations(_) => "RuntimeInvisibleParameterAnnotations".spec_bytes(),
        Attributes::RuntimeVisibleTypeAnnotations(_) => "RuntimeVisibleTypeAnnotations".spec_bytes(),
        Attributes::RuntimeInvisibleTypeAnnotations(_) => "RuntimeInvisibleTypeAnnotations".spec_bytes(),
        Attributes::AnnotationDefault(_) => "AnnotationDefault".spec_bytes(),
        Attributes::BootstrapMethods(_) => "BootstrapMethods".spec_bytes(),
        Attributes::MethodParameters(_) => "MethodParameters".spec_bytes(),
        Attributes::Module(_) => "Module".spec_bytes(),
        Attributes::ModulePackages(_) => "ModulePackages".spec_bytes(),
        Attributes::ModuleMainClass(_) => "ModuleMainClass".spec_bytes(),
        Attributes::NestHost(_) => "NestHost".spec_bytes(),
        Attributes::NestMembers(_) => "NestMembers".spec_bytes(),
        Attributes::Record(_) => "Record".spec_bytes(),
        Attributes::PermittedSubclasses(_) => "PermittedSubclasses".spec_bytes(),
    }
}

/// The names of the attribute kinds that the decoder recognizes.
pub open spec fn is_attr_name(name: Seq<u8>) -> bool {
    name == "ConstantValue".spec_bytes()
        || name == "Code".spec_bytes()
        || name == "StackMapTable".spec_bytes()
        || name == "Exceptions".spec_bytes()
        || name == "InnerClasses".spec_bytes()
        || name == "EnclosingMethod".spec_bytes()
        || name == "Synthetic".spec_bytes()
        || name == "Signature".spec_bytes()
        || name == "SourceFile".spec_bytes()
        || name == "SourceDebugExtension".spec_bytes()
        || name == "LineNumberTable".spec_bytes()
        || name == "LocalVariableTable".spec_bytes()
        || name == "LocalVariableTypeTable".spec_bytes()
        || name == "Deprecated".spec_bytes()
        || name == "RuntimeVisibleAnnotations".spec_bytes()
        || name == "RuntimeInvisibleAnnotations".spec_bytes()
        || name == "RuntimeVisibleParameterAnnotations".spec_bytes()
        || name == "RuntimeInvisibleParameterAnnotations".spec_bytes()
        || name == "RuntimeVisibleTypeAnnotations".spec_bytes()
        || name == "RuntimeInvisibleTypeAnnotations".spec_bytes()
        || name == "AnnotationDefault".spec_bytes()
        || name == "BootstrapMethods".spec_bytes()
        || name == "MethodParameters".spec_bytes()
        || name == "Module".spec_bytes()
        || name == "ModulePackages".spec_bytes()
        || name == "ModuleMainClass".spec_bytes()
        || name == "NestHost".spec_bytes()
        || name == "NestMembers".spec_bytes()
        || name == "Record".spec_bytes()
        || name == "PermittedSubclasses".spec_bytes()
}

/// A name that no attribute kind has is reported as such.
pub proof fn lemma_unknown_attribute_name(
    names: spec_fn(int) -> Option<Seq<u8>>,
    name: Seq<u8>,
    b: Seq<u8>,
    pos: int,
    len: int,
    depth: int,
)
    requires
        !is_attr_name(name),
    ensures
        attr_body_end(names, name, b, pos, len, depth) == Err::<int, Fail>(Fail::UnknownAttribute(name)),
{
    reveal(flat_end);
}

/// The errors that decoding attributes can raise.
pub open spec fn attribute_error(e: ParsingError) -> bool {
    ||| annotation_error(e)
    ||| (e matches ParsingError::InvalidTargetType(t) && !is_target_type(t))
    ||| e is InvalidFrameType
    ||| e is InvalidTagVerificationTypeInfo
    ||| e == ParsingError::AttributeNotUtf8
    ||| e is InvalidAttribute
    ||| e == ParsingError::AttributeLengthMismatch
}

/// The encoding of a list of stack-map frames, without its count.
pub open spec fn enc_frames(s: Seq<StackMapFrame>) -> Seq<u8>
    decreases s.len(),
{
    if s.len() == 0 {
        Seq::empty()
    } else {
        enc_frames(s.drop_last()) + enc_frame(s.last())
    }
}

/// Every frame is well formed.
pub open spec fn frames_wf(s: Seq<StackMapFrame>) -> bool {
    forall|i: int| 0 <= i < s.len() ==> frame_wf(#[trigger] s[i])
}

/// The counts of a Module attribute fit their fields.
pub open spec fn module_wf(x: Module) -> bool {
    &&& x.requires@.len() < 65536
    &&& x.exports@.len() < 65536
    &&& wf_module_exports_list(x.exports@)
    &&& x.opens@.len() < 65536
    &&& wf_module_opens_list(x.opens@)
    &&& x.uses_index@.len() < 65536
    &&& x.provides@.len() < 65536
    &&& wf_module_provides_list(x.provides@)
}

/// The encoding of a Module attribute's body.
pub open spec fn enc_module(x: Module) -> Seq<u8> {
    enc_u2(x.module_name_index) + enc_u2(x.module_flags) + enc_u2(x.module_version_index) + be16(
        x.requires@.len() as u16,
    ) + enc_module_requires_list(x.requires@) + be16(x.exports@.len() as u16)
        + enc_module_exports_list(x.exports@) + be16(x.opens@.len() as u16) + enc_module_opens_list(
        x.opens@,
    ) + be16(x.uses_index@.len() as u16) + enc_u2s(x.uses_index@) + be16(
        x.provides@.len() as u16,
    ) + enc_module_provides_list(x.provides@)
}

/// `b` encodes the count and annotations of an annotations attribute.
pub open spec fn annotations_attr_ok(s: Seq<Annotation>, b: Seq<u8>) -> bool {
    &&& s.len() < 65536
    &&& b.len() >= 2
    &&& b.subrange(0, 2) == be16(s.len() as u16)
    &&& anns_ok(s, b.subrange(2, b.len() as int), MAX_ELEMENT_VALUE_DEPTH as nat)
}

/// `b` encodes the count and type annotations of a type-annotations attribute.
pub open spec fn type_annotations_attr_ok(s: Seq<TypeAnnotation>, b: Seq<u8>) -> bool {
    &&& s.len() < 65536
    &&& b.len() >= 2
    &&& b.subrange(0, 2) == be16(s.len() as u16)
    &&& tas_ok(s, b.subrange(2, b.len() as int), MAX_ELEMENT_VALUE_DEPTH as nat)
}

/// `b` encodes the annotations of one parameter.
pub open spec fn param_ok(p: ParameterAnnotationsRuntimeParameterAnnotationsAttr, b: Seq<u8>) -> bool {
    annotations_attr_ok(p.annotations@, b)
}

/// `b` encodes the annotations of the parameters `s`, one after another.
pub open spec fn params_ok(s: Seq<ParameterAnnotationsRuntimeParameterAnnotationsAttr>, b: Seq<u8>) -> bool
    decreases s.len(),
{
    if s.len() == 0 {
        b.len() == 0
    } else {
        exists|k: int|
            0 <= k <= b.len() && params_ok(s.drop_last(), #[trigger] b.subrange(0, k)) && param_ok(
                s.last(),
                b.subrange(k, b.len() as int),
            )
    }
}

/// `b` encodes the parameter count and annotations of a parameter-annotations attribute.
pub open spec fn param_annotations_ok(
    s: Seq<ParameterAnnotationsRuntimeParameterAnnotationsAttr>,
    b: Seq<u8>,
) -> bool {
    &&& s.len() < 256
    &&& b.len() >= 1
    &&& b[0] == s.len() as u8
    &&& params_ok(s, b.subrange(1, b.len() as int))
}

/// `b` is the body of the attribute `a`, for the kinds that hold no nested
/// attributes.
pub open spec fn flat_body_ok(a: Attributes, b: Seq<u8>) -> bool {
    match a {
        Attributes::Value(x) => b == enc_u2(x.value_index),
        Attributes::SourceFile(x) => b == enc_u2(x.sourcefile_index),
        Attributes::Signature(x) => b == enc_u2(x.signature_index),
        Attributes::ModuleMainClass(x) => b == enc_u2(x.main_class_index),
        Attributes::NestHost(x) => b == enc_u2(x.host_class_index),
        Attributes::EnclosingMethod(x) => b == enc_u2(x.class_index) + enc_u2(x.method_index),
        Attributes::Exceptions(x) => x.exception_index_table@.len() < 65536 && b == be16(x.exception_index_table@.len() as u16) + enc_u2s(x.exception_index_table@),
        Attributes::ModulePackages(x) => x.package_index@.len() < 65536 && b == be16(x.package_index@.len() as u16) + enc_u2s(x.package_index@),
        Attributes::NestMembers(x) => x.classes@.len() < 65536 && b == be16(x.classes@.len() as u16) + enc_u2s(x.classes@),
        Attributes::PermittedSubclasses(x) => x.classes@.len() < 65536 && b == be16(x.classes@.len() as u16) + enc_u2s(x.classes@),
        Attributes::InnerClass(x) => x.classes@.len() < 65536 && b == be16(x.classes@.len() as u16) + enc_classes_inner_class_attr_list(x.classes@),
        Attributes::LineNumberTable(x) => x.line_number_table@.len() < 65536 && b == be16(x.line_number_table@.len() as u16) + enc_line_number_table_attr_inner_list(x.line_number_table@),
        Attributes::LocalVariableTable(x) => x.local_variable_table@.len() < 65536 && b == be16(x.local_variable_table@.len() as u16) + enc_local_variable_table_attr_inner_list(x.local_variable_table@),
        Attributes::LocalVariableTypeTable(x) => x.local_variable_type_table@.len() < 65536 && b == be16(x.local_variable_type_table@.len() as u16) + enc_local_variable_type_table_attr_inner_list(x.local_variable_type_table@),
        Attributes::BootstrapMethods(x) => x.bootstrap_methods@.len() < 65536 && b == be16(x.bootstrap_methods@.len() as u16) + enc_boot_strap_methods_inner_list(x.bootstrap_methods@) && wf_boot_strap_methods_inner_list(x.bootstrap_methods@),
        Attributes::MethodParameters(x) => x.parameters@.len() < 256 && b == seq![x.parameters@.len() as u8] + enc_method_parameters_inner_list(x.parameters@),
        Attributes::Synthetic(_) => b.len() == 0,
        Attributes::Deprecated(_) => b.len() == 0,
        Attributes::SourceDebugExt(x) => b == x.debug_extension@,
        Attributes::StackMapTable(x) => x.entries@.len() < 65536 && frames_wf(x.entries@) && b
            == be16(x.entries@.len() as u16) + enc_frames(x.entries@),
        Attributes::Module(x) => module_wf(x) && b == enc_module(x),
        Attributes::RuntimeVisibleAnnotations(x) => annotations_attr_ok(x.annotations@, b),
        Attributes::RuntimeInvisibleAnnotations(x) => annotations_attr_ok(x.annotations@, b),
        Attributes::RuntimeVisibleParameterAnnotations(x) => param_annotations_ok(
            x.parameter_annotations@,
            b,
        ),
        Attributes::RuntimeInvisibleParameterAnnotations(x) => param_annotations_ok(
            x.parameter_annotations@,
            b,
        ),
        Attributes::RuntimeVisibleTypeAnnotations(x) => type_annotations_attr_ok(
            x.type_annotation@,
            b,
        ),
        Attributes::RuntimeInvisibleTypeAnnotations(x) => type_annotations_attr_ok(
            x.annotations@,
            b,
        ),
        Attributes::AnnotationDefault(x) => ev_ok(
            x.default_value,
            b,
            MAX_ELEMENT_VALUE_DEPTH as nat,
        ),
        Attributes::Code(_) => false,
        Attributes::Record(_) => false,
    }
}

/// A 16-bit count at `pos` and then that many 16-bit values.
pub open spec fn counted_u2s_end(b: Seq<u8>, pos: int) -> Result<int, Fail> {
    if pos + 2 > b.len() {
        Err(Fail::Error(ParsingError::EndOfInput))
    } else {
        skip(b, pos + 2, 2 * u16_at(b, pos))
    }
}

/// An 8-bit count at `pos` and then that many items as `f` decodes them.
pub open spec fn u1_counted_end(b: Seq<u8>, pos: int, f: spec_fn(Seq<u8>, int) -> Result<int, Fail>) -> Result<int, Fail> {
    if pos + 1 > b.len() {
        Err(Fail::Error(ParsingError::EndOfInput))
    } else {
        list_end(b, pos + 1, b[pos] as int, f)
    }
}

/// The annotations of one parameter.
pub open spec fn param_item() -> spec_fn(Seq<u8>, int) -> Result<int, Fail> {
    |b: Seq<u8>, pos: int| counted_end(b, pos, ann_item(MAX_ELEMENT_VALUE_DEPTH as int))
}

/// Where the body of a Module attribute at `pos` ends.
pub open spec fn module_end(b: Seq<u8>, pos: int) -> Result<int, Fail> {
    match skip(b, pos, 6) {
        Err(x) => Err(x),
        Ok(p1) => match counted_end(b, p1, item_module_requires()) {
            Err(x) => Err(x),
            Ok(p2) => match counted_end(b, p2, item_module_exports()) {
                Err(x) => Err(x),
                Ok(p3) => match counted_end(b, p3, item_module_opens()) {
                    Err(x) => Err(x),
                    Ok(p4) => match counted_u2s_end(b, p4) {
                        Err(x) => Err(x),
                        Ok(p5) => counted_end(b, p5, item_module_provides()),
                    },
                },
            },
        },
    }
}

/// Where the body of an attribute of the kind named `name` ends, for the
/// kinds that hold no nested attributes; `len` is its declared length.
#[verifier::opaque]
pub open spec fn flat_end(name: Seq<u8>, b: Seq<u8>, pos: int, len: int) -> Result<int, Fail> {
    let max = MAX_ELEMENT_VALUE_DEPTH as int;
    if name == "ConstantValue".spec_bytes() {
        skip(b, pos, 2)
    } else if name == "SourceFile".spec_bytes() {
        skip(b, pos, 2)
    } else if name == "Module".spec_bytes() {
        module_end(b, pos)
    } else if name == "LineNumberTable".spec_bytes() {
        counted_end(b, pos, item_line_number_table_attr_inner())
    } else if name == "StackMapTable".spec_bytes() {
        counted_end(b, pos, frame_item())
    } else if name == "Exceptions".spec_bytes() {
        counted_u2s_end(b, pos)
    } else if name == "InnerClasses".spec_bytes() {
        counted_end(b, pos, item_classes_inner_class_attr())
    } else if name == "EnclosingMethod".spec_bytes() {
        skip(b, pos, 4)
    } else if name == "Synthetic".spec_bytes() {
        Ok(pos)
    } else if name == "Signature".spec_bytes() {
        skip(b, pos, 2)
    } else if name == "SourceDebugExtension".spec_bytes() {
        skip(b, pos, len)
    } else if name == "LocalVariableTable".spec_bytes() {
        counted_end(b, pos, item_local_variable_table_attr_inner())
    } else if name == "LocalVariableTypeTable".spec_bytes() {
        counted_end(b, pos, item_local_variable_type_table_attr_inner())
    } else if name == "Deprecated".spec_bytes() {
        Ok(pos)
    } else if name == "RuntimeVisibleAnnotations".spec_bytes() {
        counted_end(b, pos, ann_item(max))
    } else if name == "RuntimeInvisibleAnnotations".spec_bytes() {
        counted_end(b, pos, ann_item(max))
    } else if name == "RuntimeVisibleParameterAnnotations".spec_bytes() {
        u1_counted_end(b, pos, param_item())
    } else if name == "RuntimeInvisibleParameterAnnotations".spec_bytes() {
        u1_counted_end(b, pos, param_item())
    } else if name == "RuntimeVisibleTypeAnnotations".spec_bytes() {
        counted_end(b, pos, ta_item(max))
    } else if name == "RuntimeInvisibleTypeAnnotations".spec_bytes() {
        counted_end(b, pos, ta_item(max))
    } else if name == "AnnotationDefault".spec_bytes() {
        ev_end(b, pos, max)
    } else if name == "BootstrapMethods".spec_bytes() {
        counted_end(b, pos, item_boot_strap_methods_inner())
    } else if name == "MethodParameters".spec_bytes() {
        u1_counted_end(b, pos, item_method_parameters_inner())
    } else if name == "ModulePackages".spec_bytes() {
        counted_u2s_end(b, pos)
    } else if name == "ModuleMainClass".spec_bytes() {
        skip(b, pos, 2)
    } else if name == "NestHost".spec_bytes() {
        skip(b, pos, 2)
    } else if name == "NestMembers".spec_bytes() {
        counted_u2s_end(b, pos)
    } else if name == "PermittedSubclasses".spec_bytes() {
        counted_u2s_end(b, pos)
    } else {
        Err(Fail::UnknownAttribute(name))
    }
}

/// The fixed part of a Code attribute's body, up to its attribute count.
pub open spec fn code_prefix(x: AttrCode) -> Seq<u8> {
    enc_u2(x.max_stack) + enc_u2(x.max_locals) + be32(x.code@.len() as u32) + x.code@ + be16(
        x.exception_table@.len() as u16,
    ) + enc_exception_table_attr_code_list(x.exception_table@) + be16(
        x.attributes@.len() as u16,
    )
}

/// `b` is the body of the attribute `a`, its nested attribute lists at most
/// `depth - 1` deep.
pub open spec fn body_ok(cp: Seq<CpNode>, a: Attributes, b: Seq<u8>, depth: nat) -> bool
    decreases depth, 1nat, 0nat,
{
    match a {
        Attributes::Code(x) => {
            &&& depth > 0
            &&& x.code@.len() < 0x1_0000_0000
            &&& x.exception_table@.len() < 65536
            &&& x.attributes@.len() < 65536
            &&& b.len() >= code_prefix(x).len()
            &&& b.subrange(0, code_prefix(x).len() as int) == code_prefix(x)
            &&& attrs_ok(
                cp,
                x.attributes@,
                b.subrange(code_prefix(x).len() as int, b.len() as int),
                (depth - 1) as nat,
            )
        },
        Attributes::Record(x) => {
            &&& x.components@.len() < 65536
            &&& b.len() >= 2
            &&& b.subrange(0, 2) == be16(x.components@.len() as u16)
            &&& comps_ok(cp, x.components@, b.subrange(2, b.len() as int), depth)
        },
        _ => flat_body_ok(a, b),
    }
}

/// `b` encodes one record component.
pub open spec fn comp_ok(cp: Seq<CpNode>, c: RecordComponentInfo, b: Seq<u8>, depth: nat) -> bool
    decreases depth, 0nat, 0nat,
{
    &&& depth > 0
    &&& c.attributes@.len() < 65536
    &&& b.len() >= 6
    &&& b.subrange(0, 6) == enc_u2(c.name_index) + enc_u2(c.descriptor_index) + be16(
        c.attributes@.len() as u16,
    )
    &&& attrs_ok(cp, c.attributes@, b.subrange(6, b.len() as int), (depth - 1) as nat)
}

/// `b` encodes the record components `s`, one after another.
pub open spec fn comps_ok(cp: Seq<CpNode>, s: Seq<RecordComponentInfo>, b: Seq<u8>, depth: nat) -> bool
    decreases depth, 0nat, s.len(),
{
    if s.len() == 0 {
        b.len() == 0
    } else {
        exists|k: int|
            0 <= k <= b.len() && comps_ok(cp, s.drop_last(), #[trigger] b.subrange(0, k), depth)
                && comp_ok(cp, s.last(), b.subrange(k, b.len() as int), depth)
    }
}

/// `b` encodes the attribute `a`: a name index that resolves to the Utf8 of
/// its kind's name, a length that matches its body, and the body.
pub open spec fn attr_ok(cp: Seq<CpNode>, a: Attributes, b: Seq<u8>, depth: nat) -> bool
    decreases depth, 2nat, 0nat,
{
    &&& b.len() >= 6
    &&& b.len() - 6 < 0x1_0000_0000
    &&& exists|ni: u16| #[trigger] be16(ni) == b.subrange(0, 2) && cp_utf8(cp, ni as int) == Some(
        attr_name(a),
    )
    &&& b.subrange(2, 6) == be32((b.len() - 6) as u32)
    &&& body_ok(cp, a, b.subrange(6, b.len() as int), depth)
}

/// `b` encodes the attributes `s`, one after another, nested at most `depth` deep.
pub open spec fn attrs_ok(cp: Seq<CpNode>, s: Seq<Attributes>, b: Seq<u8>, depth: nat) -> bool
    decreases depth, 3nat, s.len(),
{
    &&& depth > 0
    &&& if s.len() == 0 {
        b.len() == 0
    } else {
        exists|k: int|
            0 <= k <= b.len() && attrs_ok(cp, s.drop_last(), #[trigger] b.subrange(0, k), depth)
                && attr_ok(cp, s.last(), b.subrange(k, b.len() as int), depth)
    }
}

/// The Utf8 entries of a constant pool, by 1-based index.
pub open spec fn cp_names(cp: Seq<CpNode>) -> spec_fn(int) -> Option<Seq<u8>> {
    |i: int| cp_utf8(cp, i)
}

/// Where the body of an attribute named `name` at `pos` ends; its nested
/// attribute lists nest at most `depth - 1` deep.
pub open spec fn attr_body_end(
    names: spec_fn(int) -> Option<Seq<u8>>,
    name: Seq<u8>,
    b: Seq<u8>,
    pos: int,
    len: int,
    depth: int,
) -> Result<int, Fail>
    decreases depth, 2int, 0int,
{
    if name == "Code".spec_bytes() {
        code_end(names, b, pos, depth)
    } else if name == "Record".spec_bytes() {
        record_end(names, b, pos, depth)
    } else {
        flat_end(name, b, pos, len)
    }
}

/// Where the body of a Record attribute at `pos` ends.
pub open spec fn record_end(names: spec_fn(int) -> Option<Seq<u8>>, b: Seq<u8>, pos: int, depth: int) -> Result<int, Fail>
    decreases depth, 1int, 0int,
{
    if pos + 2 > b.len() {
        Err(Fail::Error(ParsingError::EndOfInput))
    } else {
        comps_end(names, b, pos + 2, u16_at(b, pos), depth)
    }
}

/// Where the body of a Code attribute at `pos` ends.
pub open spec fn code_end(names: spec_fn(int) -> Option<Seq<u8>>, b: Seq<u8>, pos: int, depth: int) -> Result<int, Fail>
    decreases depth, 0int, 0int,
{
    if depth <= 0 {
        Err(Fail::Error(ParsingError::NestingTooDeep))
    } else if pos + 8 > b.len() {
        Err(Fail::Error(ParsingError::EndOfInput))
    } else {
        let p = pos + 8 + u32_at(b, pos + 4);
        if p > b.len() {
            Err(Fail::Error(ParsingError::EndOfInput))
        } else {
            match counted_end(b, p, item_exception_table_attr_code()) {
                Err(x) => Err(x),
                Ok(p2) => if p2 + 2 > b.len() {
                    Err(Fail::Error(ParsingError::EndOfInput))
                } else {
                    attrs_end(names, b, p2 + 2, u16_at(b, p2), depth - 1)
                },
            }
        }
    }
}

/// Where `n` record components in a row end.
pub open spec fn comps_end(names: spec_fn(int) -> Option<Seq<u8>>, b: Seq<u8>, pos: int, n: int, depth: int) -> Result<int, Fail>
    decreases depth, 0int, n,
{
    if n <= 0 {
        Ok(pos)
    } else {
        match comp_end(names, b, pos, depth) {
            Ok(e) => comps_end(names, b, e, n - 1, depth),
            Err(x) => Err(x),
        }
    }
}

/// Where the record component at `pos` ends.
pub open spec fn comp_end(names: spec_fn(int) -> Option<Seq<u8>>, b: Seq<u8>, pos: int, depth: int) -> Result<int, Fail>
    decreases depth, 0int, 0int,
{
    if depth <= 0 {
        Err(Fail::Error(ParsingError::NestingTooDeep))
    } else if pos + 6 > b.len() {
        Err(Fail::Error(ParsingError::EndOfInput))
    } else {
        attrs_end(names, b, pos + 6, u16_at(b, pos + 4), depth - 1)
    }
}

/// Where the attribute at `pos` ends: its name must be a Utf8 entry of `cp`,
/// and its body must take exactly its declared length.
pub open spec fn attr_end(names: spec_fn(int) -> Option<Seq<u8>>, b: Seq<u8>, pos: int, depth: int) -> Result<int, Fail>
    decreases depth, 3int, 0int,
{
    if pos + 6 > b.len() {
        Err(Fail::Error(ParsingError::EndOfInput))
    } else {
        match names(u16_at(b, pos)) {
            None => Err(Fail::Error(ParsingError::AttributeNotUtf8)),
            Some(name) => match attr_body_end(names, name, b, pos + 6, u32_at(b, pos + 2), depth) {
                Err(x) => Err(x),
                Ok(e) => if e - (pos + 6) == u32_at(b, pos + 2) {
                    Ok(e)
                } else {
                    Err(Fail::Error(ParsingError::AttributeLengthMismatch))
                },
            },
        }
    }
}

/// Where `n` attributes in a row end, nested at most `depth` deep.
pub open spec fn attrs_end(names: spec_fn(int) -> Option<Seq<u8>>, b: Seq<u8>, pos: int, n: int, depth: int) -> Result<int, Fail>
    decreases depth, 4int, n,
{
    if depth <= 0 {
        Err(Fail::Error(ParsingError::NestingTooDeep))
    } else if n <= 0 {
        Ok(pos)
    } else {
        match attr_end(names, b, pos, depth) {
            Ok(e) => attrs_end(names, b, e, n - 1, depth),
            Err(x) => Err(x),
        }
    }
}

/// Whether two byte strings are equal.
pub fn bytes_eq(a: &[u8], b: &[u8]) -> (r: bool)
    ensures
        r == (a@ == b@),
{
    if a.len() != b.len() {
        return false;
    }
    let mut i: usize = 0;
    while i < a.len()
        invariant
            a@.len() == b@.len(),
            i <= a@.len(),
            forall|j: int| 0 <= j < i ==> a@[j] == b@[j],
        decreases a@.len() - i,
    {
        if a[i] != b[i] {
            return false;
        }
        i = i + 1;
    }
    assert(a@ =~= b@);
    true
}

/// Whether the bytes `name` spell `s`.
fn name_is(name: &Vec<u8>, s: &str) -> (r: bool)
    ensures
        r == (name@ == s.spec_bytes()),
{
    bytes_eq(name.as_slice(), s.as_bytes())
}

impl<'class> Parser<'class> {
    /// Reads the body of a Value attribute.
    fn attr_value(&mut self) -> (r: Result<Value, ParsingError>)
        requires
            old(self).wf(),
        ensures
            final(self).wf(),
            (r is Ok) == (skip(old(self).input(), old(self).pos(), 2) is Ok),
            r matches Err(e) ==> err_is(e, (skip(old(self).input(), old(self).pos(), 2))->Err_0),
            r is Ok ==> final(self).pos() == (skip(old(self).input(), old(self).pos(), 2))->Ok_0,
            r matches Ok(x) ==> advanced(*old(self), *final(self)) && flat_body_ok(
                Attributes::Value(x),
                consumed(*old(self), *final(self)),
            ),
            r matches Err(e) ==> e == ParsingError::EndOfInput,
    {
        let ghost p0 = *self;
        let value_index = self.u2()?;
        proof {
            lemma_reads_consumed(p0, *self, enc_u2(value_index));
        }
        Ok(Value { value_index })
    }

    /// Reads the body of a SourceFile attribute.
    fn attr_source_file(&mut self) -> (r: Result<SourceFile, ParsingError>)
        requires
            old(self).wf(),
        ensures
            final(self).wf(),
            (r is Ok) == (skip(old(self).input(), old(self).pos(), 2) is Ok),
            r matches Err(e) ==> err_is(e, (skip(old(self).input(), old(self).pos(), 2))->Err_0),
            r is Ok ==> final(self).pos() == (skip(old(self).input(), old(self).pos(), 2))->Ok_0,
            r matches Ok(x) ==> advanced(*old(self), *final(self)) && flat_body_ok(
                Attributes::SourceFile(x),
                consumed(*old(self), *final(self)),
            ),
            r matches Err(e) ==> e == ParsingError::EndOfInput,
    {
        let ghost p0 = *self;
        let sourcefile_index = self.u2()?;
        proof {
            lemma_reads_consumed(p0, *self, enc_u2(sourcefile_index));
        }
        Ok(SourceFile { sourcefile_index })
    }

    /// Reads the body of a Signature attribute.
    fn attr_signature(&mut self) -> (r: Result<Signature, ParsingError>)
        requires
            old(self).wf(),
        ensures
            final(self).wf(),
            (r is Ok) == (skip(old(self).input(), old(self).pos(), 2) is Ok),
            r matches Err(e) ==> err_is(e, (skip(old(self).input(), old(self).pos(), 2))->Err_0),
            r is Ok ==> final(self).pos() == (skip(old(self).input(), old(self).pos(), 2))->Ok_0,
            r matches Ok(x) ==> advanced(*old(self), *final(self)) && flat_body_ok(
                Attributes::Signature(x),
                consumed(*old(self), *final(self)),
            ),
            r matches Err(e) ==> e == ParsingError::EndOfInput,
    {
        let ghost p0 = *self;
        let signature_index = self.u2()?;
        proof {
            lemma_reads_consumed(p0, *self, enc_u2(signature_index));
        }
        Ok(Signature { signature_index })
    }

    /// Reads the body of a ModuleMainClass attribute.
    fn attr_module_main_class(&mut self) -> (r: Result<ModuleMainClass, ParsingError>)
        requires
            old(self).wf(),
        ensures
            final(self).wf(),
            (r is Ok) == (skip(old(self).input(), old(self).pos(), 2) is Ok),
            r matches Err(e) ==> err_is(e, (skip(old(self).input(), old(self).pos(), 2))->Err_0),
            r is Ok ==> final(self).pos() == (skip(old(self).input(), old(self).pos(), 2))->Ok_0,
            r matches Ok(x) ==> advanced(*old(self), *final(self)) && flat_body_ok(
                Attributes::ModuleMainClass(x),
                consumed(*old(self), *final(self)),
            ),
            r matches Err(e) ==> e == ParsingError::EndOfInput,
    {
        let ghost p0 = *self;
        let main_class_index = self.u2()?;
        proof {
            lemma_reads_consumed(p0, *self, enc_u2(main_class_index));
        }
        Ok(ModuleMainClass { main_class_index })
    }

    /// Reads the body of a NestHost attribute.
    fn attr_nest_host(&mut self) -> (r: Result<NestHost, ParsingError>)
        requires
            old(self).wf(),
        ensures
            final(self).wf(),
            (r is Ok) == (skip(old(self).input(), old(self).pos(), 2) is Ok),
            r matches Err(e) ==> err_is(e, (skip(old(self).input(), old(self).pos(), 2))->Err_0),
            r is Ok ==> final(self).pos() == (skip(old(self).input(), old(self).pos(), 2))->Ok_0,
            r matches Ok(x) ==> advanced(*old(self), *final(self)) && flat_body_ok(
                Attributes::NestHost(x),
                consumed(*old(self), *final(self)),
            ),
            r matches Err(e) ==> e == ParsingError::EndOfInput,
    {
        let ghost p0 = *self;
        let host_class_index = self.u2()?;
        proof {
            lemma_reads_consumed(p0, *self, enc_u2(host_class_index));
        }
        Ok(NestHost { host_class_index })
    }

    /// Reads the body of a EnclosingMethod attribute.
    fn attr_enclosing_method(&mut self) -> (r: Result<EnclosingMethod, ParsingError>)
        requires
            old(self).wf(),
        ensures
            final(self).wf(),
            (r is Ok) == (skip(old(self).input(), old(self).pos(), 4) is Ok),
            r matches Err(e) ==> err_is(e, (skip(old(self).input(), old(self).pos(), 4))->Err_0),
            r is Ok ==> final(self).pos() == (skip(old(self).input(), old(self).pos(), 4))->Ok_0,
            r matches Ok(x) ==> advanced(*old(self), *final(self)) && flat_body_ok(
                Attributes::EnclosingMethod(x),
                consumed(*old(self), *final(self)),
            ),
            r matches Err(e) ==> e == ParsingError::EndOfInput,
    {
        let ghost p0 = *self;
        let (class_index, method_index) = self.u2_pair()?;
        proof {
            lemma_reads_consumed(p0, *self, enc_u2(class_index) + enc_u2(method_index));
        }
        Ok(EnclosingMethod { class_index, method_index })
    }

    /// Reads the body of a Exceptions attribute.
    fn attr_exceptions(&mut self) -> (r: Result<Exceptions, ParsingError>)
        requires
            old(self).wf(),
        ensures
            final(self).wf(),
            (r is Ok) == (counted_u2s_end(old(self).input(), old(self).pos()) is Ok),
            r matches Err(e) ==> err_is(e, (counted_u2s_end(old(self).input(), old(self).pos()))->Err_0),
            r is Ok ==> final(self).pos() == (counted_u2s_end(old(self).input(), old(self).pos()))->Ok_0,
            r matches Ok(x) ==> advanced(*old(self), *final(self)) && flat_body_ok(
                Attributes::Exceptions(x),
                consumed(*old(self), *final(self)),
            ),
            r matches Err(e) ==> e == ParsingError::EndOfInput,
    {
        let ghost p0 = *self;
        let count = self.u2()?;
        let ghost p1 = *self;
        let exception_index_table = self.u2_range(count.0 as u32)?;
        proof {
            lemma_reads_trans(p0, p1, *self, enc_u2(count), enc_u2s(exception_index_table@));
            lemma_reads_consumed(p0, *self, enc_u2(count) + enc_u2s(exception_index_table@));
        }
        Ok(Exceptions { exception_index_table })
    }

    /// Reads the body of a ModulePackages attribute.
    fn attr_module_packages(&mut self) -> (r: Result<ModulePackages, ParsingError>)
        requires
            old(self).wf(),
        ensures
            final(self).wf(),
            (r is Ok) == (counted_u2s_end(old(self).input(), old(self).pos()) is Ok),
            r matches Err(e) ==> err_is(e, (counted_u2s_end(old(self).input(), old(self).pos()))->Err_0),
            r is Ok ==> final(self).pos() == (counted_u2s_end(old(self).input(), old(self).pos()))->Ok_0,
            r matches Ok(x) ==> advanced(*old(self), *final(self)) && flat_body_ok(
                Attributes::ModulePackages(x),
                consumed(*old(self), *final(self)),
            ),
            r matches Err(e) ==> e == ParsingError::EndOfInput,
    {
        let ghost p0 = *self;
        let count = self.u2()?;
        let ghost p1 = *self;
        let package_index = self.u2_range(count.0 as u32)?;
        proof {
            lemma_reads_trans(p0, p1, *self, enc_u2(count), enc_u2s(package_index@));
            lemma_reads_consumed(p0, *self, enc_u2(count) + enc_u2s(package_index@));
        }
        Ok(ModulePackages { package_index })
    }

    /// Reads the body of a NestMembers attribute.
    fn attr_nest_members(&mut self) -> (r: Result<NestMembers, ParsingError>)
        requires
            old(self).wf(),
        ensures
            final(self).wf(),
            (r is Ok) == (counted_u2s_end(old(self).input(), old(self).pos()) is Ok),
            r matches Err(e) ==> err_is(e, (counted_u2s_end(old(self).input(), old(self).pos()))->Err_0),
            r is Ok ==> final(self).pos() == (counted_u2s_end(old(self).input(), old(self).pos()))->Ok_0,
            r matches Ok(x) ==> advanced(*old(self), *final(self)) && flat_body_ok(
                Attributes::NestMembers(x),
                consumed(*old(self), *final(self)),
            ),
            r matches Err(e) ==> e == ParsingError::EndOfInput,
    {
        let ghost p0 = *self;
        let count = self.u2()?;
        let ghost p1 = *self;
        let classes = self.u2_range(count.0 as u32)?;
        proof {
            lemma_reads_trans(p0, p1, *self, enc_u2(count), enc_u2s(classes@));
            lemma_reads_consumed(p0, *self, enc_u2(count) + enc_u2s(classes@));
        }
        Ok(NestMembers { classes })
    }

    /// Reads the body of a PermittedSubclasses attribute.
    fn attr_permitted_subclasses(&mut self) -> (r: Result<PermittedSubclasses, ParsingError>)
        requires
            old(self).wf(),
        ensures
            final(self).wf(),
            (r is Ok) == (counted_u2s_end(old(self).input(), old(self).pos()) is Ok),
            r matches Err(e) ==> err_is(e, (counted_u2s_end(old(self).input(), old(self).pos()))->Err_0),
            r is Ok ==> final(self).pos() == (counted_u2s_end(old(self).input(), old(self).pos()))->Ok_0,
            r matches Ok(x) ==> advanced(*old(self), *final(self)) && flat_body_ok(
                Attributes::PermittedSubclasses(x),
                consumed(*old(self), *final(self)),
            ),
            r matches Err(e) ==> e == ParsingError::EndOfInput,
    {
        let ghost p0 = *self;
        let count = self.u2()?;
        let ghost p1 = *self;
        let classes = self.u2_range(count.0 as u32)?;
        proof {
            lemma_reads_trans(p0, p1, *self, enc_u2(count), enc_u2s(classes@));
            lemma_reads_consumed(p0, *self, enc_u2(count) + enc_u2s(classes@));
        }
        Ok(PermittedSubclasses { classes })
    }

    /// Reads the body of a InnerClass attribute.
    fn attr_inner_class(&mut self) -> (r: Result<InnerClass, ParsingError>)
        requires
            old(self).wf(),
        ensures
            final(self).wf(),
            (r is Ok) == (counted_end(old(self).input(), old(self).pos(), item_classes_inner_class_attr()) is Ok),
            r matches Err(e) ==> err_is(e, (counted_end(old(self).input(), old(self).pos(), item_classes_inner_class_attr()))->Err_0),
            r is Ok ==> final(self).pos() == (counted_end(old(self).input(), old(self).pos(), item_classes_inner_class_attr()))->Ok_0,
            r matches Ok(x) ==> advanced(*old(self), *final(self)) && flat_body_ok(
                Attributes::InnerClass(x),
                consumed(*old(self), *final(self)),
            ),
            r matches Err(e) ==> e == ParsingError::EndOfInput,
    {
        let ghost p0 = *self;
        let count = self.u2()?;
        let ghost p1 = *self;
        let classes = self.table_classes_inner_class_attr(count.0)?;
        proof {
            lemma_reads_trans(p0, p1, *self, enc_u2(count), enc_classes_inner_class_attr_list(classes@));
            lemma_reads_consumed(p0, *self, enc_u2(count) + enc_classes_inner_class_attr_list(classes@));
        }
        Ok(InnerClass { classes })
    }

    /// Reads the body of a LineNumberTable attribute.
    fn attr_line_number_table(&mut self) -> (r: Result<LineNumberTable, ParsingError>)
        requires
            old(self).wf(),
        ensures
            final(self).wf(),
            (r is Ok) == (counted_end(old(self).input(), old(self).pos(), item_line_number_table_attr_inner()) is Ok),
            r matches Err(e) ==> err_is(e, (counted_end(old(self).input(), old(self).pos(), item_line_number_table_attr_inner()))->Err_0),
            r is Ok ==> final(self).pos() == (counted_end(old(self).input(), old(self).pos(), item_line_number_table_attr_inner()))->Ok_0,
            r matches Ok(x) ==> advanced(*old(self), *final(self)) && flat_body_ok(
                Attributes::LineNumberTable(x),
                consumed(*old(self), *final(self)),
            ),
            r matches Err(e) ==> e == ParsingError::EndOfInput,
    {
        let ghost p0 = *self;
        let count = self.u2()?;
        let ghost p1 = *self;
        let line_number_table = self.table_line_number_table_attr_inner(count.0)?;
        proof {
            lemma_reads_trans(p0, p1, *self, enc_u2(count), enc_line_number_table_attr_inner_list(line_number_table@));
            lemma_reads_consumed(p0, *self, enc_u2(count) + enc_line_number_table_attr_inner_list(line_number_table@));
        }
        Ok(LineNumberTable { line_number_table })
    }

    /// Reads the body of a LocalVariableTable attribute.
    fn attr_local_variable_table(&mut self) -> (r: Result<LocalVariableTable, ParsingError>)
        requires
            old(self).wf(),
        ensures
            final(self).wf(),
            (r is Ok) == (counted_end(old(self).input(), old(self).pos(), item_local_variable_table_attr_inner()) is Ok),
            r matches Err(e) ==> err_is(e, (counted_end(old(self).input(), old(self).pos(), item_local_variable_table_attr_inner()))->Err_0),
            r is Ok ==> final(self).pos() == (counted_end(old(self).input(), old(self).pos(), item_local_variable_table_attr_inner()))->Ok_0,
            r matches Ok(x) ==> advanced(*old(self), *final(self)) && flat_body_ok(
                Attributes::LocalVariableTable(x),
                consumed(*old(self), *final(self)),
            ),
            r matches Err(e) ==> e == ParsingError::EndOfInput,
    {
        let ghost p0 = *self;
        let count = self.u2()?;
        let ghost p1 = *self;
        let local_variable_table = self.table_local_variable_table_attr_inner(count.0)?;
        proof {
            lemma_reads_trans(p0, p1, *self, enc_u2(count), enc_local_variable_table_attr_inner_list(local_variable_table@));
            lemma_reads_consumed(p0, *self, enc_u2(count) + enc_local_variable_table_attr_inner_list(local_variable_table@));
        }
        Ok(LocalVariableTable { local_variable_table })
    }

    /// Reads the body of a LocalVariableTypeTable attribute.
    fn attr_local_variable_type_table(&mut self) -> (r: Result<LocalVariableTypeTable, ParsingError>)
        requires
            old(self).wf(),
        ensures
            final(self).wf(),
            (r is Ok) == (counted_end(old(self).input(), old(self).pos(), item_local_variable_type_table_attr_inner()) is Ok),
            r matches Err(e) ==> err_is(e, (counted_end(old(self).input(), old(self).pos(), item_local_variable_type_table_attr_inner()))->Err_0),
            r is Ok ==> final(self).pos() == (counted_end(old(self).input(), old(self).pos(), item_local_variable_type_table_attr_inner()))->Ok_0,
            r matches Ok(x) ==> advanced(*old(self), *final(self)) && flat_body_ok(
                Attributes::LocalVariableTypeTable(x),
                consumed(*old(self), *final(self)),
            ),
            r matches Err(e) ==> e == ParsingError::EndOfInput,
    {
        let ghost p0 = *self;
        let count = self.u2()?;
        let ghost p1 = *self;
        let local_variable_type_table = self.table_local_variable_type_table_attr_inner(count.0)?;
        proof {
            lemma_reads_trans(p0, p1, *self, enc_u2(count), enc_local_variable_type_table_attr_inner_list(local_variable_type_table@));
            lemma_reads_consumed(p0, *self, enc_u2(count) + enc_local_variable_type_table_attr_inner_list(local_variable_type_table@));
        }
        Ok(LocalVariableTypeTable { local_variable_type_table })
    }

    /// Reads the body of a BootstrapMethods attribute.
    fn attr_bootstrap_methods(&mut self) -> (r: Result<BootStrapMethods, ParsingError>)
        requires
            old(self).wf(),
        ensures
            final(self).wf(),
            (r is Ok) == (counted_end(old(self).input(), old(self).pos(), item_boot_strap_methods_inner()) is Ok),
            r matches Err(e) ==> err_is(e, (counted_end(old(self).input(), old(self).pos(), item_boot_strap_methods_inner()))->Err_0),
            r is Ok ==> final(self).pos() == (counted_end(old(self).input(), old(self).pos(), item_boot_strap_methods_inner()))->Ok_0,
            r matches Ok(x) ==> advanced(*old(self), *final(self)) && flat_body_ok(
                Attributes::BootstrapMethods(x),
                consumed(*old(self), *final(self)),
            ),
            r matches Err(e) ==> e == ParsingError::EndOfInput,
    {
        let ghost p0 = *self;
        let count = self.u2()?;
        let ghost p1 = *self;
        let bootstrap_methods = self.table_boot_strap_methods_inner(count.0)?;
        proof {
            lemma_reads_trans(p0, p1, *self, enc_u2(count), enc_boot_strap_methods_inner_list(bootstrap_methods@));
            lemma_reads_consumed(p0, *self, enc_u2(count) + enc_boot_strap_methods_inner_list(bootstrap_methods@));
        }
        Ok(BootStrapMethods { bootstrap_methods })
    }

    /// Reads the body of a MethodParameters attribute.
    fn attr_method_parameters(&mut self) -> (r: Result<MethodParameters, ParsingError>)
        requires
            old(self).wf(),
        ensures
            final(self).wf(),
            (r is Ok) == (u1_counted_end(old(self).input(), old(self).pos(), item_method_parameters_inner()) is Ok),
            r matches Err(e) ==> err_is(e, (u1_counted_end(old(self).input(), old(self).pos(), item_method_parameters_inner()))->Err_0),
            r is Ok ==> final(self).pos() == (u1_counted_end(old(self).input(), old(self).pos(), item_method_parameters_inner()))->Ok_0,
            r matches Ok(x) ==> advanced(*old(self), *final(self)) && flat_body_ok(
                Attributes::MethodParameters(x),
                consumed(*old(self), *final(self)),
            ),
            r matches Err(e) ==> e == ParsingError::EndOfInput,
    {
        let ghost p0 = *self;
        let count = self.u1()?;
        let ghost p1 = *self;
        let parameters = self.table_method_parameters_inner(count as u16)?;
        proof {
            lemma_reads_trans(p0, p1, *self, seq![count], enc_method_parameters_inner_list(parameters@));
            lemma_reads_consumed(p0, *self, seq![count] + enc_method_parameters_inner_list(parameters@));
        }
        Ok(MethodParameters { parameters })
    }


    /// Reads the body of a SourceDebugExtension attribute: all of its bytes.
    fn attr_source_debug_ext(&mut self, attribute_length: u32) -> (r: Result<
        SourceDebugExt,
        ParsingError,
    >)
        requires
            old(self).wf(),
        ensures
            final(self).wf(),
            (r is Ok) == (skip(old(self).input(), old(self).pos(), attribute_length as int) is Ok),
            r matches Err(e) ==> err_is(e, (skip(old(self).input(), old(self).pos(), attribute_length as int))->Err_0),
            r is Ok ==> final(self).pos() == (skip(old(self).input(), old(self).pos(), attribute_length as int))->Ok_0,
            r matches Ok(x) ==> advanced(*old(self), *final(self)) && flat_body_ok(
                Attributes::SourceDebugExt(x),
                consumed(*old(self), *final(self)),
            ),
            r matches Err(e) ==> e == ParsingError::EndOfInput,
    {
        let ghost p0 = *self;
        let debug_extension = self.u1_range(attribute_length)?;
        proof {
            lemma_reads_consumed(p0, *self, debug_extension@);
        }
        Ok(SourceDebugExt { debug_extension })
    }

    /// Reads the body of a StackMapTable attribute.
    fn attr_stack_map_table(&mut self) -> (r: Result<StackMapTable, ParsingError>)
        requires
            old(self).wf(),
        ensures
            final(self).wf(),
            (r is Ok) == (counted_end(old(self).input(), old(self).pos(), frame_item()) is Ok),
            r matches Err(e) ==> err_is(e, (counted_end(old(self).input(), old(self).pos(), frame_item()))->Err_0),
            r is Ok ==> final(self).pos() == (counted_end(old(self).input(), old(self).pos(), frame_item()))->Ok_0,
            r matches Ok(x) ==> advanced(*old(self), *final(self)) && flat_body_ok(
                Attributes::StackMapTable(x),
                consumed(*old(self), *final(self)),
            ),
            r matches Err(e) ==> attribute_error(e),
    {
        let ghost p0 = *self;
        let number_of_entries = self.u2()?;
        let ghost p1 = *self;
        let n = number_of_entries.0;
        let mut entries: Vec<StackMapFrame> = Vec::with_capacity(n as usize);
        proof {
            lemma_reads_nothing(p1);
            assert(enc_frames(entries@) =~= Seq::<u8>::empty());
        }
        let mut i: u16 = 0;
        while i < n
            invariant
                self.wf(),
                i <= n,
                entries@.len() == i,
                reads(p1, *self, enc_frames(entries@)),
                frames_wf(entries@),
                *old(self) == p0,
                p1.input() == p0.input(),
                p1.pos() == p0.pos() + 2,
                n == u16_at(p0.input(), p0.pos()),
                list_end(p1.input(), p1.pos(), n as int, frame_item()) == list_end(
                    self.input(),
                    self.pos(),
                    n - i,
                    frame_item(),
                ),
            decreases n - i,
        {
            let ghost mid = *self;
            let ghost old_entries = entries@;
            let f = self.stackmapframe()?;
            assert(frame_item()(mid.input(), mid.pos()) == Ok::<int, Fail>(self.pos()));
            entries.push(f);
            proof {
                assert(entries@.drop_last() =~= old_entries);
                lemma_reads_trans(p1, mid, *self, enc_frames(old_entries), enc_frame(f));
                assert forall|k: int| 0 <= k < entries@.len() implies frame_wf(
                    #[trigger] entries@[k],
                ) by {
                    if k < old_entries.len() {
                        assert(entries@[k] == old_entries[k]);
                    }
                }
            }
            i = i + 1;
        }
        proof {
            lemma_reads_trans(p0, p1, *self, enc_u2(number_of_entries), enc_frames(entries@));
            lemma_reads_consumed(p0, *self, enc_u2(number_of_entries) + enc_frames(entries@));
        }
        Ok(StackMapTable { entries })
    }

    /// Reads the body of a Module attribute.
    fn attr_module(&mut self) -> (r: Result<Module, ParsingError>)
        requires
            old(self).wf(),
        ensures
            final(self).wf(),
            (r is Ok) == (module_end(old(self).input(), old(self).pos()) is Ok),
            r matches Err(e) ==> err_is(e, (module_end(old(self).input(), old(self).pos()))->Err_0),
            r is Ok ==> final(self).pos() == (module_end(old(self).input(), old(self).pos()))->Ok_0,
            r matches Ok(x) ==> advanced(*old(self), *final(self)) && flat_body_ok(
                Attributes::Module(x),
                consumed(*old(self), *final(self)),
            ),
            r matches Err(e) ==> e == ParsingError::EndOfInput,
    {
        let ghost p0 = *self;
        let module_name_index = self.u2()?;
        let ghost mut prev = *self;
        let ghost mut acc = enc_u2(module_name_index);
        let module_flags = self.u2()?;
        proof {
            lemma_reads_trans(p0, prev, *self, acc, enc_u2(module_flags));
            acc = acc + enc_u2(module_flags);
            prev = *self;
        }
        let module_version_index = self.u2()?;
        proof {
            lemma_reads_trans(p0, prev, *self, acc, enc_u2(module_version_index));
            acc = acc + enc_u2(module_version_index);
            prev = *self;
        }
        let requires_count = self.u2()?;
        proof {
            lemma_reads_trans(p0, prev, *self, acc, enc_u2(requires_count));
            acc = acc + enc_u2(requires_count);
            prev = *self;
        }
        let required = self.table_module_requires(requires_count.0)?;
        proof {
            lemma_reads_trans(p0, prev, *self, acc, enc_module_requires_list(required@));
            acc = acc + enc_module_requires_list(required@);
            prev = *self;
        }
        let exports_count = self.u2()?;
        proof {
            lemma_reads_trans(p0, prev, *self, acc, enc_u2(exports_count));
            acc = acc + enc_u2(exports_count);
            prev = *self;
        }
        let exports = self.table_module_exports(exports_count.0)?;
        proof {
            lemma_reads_trans(p0, prev, *self, acc, enc_module_exports_list(exports@));
            acc = acc + enc_module_exports_list(exports@);
            prev = *self;
        }
        let opens_count = self.u2()?;
        proof {
            lemma_reads_trans(p0, prev, *self, acc, enc_u2(opens_count));
            acc = acc + enc_u2(opens_count);
            prev = *self;
        }
        let opens = self.table_module_opens(opens_count.0)?;
        proof {
            lemma_reads_trans(p0, prev, *self, acc, enc_module_opens_list(opens@));
            acc = acc + enc_module_opens_list(opens@);
            prev = *self;
        }
        let uses_count = self.u2()?;
        proof {
            lemma_reads_trans(p0, prev, *self, acc, enc_u2(uses_count));
            acc = acc + enc_u2(uses_count);
            prev = *self;
        }
        let uses_index = self.u2_range(uses_count.0 as u32)?;
        proof {
            lemma_reads_trans(p0, prev, *self, acc, enc_u2s(uses_index@));
            acc = acc + enc_u2s(uses_index@);
            prev = *self;
        }
        let provides_count = self.u2()?;
        proof {
            lemma_reads_trans(p0, prev, *self, acc, enc_u2(provides_count));
            acc = acc + enc_u2(provides_count);
            prev = *self;
        }
        let provides = self.table_module_provides(provides_count.0)?;
        proof {
            lemma_reads_trans(p0, prev, *self, acc, enc_module_provides_list(provides@));
            acc = acc + enc_module_provides_list(provides@);
        }
        let x = Module {
            module_name_index,
            module_flags,
            module_version_index,
            requires: required,
            exports,
            opens,
            uses_index,
            provides,
        };
        proof {
            assert(acc == enc_module(x));
            lemma_reads_consumed(p0, *self, acc);
        }
        Ok(x)
    }

    /// Reads the count and annotations of an annotations attribute.
    fn attr_annotations(&mut self) -> (r: Result<Vec<Annotation>, ParsingError>)
        requires
            old(self).wf(),
        ensures
            final(self).wf(),
            (r is Ok) == (counted_end(old(self).input(), old(self).pos(), ann_item(MAX_ELEMENT_VALUE_DEPTH as int)) is Ok),
            r matches Err(e) ==> err_is(e, (counted_end(old(self).input(), old(self).pos(), ann_item(MAX_ELEMENT_VALUE_DEPTH as int)))->Err_0),
            r is Ok ==> final(self).pos() == (counted_end(old(self).input(), old(self).pos(), ann_item(MAX_ELEMENT_VALUE_DEPTH as int)))->Ok_0,
            r matches Ok(v) ==> advanced(*old(self), *final(self)) && annotations_attr_ok(
                v@,
                consumed(*old(self), *final(self)),
            ),
            r matches Err(e) ==> annotation_error(e),
    {
        let ghost p0 = *self;
        let count = self.u2()?;
        let ghost p1 = *self;
        let v = self.annotation_range(count.0, MAX_ELEMENT_VALUE_DEPTH)?;
        proof {
            lemma_reads_consumed(p0, p1, enc_u2(count));
            lemma_consumed_cat(p0, p1, *self);
        }
        Ok(v)
    }

    /// Reads the count and type annotations of a type-annotations attribute.
    fn attr_type_annotations(&mut self) -> (r: Result<Vec<TypeAnnotation>, ParsingError>)
        requires
            old(self).wf(),
        ensures
            final(self).wf(),
            (r is Ok) == (counted_end(old(self).input(), old(self).pos(), ta_item(MAX_ELEMENT_VALUE_DEPTH as int)) is Ok),
            r matches Err(e) ==> err_is(e, (counted_end(old(self).input(), old(self).pos(), ta_item(MAX_ELEMENT_VALUE_DEPTH as int)))->Err_0),
            r is Ok ==> final(self).pos() == (counted_end(old(self).input(), old(self).pos(), ta_item(MAX_ELEMENT_VALUE_DEPTH as int)))->Ok_0,
            r matches Ok(v) ==> advanced(*old(self), *final(self)) && type_annotations_attr_ok(
                v@,
                consumed(*old(self), *final(self)),
            ),
            r matches Err(e) ==> attribute_error(e),
    {
        let ghost p0 = *self;
        let count = self.u2()?;
        let ghost p1 = *self;
        let v = self.type_annotation_range(count.0, MAX_ELEMENT_VALUE_DEPTH)?;
        proof {
            lemma_reads_consumed(p0, p1, enc_u2(count));
            lemma_consumed_cat(p0, p1, *self);
        }
        Ok(v)
    }

    /// Reads the parameter count and annotations of a parameter-annotations attribute.
    fn attr_parameter_annotations(&mut self) -> (r: Result<
        Vec<ParameterAnnotationsRuntimeParameterAnnotationsAttr>,
        ParsingError,
    >)
        requires
            old(self).wf(),
        ensures
            final(self).wf(),
            (r is Ok) == (u1_counted_end(old(self).input(), old(self).pos(), param_item()) is Ok),
            r matches Err(e) ==> err_is(e, (u1_counted_end(old(self).input(), old(self).pos(), param_item()))->Err_0),
            r is Ok ==> final(self).pos() == (u1_counted_end(old(self).input(), old(self).pos(), param_item()))->Ok_0,
            r matches Ok(v) ==> advanced(*old(self), *final(self)) && param_annotations_ok(
                v@,
                consumed(*old(self), *final(self)),
            ),
            r matches Err(e) ==> annotation_error(e),
    {
        let ghost p0 = *self;
        let length = self.u1()?;
        let ghost p1 = *self;
        proof {
            lemma_reads_consumed(p0, p1, seq![length]);
        }
        let mut parameter_annotations: Vec<ParameterAnnotationsRuntimeParameterAnnotationsAttr> =
            Vec::with_capacity(length as usize);
        proof {
            lemma_reads_nothing(p1);
            lemma_reads_consumed(p1, p1, Seq::empty());
        }
        let mut i: u8 = 0;
        while i < length
            invariant
                self.wf(),
                p1.wf(),
                i <= length,
                parameter_annotations@.len() == i,
                advanced(p1, *self),
                params_ok(parameter_annotations@, consumed(p1, *self)),
                *old(self) == p0,
                p1.input() == p0.input(),
                p1.pos() == p0.pos() + 1,
                length == p0.input()[p0.pos()],
                list_end(p1.input(), p1.pos(), length as int, param_item()) == list_end(
                    self.input(),
                    self.pos(),
                    length - i,
                    param_item(),
                ),
            decreases length - i,
        {
            let ghost mid = *self;
            let ghost old_params = parameter_annotations@;
            let annotations = self.attr_annotations()?;
            assert(param_item()(mid.input(), mid.pos()) == Ok::<int, Fail>(self.pos()));
            let p = ParameterAnnotationsRuntimeParameterAnnotationsAttr { annotations };
            parameter_annotations.push(p);
            proof {
                lemma_consumed_cat(p1, mid, *self);
                assert(parameter_annotations@.drop_last() =~= old_params);
                let k = mid.pos() - p1.pos();
                assert(params_ok(
                    parameter_annotations@.drop_last(),
                    consumed(p1, *self).subrange(0, k),
                ));
                assert(param_ok(p, consumed(mid, *self)));
            }
            i = i + 1;
        }
        proof {
            lemma_consumed_cat(p0, p1, *self);
            assert(consumed(p0, *self)[0] == consumed(p0, p1)[0]);
        }
        Ok(parameter_annotations)
    }

    /// Reads the body of every attribute kind that holds no nested attributes;
    /// fails with `InvalidAttribute` on a name that no kind has.
    fn flat_attribute(&mut self, name: &Vec<u8>, attribute_length: u32) -> (r: Result<
        Attributes,
        ParsingError,
    >)
        requires
            old(self).wf(),
        ensures
            final(self).wf(),
            (r is Ok) == (flat_end(name@, old(self).input(), old(self).pos(), attribute_length as int)
                is Ok),
            r matches Err(e) ==> err_is(e, (flat_end(name@, old(self).input(), old(self).pos(), attribute_length as int)
               )->Err_0),
            r is Ok ==> final(self).pos() == flat_end(
                name@,
                old(self).input(),
                old(self).pos(),
                attribute_length as int,
            )->Ok_0,
            r matches Ok(a) ==> {
                &&& advanced(*old(self), *final(self))
                &&& flat_body_ok(a, consumed(*old(self), *final(self)))
                &&& attr_name(a) == name@
            },
            r matches Err(e) ==> attribute_error(e),
    {
        proof {
            reveal(flat_end);
        }
        if name_is(name, "ConstantValue") {
            Ok(Attributes::Value(self.attr_value()?))
        } else if name_is(name, "SourceFile") {
            Ok(Attributes::SourceFile(self.attr_source_file()?))
        } else if name_is(name, "Module") {
            Ok(Attributes::Module(self.attr_module()?))
        } else if name_is(name, "LineNumberTable") {
            Ok(Attributes::LineNumberTable(self.attr_line_number_table()?))
        } else if name_is(name, "StackMapTable") {
            Ok(Attributes::StackMapTable(self.attr_stack_map_table()?))
        } else if name_is(name, "Exceptions") {
            Ok(Attributes::Exceptions(self.attr_exceptions()?))
        } else if name_is(name, "InnerClasses") {
            Ok(Attributes::InnerClass(self.attr_inner_class()?))
        } else if name_is(name, "EnclosingMethod") {
            Ok(Attributes::EnclosingMethod(self.attr_enclosing_method()?))
        } else if name_is(name, "Synthetic") {
            let ghost p0 = *self;
            proof {
                lemma_reads_nothing(p0);
                lemma_reads_consumed(p0, p0, Seq::empty());
            }
            Ok(Attributes::Synthetic(Synthetic))
        } else if name_is(name, "Signature") {
            Ok(Attributes::Signature(self.attr_signature()?))
        } else if name_is(name, "SourceDebugExtension") {
            Ok(Attributes::SourceDebugExt(self.attr_source_debug_ext(attribute_length)?))
        } else if name_is(name, "LocalVariableTable") {
            Ok(Attributes::LocalVariableTable(self.attr_local_variable_table()?))
        } else if name_is(name, "LocalVariableTypeTable") {
            Ok(Attributes::LocalVariableTypeTable(self.attr_local_variable_type_table()?))
        } else if name_is(name, "Deprecated") {
            let ghost p0 = *self;
            proof {
                lemma_reads_nothing(p0);
                lemma_reads_consumed(p0, p0, Seq::empty());
            }
            Ok(Attributes::Deprecated(Deprecated))
        } else if name_is(name, "RuntimeVisibleAnnotations") {
            let annotations = self.attr_annotations()?;
            Ok(Attributes::RuntimeVisibleAnnotations(RuntimeVisibleAnnotations { annotations }))
        } else if name_is(name, "RuntimeInvisibleAnnotations") {
            let annotations = self.attr_annotations()?;
            Ok(Attributes::RuntimeInvisibleAnnotations(RuntimeInvisibleAnnotations { annotations }))
        } else if name_is(name, "RuntimeVisibleParameterAnnotations") {
            let parameter_annotations = self.attr_parameter_annotations()?;
            Ok(
                Attributes::RuntimeVisibleParameterAnnotations(
                    RuntimeVisibleParameterAnnotations { parameter_annotations },
                ),
            )
        } else if name_is(name, "RuntimeInvisibleParameterAnnotations") {
            let parameter_annotations = self.attr_parameter_annotations()?;
            Ok(
                Attributes::RuntimeInvisibleParameterAnnotations(
                    RuntimeInvisibleParameterAnnotations { parameter_annotations },
                ),
            )
        } else if name_is(name, "RuntimeVisibleTypeAnnotations") {
            let type_annotation = self.attr_type_annotations()?;
            Ok(
                Attributes::RuntimeVisibleTypeAnnotations(
                    RuntimeVisibleTypeAnnotations { type_annotation },
                ),
            )
        } else if name_is(name, "RuntimeInvisibleTypeAnnotations") {
            let annotations = self.attr_type_annotations()?;
            Ok(
                Attributes::RuntimeInvisibleTypeAnnotations(
                    RuntimeInvisibleTypeAnnotations { annotations },
                ),
            )
        } else if name_is(name, "AnnotationDefault") {
            let default_value = self.element_value(MAX_ELEMENT_VALUE_DEPTH)?;
            Ok(Attributes::AnnotationDefault(AnnotationDefault { default_value }))
        } else if name_is(name, "BootstrapMethods") {
            Ok(Attributes::BootstrapMethods(self.attr_bootstrap_methods()?))
        } else if name_is(name, "MethodParameters") {
            Ok(Attributes::MethodParameters(self.attr_method_parameters()?))
        } else if name_is(name, "ModulePackages") {
            Ok(Attributes::ModulePackages(self.attr_module_packages()?))
        } else if name_is(name, "ModuleMainClass") {
            Ok(Attributes::ModuleMainClass(self.attr_module_main_class()?))
        } else if name_is(name, "NestHost") {
            Ok(Attributes::NestHost(self.attr_nest_host()?))
        } else if name_is(name, "NestMembers") {
            Ok(Attributes::NestMembers(self.attr_nest_members()?))
        } else if name_is(name, "PermittedSubclasses") {
            Ok(Attributes::PermittedSubclasses(self.attr_permitted_subclasses()?))
        } else {
            Err(ParsingError::InvalidAttribute(name.clone()))
        }
    }

    /// Reads the body of a Code attribute; its own attribute list nests at most
    /// `depth - 1` deep.
    #[verifier::rlimit(100)]
    fn attr_code(&mut self, cp: &Vec<CpNode>, depth: u32) -> (r: Result<AttrCode, ParsingError>)
        requires
            old(self).wf(),
            depth > 0,
        ensures
            final(self).wf(),
            (r is Ok) == (code_end(cp_names(cp@), old(self).input(), old(self).pos(), depth as int) is Ok),
            r matches Err(e) ==> err_is(e, (code_end(cp_names(cp@), old(self).input(), old(self).pos(), depth as int))->Err_0),
            r is Ok ==> final(self).pos() == code_end(cp_names(cp@),
                old(self).input(),
                old(self).pos(),
                depth as int,
            )->Ok_0,
            r matches Ok(x) ==> advanced(*old(self), *final(self)) && body_ok(
                cp@,
                Attributes::Code(x),
                consumed(*old(self), *final(self)),
                depth as nat,
            ),
            r matches Err(e) ==> attribute_error(e),
        decreases depth, 0int,
    {
        let ghost p0 = *self;
        let (max_stack, max_locals) = self.u2_pair()?;
        let ghost mut prev = *self;
        let ghost mut acc = enc_u2(max_stack) + enc_u2(max_locals);
        let code_length = self.u4()?;
        proof {
            lemma_reads_trans(p0, prev, *self, acc, be32(code_length));
            acc = acc + be32(code_length);
            prev = *self;
        }
        let code = self.u1_range(code_length)?;
        proof {
            lemma_reads_trans(p0, prev, *self, acc, code@);
            acc = acc + code@;
            prev = *self;
        }
        let exception_table_length = self.u2()?;
        proof {
            lemma_reads_trans(p0, prev, *self, acc, enc_u2(exception_table_length));
            acc = acc + enc_u2(exception_table_length);
            prev = *self;
        }
        let exception_table = self.table_exception_table_attr_code(exception_table_length.0)?;
        proof {
            lemma_reads_trans(
                p0,
                prev,
                *self,
                acc,
                enc_exception_table_attr_code_list(exception_table@),
            );
            acc = acc + enc_exception_table_attr_code_list(exception_table@);
            prev = *self;
        }
        let attributes_count = self.u2()?;
        proof {
            lemma_reads_trans(p0, prev, *self, acc, enc_u2(attributes_count));
            acc = acc + enc_u2(attributes_count);
        }
        let ghost p1 = *self;
        proof {
            lemma_reads_consumed(p0, p1, acc);
        }
        let attributes = self.attributes(attributes_count.0, cp, depth - 1)?;
        let x = AttrCode { max_stack, max_locals, code, exception_table, attributes };
        proof {
            assert(acc == code_prefix(x));
            lemma_consumed_cat(p0, p1, *self);
        }
        Ok(x)
    }

    /// Reads one record component: its name, descriptor and attributes.
    fn record_component(&mut self, cp: &Vec<CpNode>, depth: u32) -> (r: Result<
        RecordComponentInfo,
        ParsingError,
    >)
        requires
            old(self).wf(),
            depth > 0,
        ensures
            final(self).wf(),
            (r is Ok) == (comp_end(cp_names(cp@), old(self).input(), old(self).pos(), depth as int) is Ok),
            r matches Err(e) ==> err_is(e, (comp_end(cp_names(cp@), old(self).input(), old(self).pos(), depth as int))->Err_0),
            r is Ok ==> final(self).pos() == comp_end(cp_names(cp@), old(self).input(), old(self).pos(), depth as int)->Ok_0,
            r matches Ok(c) ==> advanced(*old(self), *final(self)) && comp_ok(
                cp@,
                c,
                consumed(*old(self), *final(self)),
                depth as nat,
            ),
            r matches Err(e) ==> attribute_error(e),
        decreases depth, 0int,
    {
        let ghost mid = *self;
        let (name_index, descriptor_index) = self.u2_pair()?;
        let ghost q1 = *self;
        let attributes_count = self.u2()?;
        let ghost q2 = *self;
        proof {
            lemma_reads_trans(
                mid,
                q1,
                q2,
                enc_u2(name_index) + enc_u2(descriptor_index),
                enc_u2(attributes_count),
            );
            lemma_reads_consumed(
                mid,
                q2,
                enc_u2(name_index) + enc_u2(descriptor_index) + enc_u2(attributes_count),
            );
        }
        let attributes = self.attributes(attributes_count.0, cp, depth - 1)?;
        let c = RecordComponentInfo { name_index, descriptor_index, attributes };
        proof {
            lemma_consumed_cat(mid, q2, *self);
            assert(comp_ok(cp@, c, consumed(mid, *self), depth as nat));
        }
        Ok(c)
    }

    /// Reads the body of a Record attribute; each component's attribute list
    /// nests at most `depth - 1` deep.
    #[verifier::rlimit(100)]
    fn attr_record(&mut self, cp: &Vec<CpNode>, depth: u32) -> (r: Result<Record, ParsingError>)
        requires
            old(self).wf(),
            depth > 0,
        ensures
            final(self).wf(),
            (r is Ok) == (record_end(cp_names(cp@), old(self).input(), old(self).pos(), depth as int) is Ok),
            r matches Err(e) ==> err_is(e, (record_end(cp_names(cp@), old(self).input(), old(self).pos(), depth as int))->Err_0),
            r is Ok ==> final(self).pos() == record_end(cp_names(cp@), old(self).input(), old(self).pos(), depth as int)->Ok_0,
            r matches Ok(x) ==> advanced(*old(self), *final(self)) && body_ok(
                cp@,
                Attributes::Record(x),
                consumed(*old(self), *final(self)),
                depth as nat,
            ),
            r matches Err(e) ==> attribute_error(e),
        decreases depth, 1int,
    {
        let ghost p0 = *self;
        let count = self.u2()?;
        let ghost p1 = *self;
        proof {
            lemma_reads_consumed(p0, p1, enc_u2(count));
        }
        let n = count.0;
        let mut components: Vec<RecordComponentInfo> = Vec::with_capacity(n as usize);
        proof {
            lemma_reads_nothing(p1);
            lemma_reads_consumed(p1, p1, Seq::empty());
        }
        let mut i: u16 = 0;
        while i < n
            invariant
                self.wf(),
                p1.wf(),
                depth > 0,
                i <= n,
                components@.len() == i,
                advanced(p1, *self),
                comps_ok(cp@, components@, consumed(p1, *self), depth as nat),
                *old(self) == p0,
                p1.input() == p0.input(),
                p1.pos() == p0.pos() + 2,
                n == u16_at(p0.input(), p0.pos()),
                comps_end(cp_names(cp@), p1.input(), p1.pos(), n as int, depth as int) == comps_end(cp_names(cp@),
                    self.input(),
                    self.pos(),
                    n - i,
                    depth as int,
                ),
            decreases n - i,
        {
            let ghost mid = *self;
            let ghost old_components = components@;
            let c = match self.record_component(cp, depth) {
                Ok(c) => c,
                Err(e) => {
                    proof {
                        assert(comps_end(cp_names(cp@), mid.input(), mid.pos(), n - i, depth as int)
                            == comp_end(cp_names(cp@), mid.input(), mid.pos(), depth as int));
                    }
                    return Err(e);
                },
            };
            components.push(c);
            proof {
                lemma_consumed_cat(p1, mid, *self);
                assert(components@.drop_last() =~= old_components);
                let k = mid.pos() - p1.pos();
                assert(comps_ok(
                    cp@,
                    components@.drop_last(),
                    consumed(p1, *self).subrange(0, k),
                    depth as nat,
                ));
            }
            i = i + 1;
        }
        proof {
            lemma_consumed_cat(p0, p1, *self);
        }
        Ok(Record { components })
    }

    /// Reads one attribute: its name index, its length and the body that its
    /// name selects. The body must take exactly the declared length.
    #[verifier::rlimit(100)]
    fn attribute(&mut self, cp: &Vec<CpNode>, depth: u32) -> (r: Result<Attributes, ParsingError>)
        requires
            old(self).wf(),
            depth > 0,
        ensures
            final(self).wf(),
            !short(*old(self), 6) && cp_utf8(cp@, u16_at(old(self).input(), old(self).pos())) is None ==> r == Err::<Attributes, ParsingError>(
                ParsingError::AttributeNotUtf8,
            ),
            (!short(*old(self), 6) && cp_utf8(cp@, u16_at(old(self).input(), old(self).pos())) is Some && !is_attr_name(
                cp_utf8(cp@, u16_at(old(self).input(), old(self).pos()))->0,
            )) ==> (r matches Err(e) && e matches ParsingError::InvalidAttribute(v) && v@ == cp_utf8(
                cp@,
                u16_at(old(self).input(), old(self).pos()),
            )->0),
            (r is Ok) == (attr_end(cp_names(cp@), old(self).input(), old(self).pos(), depth as int) is Ok),
            r matches Err(e) ==> err_is(e, (attr_end(cp_names(cp@), old(self).input(), old(self).pos(), depth as int))->Err_0),
            r is Ok ==> final(self).pos() == attr_end(cp_names(cp@),
                old(self).input(),
                old(self).pos(),
                depth as int,
            )->Ok_0,
            r matches Ok(a) ==> advanced(*old(self), *final(self)) && attr_ok(
                cp@,
                a,
                consumed(*old(self), *final(self)),
                depth as nat,
            ),
            r matches Err(e) ==> attribute_error(e),
        decreases depth, 2int,
    {
        let ghost p0 = *self;
        let attribute_name_index = self.u2()?;
        let ghost p1 = *self;
        let attribute_length = self.u4()?;
        let ghost p2 = *self;
        let idx = attribute_name_index.0 as usize;
        if idx == 0 || idx > cp.len() {
            return Err(ParsingError::AttributeNotUtf8);
        }
        let name = match &cp[idx - 1] {
            CpNode::Utf8(u) => &u.bytes,
            _ => {
                return Err(ParsingError::AttributeNotUtf8);
            },
        };
        let body_start = self.offset();
        proof {
            if !is_attr_name(name@) {
                lemma_unknown_attribute_name(
                    cp_names(cp@),
                    name@,
                    self.input(),
                    self.pos(),
                    attribute_length as int,
                    depth as int,
                );
            }
        }
        let a = if name_is(name, "Code") {
            Attributes::Code(self.attr_code(cp, depth)?)
        } else if name_is(name, "Record") {
            Attributes::Record(self.attr_record(cp, depth)?)
        } else {
            self.flat_attribute(name, attribute_length)?
        };
        if self.offset() - body_start != attribute_length as usize {
            return Err(ParsingError::AttributeLengthMismatch);
        }
        proof {
            let ni = attribute_name_index.0;
            lemma_reads_trans(p0, p1, p2, enc_u2(attribute_name_index), be32(attribute_length));
            lemma_reads_consumed(p0, p2, enc_u2(attribute_name_index) + be32(attribute_length));
            lemma_consumed_cat(p0, p2, *self);
            let b = consumed(p0, *self);
            assert(b.subrange(0, 2) =~= enc_u2(attribute_name_index));
            assert(be16(ni) == b.subrange(0, 2));
            assert(cp_utf8(cp@, ni as int) == Some(attr_name(a)));
            assert(b.subrange(2, 6) =~= be32(attribute_length));
            assert(b.subrange(6, b.len() as int) == consumed(p2, *self));
        }
        Ok(a)
    }

    /// Reads `length` attributes, nested at most `depth` deep, resolving their
    /// names in `cp`.
    pub fn attributes(&mut self, length: u16, cp: &Vec<CpNode>, depth: u32) -> (r: Result<
        Vec<Attributes>,
        ParsingError,
    >)
        requires
            old(self).wf(),
        ensures
            final(self).wf(),
            (r is Ok) == (attrs_end(cp_names(cp@), old(self).input(), old(self).pos(), length as int, depth as int)
                is Ok),
            r matches Err(e) ==> err_is(e, (attrs_end(cp_names(cp@), old(self).input(), old(self).pos(), length as int, depth as int)
               )->Err_0),
            r is Ok ==> final(self).pos() == attrs_end(cp_names(cp@),
                old(self).input(),
                old(self).pos(),
                length as int,
                depth as int,
            )->Ok_0,
            r matches Ok(v) ==> v@.len() == length && advanced(*old(self), *final(self)) && attrs_ok(
                cp@,
                v@,
                consumed(*old(self), *final(self)),
                depth as nat,
            ),
            r matches Err(e) ==> attribute_error(e),
        decreases depth, 3int,
    {
        if depth == 0 {
            return Err(ParsingError::NestingTooDeep);
        }
        let ghost p0 = *self;
        let mut attributes: Vec<Attributes> = Vec::with_capacity(length as usize);
        proof {
            lemma_reads_nothing(p0);
            lemma_reads_consumed(p0, p0, Seq::empty());
        }
        let mut i: u16 = 0;
        while i < length
            invariant
                self.wf(),
                p0.wf(),
                depth > 0,
                i <= length,
                attributes@.len() == i,
                advanced(p0, *self),
                attrs_ok(cp@, attributes@, consumed(p0, *self), depth as nat),
                *old(self) == p0,
                attrs_end(cp_names(cp@), p0.input(), p0.pos(), length as int, depth as int) == attrs_end(cp_names(cp@),
                    self.input(),
                    self.pos(),
                    length - i,
                    depth as int,
                ),
            decreases length - i,
        {
            let ghost mid = *self;
            let ghost old_attributes = attributes@;
            let a = match self.attribute(cp, depth) {
                Ok(a) => a,
                Err(e) => {
                    proof {
                        assert(attrs_end(cp_names(cp@), mid.input(), mid.pos(), length - i, depth as int) is Err);
                    }
                    return Err(e);
                },
            };
            attributes.push(a);
            proof {
                lemma_consumed_cat(p0, mid, *self);
                assert(attributes@.drop_last() =~= old_attributes);
                let k = mid.pos() - p0.pos();
                assert(attrs_ok(
                    cp@,
                    attributes@.drop_last(),
                    consumed(p0, *self).subrange(0, k),
                    depth as nat,
                ));
            }
            i = i + 1;
        }
        Ok(attributes)
    }
}

} // verus!
