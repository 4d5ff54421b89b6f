use vstd::prelude::*;
use vstd::string::StringSliceAdditionalSpecFns;
use crate::class_parser::constant_pool::{cp_utf8, is_wide, pool_shape};
use crate::class_parser::attributes::bytes_eq;
use crate::class_parser::{
    AttrCode, Attributes, ClassFile, CpNode, ExceptionTableAttrCode, FieldInfo, MethodInfo,
    RecordComponentInfo, Utf8, U2,
};
use crate::consts::class_acc_flags::{
    ABSTRACT, ANNOTATION, ENUM, FINAL, INTERFACE, MODULE, SUPER,
};
use crate::consts::{
    MAX_MAJOR_VERSION, MIN_MAJOR_VERSION, MIN_MODULE_MAJOR_VERSION, STRICT_MINOR_MAJOR_VERSION,
};
use crate::errors::{Attributes as AttributeKind, CpNodeError, ParsingError};

verus! {

// ---------------------------------------------------------------------------
// Scanning a sequence for its first error.

/// The error that `f` gives for the first element of `s` that it rejects.
pub open spec fn first_some<T>(s: Seq<T>, f: spec_fn(T) -> Option<ParsingError>) -> Option<
    ParsingError,
>
    decreases s.len(),
{
    if s.len() == 0 {
        None
    } else {
        match first_some(s.drop_last(), f) {
            Some(e) => Some(e),
            None => f(s.last()),
        }
    }
}

/// The first of two checks that fails, if any.
pub open spec fn or_else(a: Option<ParsingError>, b: Option<ParsingError>) -> Option<ParsingError> {
    if a is Some {
        a
    } else {
        b
    }
}

/// A check's outcome as a `Result`.
pub open spec fn to_result(o: Option<ParsingError>) -> Result<(), ParsingError> {
    match o {
        Some(e) => Err(e),
        None => Ok(()),
    }
}

/// Scanning one more element adds that element's verdict.
pub proof fn lemma_first_some_step<T>(s: Seq<T>, i: int, f: spec_fn(T) -> Option<ParsingError>)
    requires
        0 <= i < s.len(),
        first_some(s.take(i), f) is None,
    ensures
        first_some(s.take(i + 1), f) == f(s[i]),
{
    assert(s.take(i + 1).drop_last() =~= s.take(i));
}

/// An error found in a prefix is the error of the whole scan.
pub proof fn lemma_first_some_prefix<T>(s: Seq<T>, n: int, f: spec_fn(T) -> Option<ParsingError>)
    requires
        0 <= n <= s.len(),
        first_some(s.take(n), f) is Some,
    ensures
        first_some(s, f) == first_some(s.take(n), f),
    decreases s.len() - n,
{
    if n < s.len() {
        assert(s.take(n + 1).drop_last() =~= s.take(n));
        lemma_first_some_prefix(s, n + 1, f);
    } else {
        assert(s.take(n) =~= s);
    }
}

/// When no element is rejected, `f` accepts every element.
pub proof fn lemma_first_some_none<T>(s: Seq<T>, f: spec_fn(T) -> Option<ParsingError>)
    requires
        first_some(s, f) is None,
    ensures
        forall|i: int| 0 <= i < s.len() ==> (#[trigger] f(s[i])) is None,
    decreases s.len(),
{
    if s.len() > 0 {
        lemma_first_some_none(s.drop_last(), f);
        assert forall|i: int| 0 <= i < s.len() implies (#[trigger] f(s[i])) is None by {
            if i < s.len() - 1 {
                assert(s.drop_last()[i] == s[i]);
            }
        }
    }
}

// ---------------------------------------------------------------------------
// The constant pool.

/// The variant of a constant-pool entry.
pub open spec fn cp_kind(n: CpNode) -> CpNodeError {
    match n {
        CpNode::Class(_) => CpNodeError::Class,
        CpNode::String(_) => CpNodeError::String,
        CpNode::MethodType(_) => CpNodeError::MethodType,
        CpNode::Module(_) => CpNodeError::Module,
        CpNode::Package(_) => CpNodeError::Package,
        CpNode::Integer(_) => CpNodeError::Integer,
        CpNode::Float(_) => CpNodeError::Float,
        CpNode::Dynamic(_) => CpNodeError::Dynamic,
        CpNode::NameAndType(_) => CpNodeError::NameAndType,
        CpNode::InvokeDynamic(_) => CpNodeError::InvokeDynamic,
        CpNode::FieldRef(_) => CpNodeError::FieldRef,
        CpNode::MethodRef(_) => CpNodeError::MethodRef,
        CpNode::InterfaceMethodRef(_) => CpNodeError::InterfaceMethodRef,
        CpNode::Long(_) => CpNodeError::Long,
        CpNode::Double(_) => CpNodeError::Double,
        CpNode::MethodHandle(_) => CpNodeError::MethodHandle,
        CpNode::Utf8(_) => CpNodeError::Utf8,
        CpNode::Sentinel => CpNodeError::Sentinel,
    }
}

/// The variant of the entry at the 1-based index `i`, if `i` is in range.
pub open spec fn kind_at(cp: Seq<CpNode>, i: int) -> Option<CpNodeError> {
    if 1 <= i <= cp.len() {
        Some(cp_kind(cp[i - 1]))
    } else {
        None
    }
}

/// The index `i` resolves to an entry of variant `k`.
pub open spec fn points_to(cp: Seq<CpNode>, i: int, k: CpNodeError) -> bool {
    kind_at(cp, i) == Some(k)
}

/// A binary class name uses `/`, never `.` (byte 46).
pub open spec fn has_dot(b: Seq<u8>) -> bool {
    exists|i: int| 0 <= i < b.len() && b[i] == 46
}

/// The error for an index of a `src` entry, in the field `field`, that does
/// not resolve to an entry of variant `k`.
pub open spec fn ref_check(
    cp: Seq<CpNode>,
    i: int,
    src: CpNodeError,
    k: CpNodeError,
    field: &'static str,
) -> Option<ParsingError> {
    if points_to(cp, i, k) {
        None
    } else {
        Some(ParsingError::InvalidIndexFromNodeToNode(src, k, field))
    }
}

/// The checks of one constant-pool entry. `bsm` is the number of bootstrap
/// methods when the class has exactly one BootstrapMethods attribute.
pub open spec fn cp_node_error(cp: Seq<CpNode>, bsm: Option<usize>, n: CpNode) -> Option<
    ParsingError,
> {
    match n {
        CpNode::Class(x) => match cp_utf8(cp, x.name_index.0 as int) {
            Some(b) => if has_dot(b) {
                Some(ParsingError::BinaryNameContainsDot)
            } else {
                None
            },
            None => Some(
                ParsingError::InvalidIndexFromNodeToNode(
                    CpNodeError::Class,
                    CpNodeError::Utf8,
                    "name_index",
                ),
            ),
        },
        CpNode::FieldRef(x) => or_else(
            ref_check(
                cp,
                x.class_index.0 as int,
                CpNodeError::FieldRef,
                CpNodeError::Class,
                "class_index",
            ),
            ref_check(
                cp,
                x.name_and_type_index.0 as int,
                CpNodeError::FieldRef,
                CpNodeError::NameAndType,
                "name_and_type",
            ),
        ),
        CpNode::MethodRef(x) => or_else(
            ref_check(
                cp,
                x.class_index.0 as int,
                CpNodeError::MethodRef,
                CpNodeError::Class,
                "class_index",
            ),
            ref_check(
                cp,
                x.name_and_type_index.0 as int,
                CpNodeError::MethodRef,
                CpNodeError::NameAndType,
                "name_and_type",
            ),
        ),
        CpNode::InterfaceMethodRef(x) => or_else(
            ref_check(
                cp,
                x.class_index.0 as int,
                CpNodeError::InterfaceMethodRef,
                CpNodeError::Class,
                "class_index",
            ),
            ref_check(
                cp,
                x.name_and_type_index.0 as int,
                CpNodeError::InterfaceMethodRef,
                CpNodeError::NameAndType,
                "name_and_type",
            ),
        ),
        CpNode::String(x) => ref_check(
            cp,
            x.string_index.0 as int,
            CpNodeError::String,
            CpNodeError::Utf8,
            "string_index",
        ),
        CpNode::MethodType(x) => ref_check(
            cp,
            x.descriptor_index.0 as int,
            CpNodeError::MethodType,
            CpNodeError::Utf8,
            "descriptor_index",
        ),
        CpNode::Module(x) => ref_check(
            cp,
            x.name_index.0 as int,
            CpNodeError::Module,
            CpNodeError::Utf8,
            "name_index",
        ),
        CpNode::Package(x) => ref_check(
            cp,
            x.name_index.0 as int,
            CpNodeError::Package,
            CpNodeError::Utf8,
            "name_index",
        ),
        CpNode::NameAndType(x) => or_else(
            ref_check(
                cp,
                x.name_index.0 as int,
                CpNodeError::NameAndType,
                CpNodeError::Utf8,
                "name_index",
            ),
            ref_check(
                cp,
                x.descriptor_index.0 as int,
                CpNodeError::NameAndType,
                CpNodeError::Utf8,
                "descriptor_index",
            ),
        ),
        CpNode::Dynamic(x) => match bsm {
            None => Some(ParsingError::InvalidAmountOfBootStrapMethodsInClass),
            Some(count) => if x.bootstrap_method_attr_index.0 >= count {
                Some(ParsingError::BootstrapMethodAttrIndexInDynamicAttributeIsNotValidIndex)
            } else {
                ref_check(
                    cp,
                    x.name_and_type_index.0 as int,
                    CpNodeError::Dynamic,
                    CpNodeError::NameAndType,
                    "name_and_type_index",
                )
            },
        },
        CpNode::InvokeDynamic(x) => match bsm {
            None => Some(ParsingError::InvalidAmountOfBootStrapMethodsInClass),
            Some(count) => if x.bootstrap_method_attr_index.0 >= count {
                Some(ParsingError::BootstrapMethodAttrIndexInInvokeDynamicAttributeIsNotValidIndex)
            } else {
                ref_check(
                    cp,
                    x.name_and_type_index.0 as int,
                    CpNodeError::InvokeDynamic,
                    CpNodeError::NameAndType,
                    "name_and_type_index",
                )
            },
        },
        CpNode::MethodHandle(x) => {
            let kind = x.reference_kind;
            let i = x.reference_index.0 as int;
            if kind < 1 || kind > 9 {
                Some(ParsingError::InvalidReferenceKind)
            } else if kind <= 4 {
                if points_to(cp, i, CpNodeError::FieldRef) {
                    None
                } else {
                    Some(ParsingError::MethodHandle1to4NotPointingToFieldRef)
                }
            } else if kind == 5 || kind == 8 {
                if points_to(cp, i, CpNodeError::MethodRef) {
                    None
                } else {
                    Some(ParsingError::MethodHandle5or8NotPointingToMethodRef)
                }
            } else if kind == 6 || kind == 7 {
                if points_to(cp, i, CpNodeError::MethodRef) || points_to(
                    cp,
                    i,
                    CpNodeError::InterfaceMethodRef,
                ) {
                    None
                } else {
                    Some(
                        ParsingError::InvalidIndexFromNodeToNode(
                            CpNodeError::MethodHandle,
                            CpNodeError::MethodRef,
                            "reference_index",
                        ),
                    )
                }
            } else {
                ref_check(
                    cp,
                    i,
                    CpNodeError::MethodHandle,
                    CpNodeError::InterfaceMethodRef,
                    "reference_index",
                )
            }
        },
        _ => None,
    }
}

/// The constant-pool checks as a function of one entry.
pub open spec fn cp_check(cp: Seq<CpNode>, bsm: Option<usize>) -> spec_fn(CpNode) -> Option<
    ParsingError,
> {
    |n: CpNode| cp_node_error(cp, bsm, n)
}

/// Positions of the BootstrapMethods attributes among `s`.
pub open spec fn bsm_positions(s: Seq<Attributes>) -> Seq<usize>
    decreases s.len(),
{
    if s.len() == 0 {
        Seq::empty()
    } else if s.last() is BootstrapMethods {
        bsm_positions(s.drop_last()).push((s.len() - 1) as usize)
    } else {
        bsm_positions(s.drop_last())
    }
}

/// The number of bootstrap methods, when the class has exactly one
/// BootstrapMethods attribute.
pub open spec fn bsm_count(c: ClassFile) -> Option<usize> {
    let p = bsm_positions(c.attributes@);
    if p.len() == 1 && p[0] < c.attributes@.len() && c.attributes@[p[0] as int] is BootstrapMethods {
        Some(c.attributes@[p[0] as int]->BootstrapMethods_0.bootstrap_methods@.len() as usize)
    } else {
        None
    }
}

// ---------------------------------------------------------------------------
// Version and access flags.

/// The major version lies in 45..=61; from 56 on the minor version is 0 or 65535.
pub open spec fn version_error(c: ClassFile) -> Option<ParsingError> {
    let major = c.major_v.0;
    let minor = c.minor_v.0;
    if major < MIN_MAJOR_VERSION || major > MAX_MAJOR_VERSION {
        Some(ParsingError::InvalidMajorV)
    } else if major >= STRICT_MINOR_MAJOR_VERSION && minor != 0 && minor != 65535 {
        Some(ParsingError::InvalidMinorV)
    } else {
        None
    }
}

/// The flag bits `m` are all clear in `f`.
pub open spec fn clear(f: u16, m: u16) -> bool {
    f & m == 0
}

/// The Class entry at `this_class` names "module-info".
pub open spec fn is_module_info(c: ClassFile) -> bool {
    let i = c.this_class.0 as int;
    &&& 1 <= i <= c.cp@.len()
    &&& c.cp@[i - 1] is Class
    &&& cp_utf8(c.cp@, c.cp@[i - 1]->Class_0.name_index.0 as int) == Some("module-info".spec_bytes())
}

/// The attributes that a module class may carry.
pub open spec fn allowed_in_module(a: Attributes) -> bool {
    ||| a is Module
    ||| a is ModulePackages
    ||| a is ModuleMainClass
    ||| a is InnerClass
    ||| a is SourceFile
    ||| a is SourceDebugExt
    ||| a is RuntimeVisibleAnnotations
    ||| a is RuntimeInvisibleAnnotations
}

/// The number of Module attributes among `s`.
pub open spec fn module_count(s: Seq<Attributes>) -> nat
    decreases s.len(),
{
    if s.len() == 0 {
        0
    } else {
        module_count(s.drop_last()) + if s.last() is Module {
            1nat
        } else {
            0nat
        }
    }
}

/// The access-flag rules, and for a module class the shape of the class.
pub open spec fn flags_error(c: ClassFile) -> Option<ParsingError> {
    let f = c.access_flags.0;
    if !clear(f, MODULE) {
        if f != MODULE {
            if !clear(f, INTERFACE) {
                Some(ParsingError::IllegalFlagsWhileInterface)
            } else {
                Some(ParsingError::IllegalFlagsWhileNonInterface)
            }
        } else if c.major_v.0 < MIN_MODULE_MAJOR_VERSION {
            Some(ParsingError::InvalidVersionAsModule)
        } else if !is_module_info(c) {
            Some(ParsingError::ThisClassNotModuleInfoAsModule)
        } else if c.super_class.0 != 0 || c.interfaces@.len() != 0 || c.fields@.len() != 0
            || c.methods@.len() != 0 {
            Some(ParsingError::VarsNotZeroAsModule)
        } else if !(forall|i: int|
            0 <= i < c.attributes@.len() ==> allowed_in_module(#[trigger] c.attributes@[i]))
            || module_count(c.attributes@) != 1 {
            Some(ParsingError::InvalidAttributesAsModule)
        } else {
            None
        }
    } else if !clear(f, INTERFACE) {
        if clear(f, ABSTRACT) {
            Some(ParsingError::InterfaceWithoutAbstract)
        } else if !clear(f, FINAL) || !clear(f, SUPER) || !clear(f, ENUM) {
            Some(ParsingError::IllegalFlagsWhileInterface)
        } else {
            None
        }
    } else if !clear(f, ANNOTATION) {
        Some(ParsingError::IllegalFlagsWhileNonInterface)
    } else if !clear(f, FINAL) && !clear(f, ABSTRACT) {
        Some(ParsingError::FinalAndAbstractWhileNonInterface)
    } else {
        None
    }
}

// ---------------------------------------------------------------------------
// Where each attribute may stand.

/// The attributes that may stand on a class.
pub open spec fn allowed_in_class(a: Attributes) -> bool {
    ||| a is SourceFile
    ||| a is InnerClass
    ||| a is EnclosingMethod
    ||| a is SourceDebugExt
    ||| a is BootstrapMethods
    ||| a is Module
    ||| a is ModulePackages
    ||| a is ModuleMainClass
    ||| a is NestHost
    ||| a is NestMembers
    ||| a is Record
    ||| a is PermittedSubclasses
    ||| a is Synthetic
    ||| a is Deprecated
    ||| a is Signature
    ||| a is RuntimeVisibleAnnotations
    ||| a is RuntimeInvisibleAnnotations
    ||| a is RuntimeVisibleTypeAnnotations
    ||| a is RuntimeInvisibleTypeAnnotations
}

/// The attributes that may stand on a field.
pub open spec fn allowed_in_field(a: Attributes) -> bool {
    ||| a is Value
    ||| a is Synthetic
    ||| a is Deprecated
    ||| a is Signature
    ||| a is RuntimeVisibleAnnotations
    ||| a is RuntimeInvisibleAnnotations
    ||| a is RuntimeVisibleTypeAnnotations
    ||| a is RuntimeInvisibleTypeAnnotations
}

/// The attributes that may stand on a method.
pub open spec fn allowed_in_method(a: Attributes) -> bool {
    ||| a is Code
    ||| a is Exceptions
    ||| a is RuntimeVisibleParameterAnnotations
    ||| a is RuntimeInvisibleParameterAnnotations
    ||| a is AnnotationDefault
    ||| a is MethodParameters
    ||| a is Synthetic
    ||| a is Deprecated
    ||| a is Signature
    ||| a is RuntimeVisibleAnnotations
    ||| a is RuntimeInvisibleAnnotations
    ||| a is RuntimeVisibleTypeAnnotations
    ||| a is RuntimeInvisibleTypeAnnotations
}

/// The attributes that may stand inside a Code attribute.
pub open spec fn allowed_in_code(a: Attributes) -> bool {
    ||| a is LineNumberTable
    ||| a is LocalVariableTable
    ||| a is LocalVariableTypeTable
    ||| a is StackMapTable
    ||| a is RuntimeVisibleTypeAnnotations
    ||| a is RuntimeInvisibleTypeAnnotations
}

/// The attributes that may stand on a record component.
pub open spec fn allowed_in_record_component(a: Attributes) -> bool {
    ||| a is Signature
    ||| a is RuntimeVisibleAnnotations
    ||| a is RuntimeInvisibleAnnotations
    ||| a is RuntimeVisibleTypeAnnotations
    ||| a is RuntimeInvisibleTypeAnnotations
}

/// The location rule for one attribute of a record component.
pub open spec fn component_attr_check() -> spec_fn(Attributes) -> Option<ParsingError> {
    |a: Attributes|
        if allowed_in_record_component(a) {
            None
        } else {
            Some(ParsingError::InvalidRecordComponentInfoAttributes)
        }
}

/// The location rule for the attributes of one record component.
pub open spec fn component_check() -> spec_fn(RecordComponentInfo) -> Option<ParsingError> {
    |r: RecordComponentInfo| first_some(r.attributes@, component_attr_check())
}

/// The location rule for one class attribute and, for a Record, its components.
pub open spec fn class_attr_check() -> spec_fn(Attributes) -> Option<ParsingError> {
    |a: Attributes|
        if !allowed_in_class(a) {
            Some(ParsingError::InvalidClassAttributes)
        } else if a is Record {
            first_some(a->Record_0.components@, component_check())
        } else {
            None
        }
}

/// The location rule for one attribute of a field.
pub open spec fn field_attr_check() -> spec_fn(Attributes) -> Option<ParsingError> {
    |a: Attributes|
        if allowed_in_field(a) {
            None
        } else {
            Some(ParsingError::InvalidFieldInfoAttributes)
        }
}

/// The location rule for the attributes of one field.
pub open spec fn field_check() -> spec_fn(FieldInfo) -> Option<ParsingError> {
    |f: FieldInfo| first_some(f.attributes@, field_attr_check())
}

/// The location rule for one attribute inside a Code attribute.
pub open spec fn code_attr_check() -> spec_fn(Attributes) -> Option<ParsingError> {
    |a: Attributes|
        if allowed_in_code(a) {
            None
        } else {
            Some(ParsingError::InvalidCodeAttributes)
        }
}

/// The location rule for one method attribute and, for Code, its attributes.
pub open spec fn method_attr_check() -> spec_fn(Attributes) -> Option<ParsingError> {
    |a: Attributes|
        if !allowed_in_method(a) {
            Some(ParsingError::InvalidMethodInfoAttributes)
        } else if a is Code {
            first_some(a->Code_0.attributes@, code_attr_check())
        } else {
            None
        }
}

/// The location rule for the attributes of one method.
pub open spec fn method_check() -> spec_fn(MethodInfo) -> Option<ParsingError> {
    |m: MethodInfo| first_some(m.attributes@, method_attr_check())
}

/// The attribute-location rules, class first, then fields, then methods.
pub open spec fn location_error(c: ClassFile) -> Option<ParsingError> {
    or_else(
        first_some(c.attributes@, class_attr_check()),
        or_else(first_some(c.fields@, field_check()), first_some(c.methods@, method_check())),
    )
}

// ---------------------------------------------------------------------------
// Code attributes, SourceFile and BootstrapMethods.

/// The rules of one exception-table entry of a Code attribute of `len` bytes.
pub open spec fn exception_check(cp: Seq<CpNode>, len: int) -> spec_fn(
    ExceptionTableAttrCode,
) -> Option<ParsingError> {
    |x: ExceptionTableAttrCode|
        if x.start_pc.0 >= len || x.end_pc.0 >= len || x.handler_pc.0 >= len {
            Some(ParsingError::InvalidIndexesInCodeAttribute)
        } else if x.catch_type.0 != 0 && !points_to(cp, x.catch_type.0 as int, CpNodeError::Class) {
            Some(
                ParsingError::InvalidIndexFromAttributeToNode(
                    AttributeKind::Code,
                    CpNodeError::Class,
                    "catch_type",
                ),
            )
        } else {
            None
        }
}

/// The rules of one Code attribute.
pub open spec fn code_rules(cp: Seq<CpNode>, x: AttrCode) -> Option<ParsingError> {
    let len = x.code@.len();
    if len == 0 || len >= 65536 {
        Some(ParsingError::CodeAttributeCodeLength)
    } else {
        first_some(x.exception_table@, exception_check(cp, len as int))
    }
}

/// The Code rules for one attribute.
pub open spec fn code_rules_check(cp: Seq<CpNode>) -> spec_fn(Attributes) -> Option<ParsingError> {
    |a: Attributes|
        if a is Code {
            code_rules(cp, a->Code_0)
        } else {
            None
        }
}

/// The Code rules for the attributes of one method.
pub open spec fn method_code_check(cp: Seq<CpNode>) -> spec_fn(MethodInfo) -> Option<ParsingError> {
    |m: MethodInfo| first_some(m.attributes@, code_rules_check(cp))
}

/// A SourceFile attribute names a Utf8 entry.
pub open spec fn source_file_check(cp: Seq<CpNode>) -> spec_fn(Attributes) -> Option<ParsingError> {
    |a: Attributes|
        if a is SourceFile && cp_utf8(cp, a->SourceFile_0.sourcefile_index.0 as int) is None {
            Some(
                ParsingError::InvalidIndexFromAttributeToNode(
                    AttributeKind::SourceFile,
                    CpNodeError::Utf8,
                    "sourcefile_index",
                ),
            )
        } else {
            None
        }
}

/// The rules on the class's own attributes: each SourceFile names a Utf8
/// entry, and there is at most one BootstrapMethods attribute.
pub open spec fn class_attributes_error(c: ClassFile) -> Option<ParsingError> {
    or_else(
        first_some(c.attributes@, source_file_check(c.cp@)),
        if bsm_positions(c.attributes@).len() > 1 {
            Some(ParsingError::InvalidAmountOfBootStrapMethodsInClass)
        } else {
            None
        },
    )
}

/// The rules of the Code attributes of methods.
pub open spec fn code_error(c: ClassFile) -> Option<ParsingError> {
    first_some(c.methods@, method_code_check(c.cp@))
}

/// `this_class` names a Class entry whose name is a Utf8 entry.
pub open spec fn this_class_resolves(c: ClassFile) -> bool {
    let i = c.this_class.0 as int;
    &&& points_to(c.cp@, i, CpNodeError::Class)
    &&& cp_utf8(c.cp@, c.cp@[i - 1]->Class_0.name_index.0 as int) is Some
}

/// The error for an index of the class file's own, in the field `field`,
/// that does not resolve to an entry of variant `k`.
pub open spec fn class_ref_check(cp: Seq<CpNode>, i: int, k: CpNodeError, field: &'static str) -> Option<
    ParsingError,
> {
    if points_to(cp, i, k) {
        None
    } else {
        Some(ParsingError::InvalidIndexFromClassToNode(k, field))
    }
}

/// Each interface index names a Class entry.
pub open spec fn interface_check(cp: Seq<CpNode>) -> spec_fn(U2) -> Option<ParsingError> {
    |i: U2| class_ref_check(cp, i.0 as int, CpNodeError::Class, "interfaces")
}

/// A field's name and descriptor name Utf8 entries.
pub open spec fn field_name_check(cp: Seq<CpNode>) -> spec_fn(FieldInfo) -> Option<ParsingError> {
    |f: FieldInfo|
        or_else(
            class_ref_check(cp, f.name_index.0 as int, CpNodeError::Utf8, "name_index"),
            class_ref_check(cp, f.descriptor_index.0 as int, CpNodeError::Utf8, "descriptor_index"),
        )
}

/// A method's name and descriptor name Utf8 entries.
pub open spec fn method_name_check(cp: Seq<CpNode>) -> spec_fn(MethodInfo) -> Option<ParsingError> {
    |m: MethodInfo|
        or_else(
            class_ref_check(cp, m.name_index.0 as int, CpNodeError::Utf8, "name_index"),
            class_ref_check(cp, m.descriptor_index.0 as int, CpNodeError::Utf8, "descriptor_index"),
        )
}

/// The indices that the class file itself holds resolve: `this_class`,
/// `super_class` (unless 0), the interfaces, and the names and descriptors
/// of fields and methods.
pub open spec fn class_refs_error(c: ClassFile) -> Option<ParsingError> {
    if !this_class_resolves(c) {
        Some(ParsingError::InvalidIndexFromClassToNode(CpNodeError::Class, "this_class"))
    } else if c.super_class.0 != 0 && !points_to(c.cp@, c.super_class.0 as int, CpNodeError::Class) {
        Some(ParsingError::InvalidIndexFromClassToNode(CpNodeError::Class, "super_class"))
    } else {
        or_else(
            first_some(c.interfaces@, interface_check(c.cp@)),
            or_else(
                first_some(c.fields@, field_name_check(c.cp@)),
                first_some(c.methods@, method_name_check(c.cp@)),
            ),
        )
    }
}

/// Every Long and Double is followed by a sentinel slot, and every sentinel
/// follows one.
pub open spec fn layout_error(c: ClassFile) -> Option<ParsingError> {
    if pool_shape(c.cp@) {
        None
    } else {
        Some(ParsingError::InvalidConstantPoolLayout)
    }
}

/// The first rule that `c` breaks, in the order in which the verifier checks
/// them, or `None` when it breaks none.
pub open spec fn verify_error(c: ClassFile) -> Option<ParsingError> {
    or_else(
        version_error(c),
        or_else(
            layout_error(c),
            or_else(
                first_some(c.cp@, cp_check(c.cp@, bsm_count(c))),
                or_else(
                    class_refs_error(c),
                    or_else(
                        flags_error(c),
                        or_else(
                            location_error(c),
                            or_else(class_attributes_error(c), code_error(c)),
                        ),
                    ),
                ),
            ),
        ),
    )
}

/// What verifying `c` returns.
pub open spec fn verify_result(c: ClassFile) -> Result<ClassFile, ParsingError> {
    match verify_error(c) {
        Some(e) => Err(e),
        None => Ok(c),
    }
}

// ---------------------------------------------------------------------------
// Executable checks.

impl Utf8 {
    /// Fails with `BinaryNameContainsDot` when the name holds a `.`.
    pub fn verify_binary_class_or_interface_name(&self) -> (r: Result<(), ParsingError>)
        ensures
            r == (if has_dot(self.bytes@) {
                Err(ParsingError::BinaryNameContainsDot)
            } else {
                Ok(())
            }),
    {
        let mut i: usize = 0;
        while i < self.bytes.len()
            invariant
                i <= self.bytes@.len(),
                forall|j: int| 0 <= j < i ==> self.bytes@[j] != 46,
            decreases self.bytes@.len() - i,
        {
            if self.bytes[i] == 46 {
                return Err(ParsingError::BinaryNameContainsDot);
            }
            i = i + 1;
        }
        Ok(())
    }
}

fn kind_of(n: &CpNode) -> (r: CpNodeError)
    ensures
        r == cp_kind(*n),
{
    match n {
        CpNode::Class(_) => CpNodeError::Class,
        CpNode::String(_) => CpNodeError::String,
        CpNode::MethodType(_) => CpNodeError::MethodType,
        CpNode::Module(_) => CpNodeError::Module,
        CpNode::Package(_) => CpNodeError::Package,
        CpNode::Integer(_) => CpNodeError::Integer,
        CpNode::Float(_) => CpNodeError::Float,
        CpNode::Dynamic(_) => CpNodeError::Dynamic,
        CpNode::NameAndType(_) => CpNodeError::NameAndType,
        CpNode::InvokeDynamic(_) => CpNodeError::InvokeDynamic,
        CpNode::FieldRef(_) => CpNodeError::FieldRef,
        CpNode::MethodRef(_) => CpNodeError::MethodRef,
        CpNode::InterfaceMethodRef(_) => CpNodeError::InterfaceMethodRef,
        CpNode::Long(_) => CpNodeError::Long,
        CpNode::Double(_) => CpNodeError::Double,
        CpNode::MethodHandle(_) => CpNodeError::MethodHandle,
        CpNode::Utf8(_) => CpNodeError::Utf8,
        CpNode::Sentinel => CpNodeError::Sentinel,
    }
}

/// Whether the 1-based index `i` resolves to an entry of variant `k`.
fn points_to_kind(cp: &Vec<CpNode>, i: u16, k: CpNodeError) -> (r: bool)
    ensures
        r == points_to(cp@, i as int, k),
{
    if i == 0 || i as usize > cp.len() {
        false
    } else {
        kind_of(&cp[i as usize - 1]) == k
    }
}

/// The Utf8 entry at the 1-based index `i`, if there is one.
fn utf8_at(cp: &Vec<CpNode>, i: u16) -> (r: Option<&Utf8>)
    ensures
        match r {
            Some(u) => cp_utf8(cp@, i as int) == Some(u.bytes@),
            None => cp_utf8(cp@, i as int) is None,
        },
{
    if i == 0 || i as usize > cp.len() {
        None
    } else {
        match &cp[i as usize - 1] {
            CpNode::Utf8(u) => Some(u),
            _ => None,
        }
    }
}

fn ref_error(
    cp: &Vec<CpNode>,
    i: u16,
    src: CpNodeError,
    k: CpNodeError,
    field: &'static str,
) -> (r: Option<ParsingError>)
    ensures
        r == ref_check(cp@, i as int, src, k, field),
{
    if points_to_kind(cp, i, k) {
        None
    } else {
        Some(ParsingError::InvalidIndexFromNodeToNode(src, k, field))
    }
}

/// The checks of one constant-pool entry.
fn cp_node_check(cp: &Vec<CpNode>, bsm: Option<usize>, n: &CpNode) -> (r: Option<ParsingError>)
    ensures
        r == cp_node_error(cp@, bsm, *n),
{
    match n {
        CpNode::Class(x) => match utf8_at(cp, x.name_index.0) {
            Some(u) => match u.verify_binary_class_or_interface_name() {
                Ok(()) => None,
                Err(e) => Some(e),
            },
            None => Some(
                ParsingError::InvalidIndexFromNodeToNode(
                    CpNodeError::Class,
                    CpNodeError::Utf8,
                    "name_index",
                ),
            ),
        },
        CpNode::FieldRef(x) => match ref_error(
            cp,
            x.class_index.0,
            CpNodeError::FieldRef,
            CpNodeError::Class,
            "class_index",
        ) {
            Some(e) => Some(e),
            None => ref_error(
                cp,
                x.name_and_type_index.0,
                CpNodeError::FieldRef,
                CpNodeError::NameAndType,
                "name_and_type",
            ),
        },
        CpNode::MethodRef(x) => match ref_error(
            cp,
            x.class_index.0,
            CpNodeError::MethodRef,
            CpNodeError::Class,
            "class_index",
        ) {
            Some(e) => Some(e),
            None => ref_error(
                cp,
                x.name_and_type_index.0,
                CpNodeError::MethodRef,
                CpNodeError::NameAndType,
                "name_and_type",
            ),
        },
        CpNode::InterfaceMethodRef(x) => match ref_error(
            cp,
            x.class_index.0,
            CpNodeError::InterfaceMethodRef,
            CpNodeError::Class,
            "class_index",
        ) {
            Some(e) => Some(e),
            None => ref_error(
                cp,
                x.name_and_type_index.0,
                CpNodeError::InterfaceMethodRef,
                CpNodeError::NameAndType,
                "name_and_type",
            ),
        },
        CpNode::String(x) => ref_error(
            cp,
            x.string_index.0,
            CpNodeError::String,
            CpNodeError::Utf8,
            "string_index",
        ),
        CpNode::MethodType(x) => ref_error(
            cp,
            x.descriptor_index.0,
            CpNodeError::MethodType,
            CpNodeError::Utf8,
            "descriptor_index",
        ),
        CpNode::Module(x) => ref_error(
            cp,
            x.name_index.0,
            CpNodeError::Module,
            CpNodeError::Utf8,
            "name_index",
        ),
        CpNode::Package(x) => ref_error(
            cp,
            x.name_index.0,
            CpNodeError::Package,
            CpNodeError::Utf8,
            "name_index",
        ),
        CpNode::NameAndType(x) => match ref_error(
            cp,
            x.name_index.0,
            CpNodeError::NameAndType,
            CpNodeError::Utf8,
            "name_index",
        ) {
            Some(e) => Some(e),
            None => ref_error(
                cp,
                x.descriptor_index.0,
                CpNodeError::NameAndType,
                CpNodeError::Utf8,
                "descriptor_index",
            ),
        },
        CpNode::Dynamic(x) => match bsm {
            None => Some(ParsingError::InvalidAmountOfBootStrapMethodsInClass),
            Some(count) => if x.bootstrap_method_attr_index.0 as usize >= count {
                Some(ParsingError::BootstrapMethodAttrIndexInDynamicAttributeIsNotValidIndex)
            } else {
                ref_error(
                    cp,
                    x.name_and_type_index.0,
                    CpNodeError::Dynamic,
                    CpNodeError::NameAndType,
                    "name_and_type_index",
                )
            },
        },
        CpNode::InvokeDynamic(x) => match bsm {
            None => Some(ParsingError::InvalidAmountOfBootStrapMethodsInClass),
            Some(count) => if x.bootstrap_method_attr_index.0 as usize >= count {
                Some(ParsingError::BootstrapMethodAttrIndexInInvokeDynamicAttributeIsNotValidIndex)
            } else {
                ref_error(
                    cp,
                    x.name_and_type_index.0,
                    CpNodeError::InvokeDynamic,
                    CpNodeError::NameAndType,
                    "name_and_type_index",
                )
            },
        },
        CpNode::MethodHandle(x) => {
            let kind = x.reference_kind;
            let i = x.reference_index.0;
            if kind < 1 || kind > 9 {
                Some(ParsingError::InvalidReferenceKind)
            } else if kind <= 4 {
                if points_to_kind(cp, i, CpNodeError::FieldRef) {
                    None
                } else {
                    Some(ParsingError::MethodHandle1to4NotPointingToFieldRef)
                }
            } else if kind == 5 || kind == 8 {
                if points_to_kind(cp, i, CpNodeError::MethodRef) {
                    None
                } else {
                    Some(ParsingError::MethodHandle5or8NotPointingToMethodRef)
                }
            } else if kind == 6 || kind == 7 {
                if points_to_kind(cp, i, CpNodeError::MethodRef) || points_to_kind(
                    cp,
                    i,
                    CpNodeError::InterfaceMethodRef,
                ) {
                    None
                } else {
                    Some(
                        ParsingError::InvalidIndexFromNodeToNode(
                            CpNodeError::MethodHandle,
                            CpNodeError::MethodRef,
                            "reference_index",
                        ),
                    )
                }
            } else {
                ref_error(
                    cp,
                    i,
                    CpNodeError::MethodHandle,
                    CpNodeError::InterfaceMethodRef,
                    "reference_index",
                )
            }
        },
        _ => None,
    }
}

fn is_allowed_in_class(a: &Attributes) -> (r: bool)
    ensures
        r == allowed_in_class(*a),
{
    match a {
        Attributes::SourceFile(_)
            | Attributes::InnerClass(_)
            | Attributes::EnclosingMethod(_)
            | Attributes::SourceDebugExt(_)
            | Attributes::BootstrapMethods(_)
            | Attributes::Module(_)
            | Attributes::ModulePackages(_)
            | Attributes::ModuleMainClass(_)
            | Attributes::NestHost(_)
            | Attributes::NestMembers(_)
            | Attributes::Record(_)
            | Attributes::PermittedSubclasses(_)
            | Attributes::Synthetic(_)
            | Attributes::Deprecated(_)
            | Attributes::Signature(_)
            | Attributes::RuntimeVisibleAnnotations(_)
            | Attributes::RuntimeInvisibleAnnotations(_)
            | Attributes::RuntimeVisibleTypeAnnotations(_)
            | Attributes::RuntimeInvisibleTypeAnnotations(_) => true,
        _ => false,
    }
}


fn is_allowed_in_field(a: &Attributes) -> (r: bool)
    ensures
        r == allowed_in_field(*a),
{
    match a {
        Attributes::Value(_)
            | Attributes::Synthetic(_)
            | Attributes::Deprecated(_)
            | Attributes::Signature(_)
            | Attributes::RuntimeVisibleAnnotations(_)
            | Attributes::RuntimeInvisibleAnnotations(_)
            | Attributes::RuntimeVisibleTypeAnnotations(_)
            | Attributes::RuntimeInvisibleTypeAnnotations(_) => true,
        _ => false,
    }
}


fn is_allowed_in_method(a: &Attributes) -> (r: bool)
    ensures
        r == allowed_in_method(*a),
{
    match a {
        Attributes::Code(_)
            | Attributes::Exceptions(_)
            | Attributes::RuntimeVisibleParameterAnnotations(_)
            | Attributes::RuntimeInvisibleParameterAnnotations(_)
            | Attributes::AnnotationDefault(_)
            | Attributes::MethodParameters(_)
            | Attributes::Synthetic(_)
            | Attributes::Deprecated(_)
            | Attributes::Signature(_)
            | Attributes::RuntimeVisibleAnnotations(_)
            | Attributes::RuntimeInvisibleAnnotations(_)
            | Attributes::RuntimeVisibleTypeAnnotations(_)
            | Attributes::RuntimeInvisibleTypeAnnotations(_) => true,
        _ => false,
    }
}


fn is_allowed_in_code(a: &Attributes) -> (r: bool)
    ensures
        r == allowed_in_code(*a),
{
    match a {
        Attributes::LineNumberTable(_)
            | Attributes::LocalVariableTable(_)
            | Attributes::LocalVariableTypeTable(_)
            | Attributes::StackMapTable(_)
            | Attributes::RuntimeVisibleTypeAnnotations(_)
            | Attributes::RuntimeInvisibleTypeAnnotations(_) => true,
        _ => false,
    }
}


fn is_allowed_in_record_component(a: &Attributes) -> (r: bool)
    ensures
        r == allowed_in_record_component(*a),
{
    match a {
        Attributes::Signature(_)
            | Attributes::RuntimeVisibleAnnotations(_)
            | Attributes::RuntimeInvisibleAnnotations(_)
            | Attributes::RuntimeVisibleTypeAnnotations(_)
            | Attributes::RuntimeInvisibleTypeAnnotations(_) => true,
        _ => false,
    }
}


fn is_allowed_in_module(a: &Attributes) -> (r: bool)
    ensures
        r == allowed_in_module(*a),
{
    match a {
        Attributes::Module(_)
            | Attributes::ModulePackages(_)
            | Attributes::ModuleMainClass(_)
            | Attributes::InnerClass(_)
            | Attributes::SourceFile(_)
            | Attributes::SourceDebugExt(_)
            | Attributes::RuntimeVisibleAnnotations(_)
            | Attributes::RuntimeInvisibleAnnotations(_) => true,
        _ => false,
    }
}

fn class_attribute_error(a: &Attributes) -> (r: Option<ParsingError>)
    ensures
        r == class_attr_check()(*a),
{
    if !is_allowed_in_class(a) {
        Some(ParsingError::InvalidClassAttributes)
    } else {
        match a {
            Attributes::Record(rec) => scan_components(&rec.components),
            _ => None,
        }
    }
}

fn method_attribute_error(a: &Attributes) -> (r: Option<ParsingError>)
    ensures
        r == method_attr_check()(*a),
{
    if !is_allowed_in_method(a) {
        Some(ParsingError::InvalidMethodInfoAttributes)
    } else {
        match a {
            Attributes::Code(code) => scan_code_attributes(&code.attributes),
            _ => None,
        }
    }
}

fn exception_error(cp: &Vec<CpNode>, x: &ExceptionTableAttrCode, len: usize) -> (r: Option<
    ParsingError,
>)
    ensures
        r == exception_check(cp@, len as int)(*x),
{
    if x.start_pc.0 as usize >= len || x.end_pc.0 as usize >= len || x.handler_pc.0 as usize >= len {
        Some(ParsingError::InvalidIndexesInCodeAttribute)
    } else if x.catch_type.0 != 0 && !points_to_kind(cp, x.catch_type.0, CpNodeError::Class) {
        Some(
            ParsingError::InvalidIndexFromAttributeToNode(
                AttributeKind::Code,
                CpNodeError::Class,
                "catch_type",
            ),
        )
    } else {
        None
    }
}

/// The rules of one attribute's contents: a Code attribute's length and
/// exception table.
fn code_rules_error(cp: &Vec<CpNode>, a: &Attributes) -> (r: Option<ParsingError>)
    ensures
        r == code_rules_check(cp@)(*a),
{
    match a {
        Attributes::Code(x) => {
            let len = x.code.len();
            if len == 0 || len >= 65536 {
                Some(ParsingError::CodeAttributeCodeLength)
            } else {
                scan_exception_table(cp, &x.exception_table, len)
            }
        },
        _ => None,
    }
}

fn source_file_error(cp: &Vec<CpNode>, a: &Attributes) -> (r: Option<ParsingError>)
    ensures
        r == source_file_check(cp@)(*a),
{
    match a {
        Attributes::SourceFile(x) => match utf8_at(cp, x.sourcefile_index.0) {
            Some(_) => None,
            None => Some(
                ParsingError::InvalidIndexFromAttributeToNode(
                    AttributeKind::SourceFile,
                    CpNodeError::Utf8,
                    "sourcefile_index",
                ),
            ),
        },
        _ => None,
    }
}

/// The first attribute of a record component that may not stand there.
fn scan_component_attributes(v: &Vec<Attributes>) -> (r: Option<ParsingError>)
    ensures
        r == first_some(v@, component_attr_check()),
{
    let mut i: usize = 0;
    while i < v.len()
        invariant
            i <= v@.len(),
            first_some(v@.take(i as int), component_attr_check()) is None,
        decreases v@.len() - i,
    {
        let e = if is_allowed_in_record_component(&v[i]) { None } else { Some(ParsingError::InvalidRecordComponentInfoAttributes) };
        proof {
            lemma_first_some_step(v@, i as int, component_attr_check());
        }
        if let Some(err) = e {
            proof {
                lemma_first_some_prefix(v@, i + 1, component_attr_check());
            }
            return Some(err);
        }
        i = i + 1;
    }
    proof {
        assert(v@.take(v@.len() as int) =~= v@);
    }
    None
}


/// The first misplaced attribute among record components.
fn scan_components(v: &Vec<RecordComponentInfo>) -> (r: Option<ParsingError>)
    ensures
        r == first_some(v@, component_check()),
{
    let mut i: usize = 0;
    while i < v.len()
        invariant
            i <= v@.len(),
            first_some(v@.take(i as int), component_check()) is None,
        decreases v@.len() - i,
    {
        let e = scan_component_attributes(&v[i].attributes);
        proof {
            lemma_first_some_step(v@, i as int, component_check());
        }
        if let Some(err) = e {
            proof {
                lemma_first_some_prefix(v@, i + 1, component_check());
            }
            return Some(err);
        }
        i = i + 1;
    }
    proof {
        assert(v@.take(v@.len() as int) =~= v@);
    }
    None
}


/// The first attribute of a field that may not stand there.
fn scan_field_attributes(v: &Vec<Attributes>) -> (r: Option<ParsingError>)
    ensures
        r == first_some(v@, field_attr_check()),
{
    let mut i: usize = 0;
    while i < v.len()
        invariant
            i <= v@.len(),
            first_some(v@.take(i as int), field_attr_check()) is None,
        decreases v@.len() - i,
    {
        let e = if is_allowed_in_field(&v[i]) { None } else { Some(ParsingError::InvalidFieldInfoAttributes) };
        proof {
            lemma_first_some_step(v@, i as int, field_attr_check());
        }
        if let Some(err) = e {
            proof {
                lemma_first_some_prefix(v@, i + 1, field_attr_check());
            }
            return Some(err);
        }
        i = i + 1;
    }
    proof {
        assert(v@.take(v@.len() as int) =~= v@);
    }
    None
}


/// The first misplaced attribute among fields.
fn scan_fields(v: &Vec<FieldInfo>) -> (r: Option<ParsingError>)
    ensures
        r == first_some(v@, field_check()),
{
    let mut i: usize = 0;
    while i < v.len()
        invariant
            i <= v@.len(),
            first_some(v@.take(i as int), field_check()) is None,
        decreases v@.len() - i,
    {
        let e = scan_field_attributes(&v[i].attributes);
        proof {
            lemma_first_some_step(v@, i as int, field_check());
        }
        if let Some(err) = e {
            proof {
                lemma_first_some_prefix(v@, i + 1, field_check());
            }
            return Some(err);
        }
        i = i + 1;
    }
    proof {
        assert(v@.take(v@.len() as int) =~= v@);
    }
    None
}


/// The first attribute of a Code attribute that may not stand there.
fn scan_code_attributes(v: &Vec<Attributes>) -> (r: Option<ParsingError>)
    ensures
        r == first_some(v@, code_attr_check()),
{
    let mut i: usize = 0;
    while i < v.len()
        invariant
            i <= v@.len(),
            first_some(v@.take(i as int), code_attr_check()) is None,
        decreases v@.len() - i,
    {
        let e = if is_allowed_in_code(&v[i]) { None } else { Some(ParsingError::InvalidCodeAttributes) };
        proof {
            lemma_first_some_step(v@, i as int, code_attr_check());
        }
        if let Some(err) = e {
            proof {
                lemma_first_some_prefix(v@, i + 1, code_attr_check());
            }
            return Some(err);
        }
        i = i + 1;
    }
    proof {
        assert(v@.take(v@.len() as int) =~= v@);
    }
    None
}


/// The first misplaced attribute of a method or of its Code.
fn scan_method_attributes(v: &Vec<Attributes>) -> (r: Option<ParsingError>)
    ensures
        r == first_some(v@, method_attr_check()),
{
    let mut i: usize = 0;
    while i < v.len()
        invariant
            i <= v@.len(),
            first_some(v@.take(i as int), method_attr_check()) is None,
        decreases v@.len() - i,
    {
        let e = method_attribute_error(&v[i]);
        proof {
            lemma_first_some_step(v@, i as int, method_attr_check());
        }
        if let Some(err) = e {
            proof {
                lemma_first_some_prefix(v@, i + 1, method_attr_check());
            }
            return Some(err);
        }
        i = i + 1;
    }
    proof {
        assert(v@.take(v@.len() as int) =~= v@);
    }
    None
}


/// The first misplaced attribute among methods.
fn scan_methods(v: &Vec<MethodInfo>) -> (r: Option<ParsingError>)
    ensures
        r == first_some(v@, method_check()),
{
    let mut i: usize = 0;
    while i < v.len()
        invariant
            i <= v@.len(),
            first_some(v@.take(i as int), method_check()) is None,
        decreases v@.len() - i,
    {
        let e = scan_method_attributes(&v[i].attributes);
        proof {
            lemma_first_some_step(v@, i as int, method_check());
        }
        if let Some(err) = e {
            proof {
                lemma_first_some_prefix(v@, i + 1, method_check());
            }
            return Some(err);
        }
        i = i + 1;
    }
    proof {
        assert(v@.take(v@.len() as int) =~= v@);
    }
    None
}


/// The first misplaced attribute of the class or of its record components.
fn scan_class_attributes(v: &Vec<Attributes>) -> (r: Option<ParsingError>)
    ensures
        r == first_some(v@, class_attr_check()),
{
    let mut i: usize = 0;
    while i < v.len()
        invariant
            i <= v@.len(),
            first_some(v@.take(i as int), class_attr_check()) is None,
        decreases v@.len() - i,
    {
        let e = class_attribute_error(&v[i]);
        proof {
            lemma_first_some_step(v@, i as int, class_attr_check());
        }
        if let Some(err) = e {
            proof {
                lemma_first_some_prefix(v@, i + 1, class_attr_check());
            }
            return Some(err);
        }
        i = i + 1;
    }
    proof {
        assert(v@.take(v@.len() as int) =~= v@);
    }
    None
}


/// The first exception-table entry that breaks the rules.
fn scan_exception_table(cp: &Vec<CpNode>, v: &Vec<ExceptionTableAttrCode>, len: usize) -> (r: Option<ParsingError>)
    ensures
        r == first_some(v@, exception_check(cp@, len as int)),
{
    let mut i: usize = 0;
    while i < v.len()
        invariant
            i <= v@.len(),
            first_some(v@.take(i as int), exception_check(cp@, len as int)) is None,
        decreases v@.len() - i,
    {
        let e = exception_error(cp, &v[i], len);
        proof {
            lemma_first_some_step(v@, i as int, exception_check(cp@, len as int));
        }
        if let Some(err) = e {
            proof {
                lemma_first_some_prefix(v@, i + 1, exception_check(cp@, len as int));
            }
            return Some(err);
        }
        i = i + 1;
    }
    proof {
        assert(v@.take(v@.len() as int) =~= v@);
    }
    None
}


/// The first Code attribute, among a method's attributes, that breaks the rules.
fn scan_code_rules(cp: &Vec<CpNode>, v: &Vec<Attributes>) -> (r: Option<ParsingError>)
    ensures
        r == first_some(v@, code_rules_check(cp@)),
{
    let mut i: usize = 0;
    while i < v.len()
        invariant
            i <= v@.len(),
            first_some(v@.take(i as int), code_rules_check(cp@)) is None,
        decreases v@.len() - i,
    {
        let e = code_rules_error(cp, &v[i]);
        proof {
            lemma_first_some_step(v@, i as int, code_rules_check(cp@));
        }
        if let Some(err) = e {
            proof {
                lemma_first_some_prefix(v@, i + 1, code_rules_check(cp@));
            }
            return Some(err);
        }
        i = i + 1;
    }
    proof {
        assert(v@.take(v@.len() as int) =~= v@);
    }
    None
}


/// The first Code attribute, among all methods, that breaks the rules.
fn scan_method_code(cp: &Vec<CpNode>, v: &Vec<MethodInfo>) -> (r: Option<ParsingError>)
    ensures
        r == first_some(v@, method_code_check(cp@)),
{
    let mut i: usize = 0;
    while i < v.len()
        invariant
            i <= v@.len(),
            first_some(v@.take(i as int), method_code_check(cp@)) is None,
        decreases v@.len() - i,
    {
        let e = scan_code_rules(cp, &v[i].attributes);
        proof {
            lemma_first_some_step(v@, i as int, method_code_check(cp@));
        }
        if let Some(err) = e {
            proof {
                lemma_first_some_prefix(v@, i + 1, method_code_check(cp@));
            }
            return Some(err);
        }
        i = i + 1;
    }
    proof {
        assert(v@.take(v@.len() as int) =~= v@);
    }
    None
}


/// The first SourceFile attribute whose index is not a Utf8 entry.
fn scan_source_file(cp: &Vec<CpNode>, v: &Vec<Attributes>) -> (r: Option<ParsingError>)
    ensures
        r == first_some(v@, source_file_check(cp@)),
{
    let mut i: usize = 0;
    while i < v.len()
        invariant
            i <= v@.len(),
            first_some(v@.take(i as int), source_file_check(cp@)) is None,
        decreases v@.len() - i,
    {
        let e = source_file_error(cp, &v[i]);
        proof {
            lemma_first_some_step(v@, i as int, source_file_check(cp@));
        }
        if let Some(err) = e {
            proof {
                lemma_first_some_prefix(v@, i + 1, source_file_check(cp@));
            }
            return Some(err);
        }
        i = i + 1;
    }
    proof {
        assert(v@.take(v@.len() as int) =~= v@);
    }
    None
}


/// The first constant-pool entry that breaks the rules.
fn scan_cp(cp: &Vec<CpNode>, bsm: Option<usize>) -> (r: Option<ParsingError>)
    ensures
        r == first_some(cp@, cp_check(cp@, bsm)),
{
    let mut i: usize = 0;
    while i < cp.len()
        invariant
            i <= cp@.len(),
            first_some(cp@.take(i as int), cp_check(cp@, bsm)) is None,
        decreases cp@.len() - i,
    {
        let e = cp_node_check(cp, bsm, &cp[i]);
        proof {
            lemma_first_some_step(cp@, i as int, cp_check(cp@, bsm));
        }
        if let Some(err) = e {
            proof {
                lemma_first_some_prefix(cp@, i + 1, cp_check(cp@, bsm));
            }
            return Some(err);
        }
        i = i + 1;
    }
    proof {
        assert(cp@.take(cp@.len() as int) =~= cp@);
    }
    None
}


fn class_ref_error(cp: &Vec<CpNode>, i: u16, k: CpNodeError, field: &'static str) -> (r: Option<
    ParsingError,
>)
    ensures
        r == class_ref_check(cp@, i as int, k, field),
{
    if points_to_kind(cp, i, k) {
        None
    } else {
        Some(ParsingError::InvalidIndexFromClassToNode(k, field))
    }
}

fn member_names_error(cp: &Vec<CpNode>, name_index: U2, descriptor_index: U2) -> (r: Option<
    ParsingError,
>)
    ensures
        r == or_else(
            class_ref_check(cp@, name_index.0 as int, CpNodeError::Utf8, "name_index"),
            class_ref_check(cp@, descriptor_index.0 as int, CpNodeError::Utf8, "descriptor_index"),
        ),
{
    match class_ref_error(cp, name_index.0, CpNodeError::Utf8, "name_index") {
        Some(e) => Some(e),
        None => class_ref_error(cp, descriptor_index.0, CpNodeError::Utf8, "descriptor_index"),
    }
}

/// The first interface index that is not a Class entry.
fn scan_interfaces(cp: &Vec<CpNode>, v: &Vec<U2>) -> (r: Option<ParsingError>)
    ensures
        r == first_some(v@, interface_check(cp@)),
{
    let mut i: usize = 0;
    while i < v.len()
        invariant
            i <= v@.len(),
            first_some(v@.take(i as int), interface_check(cp@)) is None,
        decreases v@.len() - i,
    {
        let e = class_ref_error(cp, v[i].0, CpNodeError::Class, "interfaces");
        proof {
            lemma_first_some_step(v@, i as int, interface_check(cp@));
        }
        if let Some(err) = e {
            proof {
                lemma_first_some_prefix(v@, i + 1, interface_check(cp@));
            }
            return Some(err);
        }
        i = i + 1;
    }
    proof {
        assert(v@.take(v@.len() as int) =~= v@);
    }
    None
}


/// The first field whose name or descriptor is not a Utf8 entry.
fn scan_field_names(cp: &Vec<CpNode>, v: &Vec<FieldInfo>) -> (r: Option<ParsingError>)
    ensures
        r == first_some(v@, field_name_check(cp@)),
{
    let mut i: usize = 0;
    while i < v.len()
        invariant
            i <= v@.len(),
            first_some(v@.take(i as int), field_name_check(cp@)) is None,
        decreases v@.len() - i,
    {
        let e = member_names_error(cp, v[i].name_index, v[i].descriptor_index);
        proof {
            lemma_first_some_step(v@, i as int, field_name_check(cp@));
        }
        if let Some(err) = e {
            proof {
                lemma_first_some_prefix(v@, i + 1, field_name_check(cp@));
            }
            return Some(err);
        }
        i = i + 1;
    }
    proof {
        assert(v@.take(v@.len() as int) =~= v@);
    }
    None
}


/// The first method whose name or descriptor is not a Utf8 entry.
fn scan_method_names(cp: &Vec<CpNode>, v: &Vec<MethodInfo>) -> (r: Option<ParsingError>)
    ensures
        r == first_some(v@, method_name_check(cp@)),
{
    let mut i: usize = 0;
    while i < v.len()
        invariant
            i <= v@.len(),
            first_some(v@.take(i as int), method_name_check(cp@)) is None,
        decreases v@.len() - i,
    {
        let e = member_names_error(cp, v[i].name_index, v[i].descriptor_index);
        proof {
            lemma_first_some_step(v@, i as int, method_name_check(cp@));
        }
        if let Some(err) = e {
            proof {
                lemma_first_some_prefix(v@, i + 1, method_name_check(cp@));
            }
            return Some(err);
        }
        i = i + 1;
    }
    proof {
        assert(v@.take(v@.len() as int) =~= v@);
    }
    None
}

/// The rules on the indices that the class file itself holds.
fn class_refs_check(c: &ClassFile) -> (r: Option<ParsingError>)
    ensures
        r == class_refs_error(*c),
{
    let i = c.this_class.0;
    let resolves = if i == 0 || i as usize > c.cp.len() {
        false
    } else {
        match &c.cp[i as usize - 1] {
            CpNode::Class(x) => utf8_at(&c.cp, x.name_index.0).is_some(),
            _ => false,
        }
    };
    if !resolves {
        return Some(ParsingError::InvalidIndexFromClassToNode(CpNodeError::Class, "this_class"));
    }
    if c.super_class.0 != 0 && !points_to_kind(&c.cp, c.super_class.0, CpNodeError::Class) {
        return Some(ParsingError::InvalidIndexFromClassToNode(CpNodeError::Class, "super_class"));
    }
    if let Some(e) = scan_interfaces(&c.cp, &c.interfaces) {
        return Some(e);
    }
    if let Some(e) = scan_field_names(&c.cp, &c.fields) {
        return Some(e);
    }
    scan_method_names(&c.cp, &c.methods)
}

/// Whether every Long and Double is followed by a sentinel slot, and every
/// sentinel follows one.
fn pool_layout_ok(cp: &Vec<CpNode>) -> (r: bool)
    ensures
        r == pool_shape(cp@),
{
    let n = cp.len();
    let mut i: usize = 0;
    while i < n
        invariant
            n == cp@.len(),
            i <= n,
            forall|j: int|
                0 <= j < i ==> {
                    &&& (is_wide(#[trigger] cp@[j]) ==> j + 1 < cp@.len() && cp@[j + 1] is Sentinel)
                    &&& (cp@[j] is Sentinel ==> j > 0 && is_wide(cp@[j - 1]))
                },
        decreases n - i,
    {
        let wide = match &cp[i] {
            CpNode::Long(_) | CpNode::Double(_) => true,
            _ => false,
        };
        if wide {
            if i + 1 >= n {
                return false;
            }
            if !matches!(&cp[i + 1], CpNode::Sentinel) {
                return false;
            }
        }
        if let CpNode::Sentinel = &cp[i] {
            if i == 0 {
                return false;
            }
            let prev_wide = match &cp[i - 1] {
                CpNode::Long(_) | CpNode::Double(_) => true,
                _ => false,
            };
            if !prev_wide {
                return false;
            }
        }
        i = i + 1;
    }
    true
}

/// Each recorded position holds a BootstrapMethods attribute.
pub proof fn lemma_bsm_positions(s: Seq<Attributes>)
    requires
        s.len() <= usize::MAX,
    ensures
        forall|k: int|
            0 <= k < bsm_positions(s).len() ==> (#[trigger] bsm_positions(s)[k]) < s.len()
                && s[bsm_positions(s)[k] as int] is BootstrapMethods,
    decreases s.len(),
{
    if s.len() > 0 {
        lemma_bsm_positions(s.drop_last());
        assert forall|k: int| 0 <= k < bsm_positions(s).len() implies (
        #[trigger] bsm_positions(s)[k]) < s.len() && s[bsm_positions(s)[k] as int] is BootstrapMethods by {
            let prev = bsm_positions(s.drop_last());
            if k < prev.len() {
                assert(bsm_positions(s)[k] == prev[k]);
                assert(s.drop_last()[prev[k] as int] == s[prev[k] as int]);
            } else {
                assert(s.last() is BootstrapMethods);
                assert(bsm_positions(s)[k] == (s.len() - 1) as usize);
            }
        }
    }
}

/// Whether the attributes suit a module class: only the kinds it may carry,
/// and exactly one Module attribute.
fn module_attributes_ok(v: &Vec<Attributes>) -> (r: bool)
    ensures
        r == ((forall|i: int| 0 <= i < v@.len() ==> allowed_in_module(#[trigger] v@[i]))
            && module_count(v@) == 1),
{
    let mut count: usize = 0;
    let mut i: usize = 0;
    while i < v.len()
        invariant
            i <= v@.len(),
            count == module_count(v@.take(i as int)),
            count <= i,
            forall|j: int| 0 <= j < i ==> allowed_in_module(#[trigger] v@[j]),
        decreases v@.len() - i,
    {
        if !is_allowed_in_module(&v[i]) {
            return false;
        }
        proof {
            assert(v@.take(i + 1).drop_last() =~= v@.take(i as int));
        }
        if let Attributes::Module(_) = &v[i] {
            count = count + 1;
        }
        i = i + 1;
    }
    proof {
        assert(v@.take(v@.len() as int) =~= v@);
    }
    count == 1
}

/// Whether `this_class` is a Class entry that names "module-info".
fn this_class_is_module_info(c: &ClassFile) -> (r: bool)
    ensures
        r == is_module_info(*c),
{
    let i = c.this_class.0;
    if i == 0 || i as usize > c.cp.len() {
        return false;
    }
    match &c.cp[i as usize - 1] {
        CpNode::Class(x) => match utf8_at(&c.cp, x.name_index.0) {
            Some(u) => bytes_eq(u.bytes.as_slice(), "module-info".as_bytes()),
            None => false,
        },
        _ => false,
    }
}

/// The semantic checks of a parsed class file.
pub struct Verifier {
    class: ClassFile,
    bootstrap_methods: Vec<usize>,
}

impl Verifier {
    /// The class under verification.
    pub closed spec fn class_of(&self) -> ClassFile {
        self.class
    }

    /// The recorded positions are those of the class's BootstrapMethods attributes.
    pub closed spec fn wf(&self) -> bool {
        self.bootstrap_methods@ == bsm_positions(self.class.attributes@)
    }

    /// Takes the class, noting where its BootstrapMethods attributes stand.
    pub fn new(class: ClassFile) -> (r: Self)
        ensures
            r.class_of() == class,
            r.wf(),
    {
        let mut bootstrap_methods: Vec<usize> = Vec::new();
        let mut i: usize = 0;
        while i < class.attributes.len()
            invariant
                i <= class.attributes@.len(),
                bootstrap_methods@ == bsm_positions(class.attributes@.take(i as int)),
            decreases class.attributes@.len() - i,
        {
            proof {
                assert(class.attributes@.take(i + 1).drop_last() =~= class.attributes@.take(
                    i as int,
                ));
            }
            if let Attributes::BootstrapMethods(_) = &class.attributes[i] {
                bootstrap_methods.push(i);
            }
            i = i + 1;
        }
        proof {
            assert(class.attributes@.take(class.attributes@.len() as int) =~= class.attributes@);
        }
        Self { class, bootstrap_methods }
    }

    /// The number of bootstrap methods, when there is exactly one
    /// BootstrapMethods attribute.
    fn bsm(&self) -> (r: Option<usize>)
        requires
            self.wf(),
        ensures
            r == bsm_count(self.class_of()),
    {
        if self.bootstrap_methods.len() != 1 {
            return None;
        }
        let p = self.bootstrap_methods[0];
        let n = self.class.attributes.len();
        proof {
            assert(self.class.attributes@.len() == n);
            lemma_bsm_positions(self.class.attributes@);
            assert(bsm_positions(self.class.attributes@)[0] == p);
        }
        match &self.class.attributes[p] {
            Attributes::BootstrapMethods(b) => Some(b.bootstrap_methods.len()),
            _ => None,
        }
    }

    /// The checks of one constant-pool entry against the rest of the class.
    pub fn verify_cp_node(&self, node: &CpNode) -> (r: Result<(), ParsingError>)
        requires
            self.wf(),
        ensures
            r == to_result(cp_node_error(self.class_of().cp@, bsm_count(self.class_of()), *node)),
    {
        match cp_node_check(&self.class.cp, self.bsm(), node) {
            Some(e) => Err(e),
            None => Ok(()),
        }
    }

    /// The access-flag rules, and the shape of a module class.
    fn verify_flags(&self) -> (r: Result<(), ParsingError>)
        ensures
            r == to_result(flags_error(self.class_of())),
    {
        let c = &self.class;
        let f = c.access_flags.0;
        if f & MODULE != 0 {
            if f != MODULE {
                if f & INTERFACE != 0 {
                    return Err(ParsingError::IllegalFlagsWhileInterface);
                } else {
                    return Err(ParsingError::IllegalFlagsWhileNonInterface);
                }
            }
            if c.major_v.0 < MIN_MODULE_MAJOR_VERSION {
                return Err(ParsingError::InvalidVersionAsModule);
            }
            if !this_class_is_module_info(c) {
                return Err(ParsingError::ThisClassNotModuleInfoAsModule);
            }
            if c.super_class.0 != 0 || c.interfaces.len() != 0 || c.fields.len() != 0
                || c.methods.len() != 0 {
                return Err(ParsingError::VarsNotZeroAsModule);
            }
            if !module_attributes_ok(&c.attributes) {
                return Err(ParsingError::InvalidAttributesAsModule);
            }
            Ok(())
        } else if f & INTERFACE != 0 {
            if f & ABSTRACT == 0 {
                Err(ParsingError::InterfaceWithoutAbstract)
            } else if f & FINAL != 0 || f & SUPER != 0 || f & ENUM != 0 {
                Err(ParsingError::IllegalFlagsWhileInterface)
            } else {
                Ok(())
            }
        } else if f & ANNOTATION != 0 {
            Err(ParsingError::IllegalFlagsWhileNonInterface)
        } else if f & FINAL != 0 && f & ABSTRACT != 0 {
            Err(ParsingError::FinalAndAbstractWhileNonInterface)
        } else {
            Ok(())
        }
    }

    /// The attribute-location rules: class, record components, fields,
    /// methods and Code attributes.
    fn verify_attributes(&self) -> (r: Result<(), ParsingError>)
        ensures
            r == to_result(location_error(self.class_of())),
    {
        if let Some(e) = scan_class_attributes(&self.class.attributes) {
            return Err(e);
        }
        if let Some(e) = scan_fields(&self.class.fields) {
            return Err(e);
        }
        if let Some(e) = scan_methods(&self.class.methods) {
            return Err(e);
        }
        Ok(())
    }

    /// The rules on the class's own attributes: SourceFile indices, and at
    /// most one BootstrapMethods attribute.
    fn verify_class_attributes(&self) -> (r: Result<(), ParsingError>)
        requires
            self.wf(),
        ensures
            r == to_result(class_attributes_error(self.class_of())),
    {
        if let Some(e) = scan_source_file(&self.class.cp, &self.class.attributes) {
            return Err(e);
        }
        if self.bootstrap_methods.len() > 1 {
            return Err(ParsingError::InvalidAmountOfBootStrapMethodsInClass);
        }
        Ok(())
    }

    /// Checks every rule on the class and hands it back when it breaks none;
    /// otherwise fails with the first rule that it breaks.
    pub fn verify(self) -> (r: Result<ClassFile, ParsingError>)
        requires
            self.wf(),
        ensures
            r == verify_result(self.class_of()),
    {
        let major = self.class.major_v.0;
        let minor = self.class.minor_v.0;
        if major < MIN_MAJOR_VERSION || major > MAX_MAJOR_VERSION {
            return Err(ParsingError::InvalidMajorV);
        }
        if major >= STRICT_MINOR_MAJOR_VERSION && minor != 0 && minor != 65535 {
            return Err(ParsingError::InvalidMinorV);
        }
        if !pool_layout_ok(&self.class.cp) {
            return Err(ParsingError::InvalidConstantPoolLayout);
        }
        if let Some(e) = scan_cp(&self.class.cp, self.bsm()) {
            return Err(e);
        }
        if let Some(e) = class_refs_check(&self.class) {
            return Err(e);
        }
        if let Err(e) = self.verify_flags() {
            return Err(e);
        }
        if let Err(e) = self.verify_attributes() {
            return Err(e);
        }
        if let Err(e) = self.verify_class_attributes() {
            return Err(e);
        }
        if let Some(e) = scan_method_code(&self.class.cp, &self.class.methods) {
            return Err(e);
        }
        Ok(self.class)
    }
}

} // verus!
