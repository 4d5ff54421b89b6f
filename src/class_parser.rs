use vstd::prelude::*;

pub mod annotations;
pub mod attributes;
pub mod constant_pool;
pub mod encoding;
pub mod reader;
pub mod stack_map;
pub mod structure;
pub mod tables;

verus! {

pub type U1 = u8;

pub type U4 = u32;

/// A big-endian 16-bit quantity read from a class file.
#[derive(Debug, Clone, Copy, PartialEq, Eq, Structural)]
pub struct U2(pub u16);

impl U2 {
    /// The value.
    pub fn to_u2(self) -> (r: u16)
        ensures
            r == self.0,
    {
        self.0
    }
}

/// One slot of the constant pool; `Sentinel` fills the slot after a Long or Double.
#[derive(Debug)]
pub enum CpNode {
    Class(Class),
    String(StringCp),
    MethodType(MethodType),
    Module(ModuleCp),
    Package(Package),
    Integer(Integer),
    Float(Float),
    Dynamic(Dynamic),
    NameAndType(NameAndType),
    InvokeDynamic(InvokeDynamic),
    FieldRef(Fieldref),
    MethodRef(Methodref),
    InterfaceMethodRef(InterfaceMethodref),
    Long(Long),
    Double(Double),
    MethodHandle(MethodHandle),
    Utf8(Utf8),
    Sentinel,
}

/// A decoded attribute, one variant per recognized attribute name.
#[derive(Debug)]
pub enum Attributes {
    Value(Value),
    Code(AttrCode),
    StackMapTable(StackMapTable),
    Exceptions(Exceptions),
    InnerClass(InnerClass),
    EnclosingMethod(EnclosingMethod),
    Synthetic(Synthetic),
    Signature(Signature),
    SourceFile(SourceFile),
    SourceDebugExt(SourceDebugExt),
    LineNumberTable(LineNumberTable),
    LocalVariableTable(LocalVariableTable),
    LocalVariableTypeTable(LocalVariableTypeTable),
    Deprecated(Deprecated),
    RuntimeVisibleAnnotations(RuntimeVisibleAnnotations),
    RuntimeInvisibleAnnotations(RuntimeInvisibleAnnotations),
    RuntimeVisibleParameterAnnotations(RuntimeVisibleParameterAnnotations),
    RuntimeInvisibleParameterAnnotations(RuntimeInvisibleParameterAnnotations),
    RuntimeVisibleTypeAnnotations(RuntimeVisibleTypeAnnotations),
    RuntimeInvisibleTypeAnnotations(RuntimeInvisibleTypeAnnotations),
    AnnotationDefault(AnnotationDefault),
    BootstrapMethods(BootStrapMethods),
    MethodParameters(MethodParameters),
    Module(Module),
    ModulePackages(ModulePackages),
    ModuleMainClass(ModuleMainClass),
    NestHost(NestHost),
    NestMembers(NestMembers),
    Record(Record),
    PermittedSubclasses(PermittedSubclasses),
}

/// The target of a type annotation.
#[derive(Debug)]
pub enum TargetInfo {
    TypeParameterTarget(TypeParameterTarget),
    Supertype(Supertype),
    TypeParameterBound(TypeParameterBound),
    Empty,
    FormalParameter(FormalParameter),
    Throws(Throws),
    Localvar(Localvar),
    Catch(Catch),
    Offset(Offset),
    TypeArgument(TypeArgument),
}

/// The value of an annotation element.
#[derive(Debug)]
pub enum ElementValue {
    ConstValueIndex(U2),
    EnumConstValue(EnumConstValue),
    ClassInfoIndex(U2),
    AnnotationValue(Annotation),
    ArrayValue(ArrayValue),
}

/// One frame of a StackMapTable, selected by its frame_type.
#[derive(Debug)]
pub enum StackMapFrame {
    SameFrame(SameFrame),
    SameLocals1StackItemFrame(SameLocals1StackItemFrame),
    SameLocals1StackItemFrameExtended(SameLocals1StackItemFrameExtended),
    ChopFrame(ChopFrame),
    SameFrameExtended(SameFrameExtended),
    AppendFrame(AppendFrame),
    FullFrame(FullFrame),
}

/// A verification type of a stack-map frame, selected by its tag.
#[derive(Debug)]
pub enum VerificationTypeInfo {
    TopVariableInfo(TopVariableInfo),
    IntegerVariableInfo(IntegerVariableInfo),
    FloatVariableInfo(FloatVariableInfo),
    DoubleVariableInfo(DoubleVariableInfo),
    LongVariableInfo(LongVariableInfo),
    NullVariableInfo(NullVariableInfo),
    UninitializedThisVariableInfo(UninitializedThisVariableInfo),
    ObjectVariableInfo(ObjectVariableInfo),
    UninitializedVariableInfo(UninitializedVariableInfo),
}

#[derive(Debug)]
pub struct SameFrame {
    pub frame_type: u8,
}

#[derive(Debug)]
pub struct SameLocals1StackItemFrame {
    pub frame_type: u8,
    pub stack: VerificationTypeInfo,
}

#[derive(Debug)]
pub struct SameLocals1StackItemFrameExtended {
    pub frame_type: u8,
    pub offset_delta: U2,
    pub stack: VerificationTypeInfo,
}

#[derive(Debug)]
pub struct ChopFrame {
    pub frame_type: u8,
    pub offset_delta: U2,
}

#[derive(Debug)]
pub struct SameFrameExtended {
    pub frame_type: u8,
    pub offset_delta: U2,
}

#[derive(Debug)]
pub struct AppendFrame {
    pub frame_type: u8,
    pub offset_delta: U2,
    pub locals: Vec<VerificationTypeInfo>,
}

#[derive(Debug)]
pub struct FullFrame {
    pub frame_type: u8,
    pub offset_delta: U2,
    pub locals: Vec<VerificationTypeInfo>,
    pub stack: Vec<VerificationTypeInfo>,
}

#[derive(Debug)]
pub struct TopVariableInfo {
    pub tag: u8,
}

#[derive(Debug)]
pub struct IntegerVariableInfo {
    pub tag: u8,
}

#[derive(Debug)]
pub struct FloatVariableInfo {
    pub tag: u8,
}

#[derive(Debug)]
pub struct DoubleVariableInfo {
    pub tag: u8,
}

#[derive(Debug)]
pub struct LongVariableInfo {
    pub tag: u8,
}

#[derive(Debug)]
pub struct NullVariableInfo {
    pub tag: u8,
}

#[derive(Debug)]
pub struct UninitializedThisVariableInfo {
    pub tag: u8,
}

#[derive(Debug)]
pub struct ObjectVariableInfo {
    pub tag: u8,
    pub cp_index: U2,
}

#[derive(Debug)]
pub struct UninitializedVariableInfo {
    pub tag: u8,
    pub offset: U2,
}

#[derive(Debug)]
pub struct PermittedSubclasses {
    pub classes: Vec<U2>,
}

#[derive(Debug)]
pub struct RecordComponentInfo {
    pub name_index: U2,
    pub descriptor_index: U2,
    pub attributes: Vec<Attributes>,
}

#[derive(Debug)]
pub struct Record {
    pub components: Vec<RecordComponentInfo>,
}

#[derive(Debug)]
pub struct ModulePackages {
    pub package_index: Vec<U2>,
}

#[derive(Debug)]
pub struct ModuleMainClass {
    pub main_class_index: U2,
}

#[derive(Debug)]
pub struct NestHost {
    pub host_class_index: U2,
}

#[derive(Debug)]
pub struct NestMembers {
    pub classes: Vec<U2>,
}

#[derive(Debug)]
pub struct ModuleRequires {
    pub requires_index: U2,
    pub requires_flags: U2,
    pub require_version_index: U2,
}

#[derive(Debug)]
pub struct ModuleExports {
    pub exports_index: U2,
    pub exports_flags: U2,
    pub exports_to_index: Vec<U2>,
}

#[derive(Debug)]
pub struct ModuleOpens {
    pub opens_index: U2,
    pub opens_flags: U2,
    pub opens_to_index: Vec<U2>,
}

#[derive(Debug)]
pub struct ModuleProvides {
    pub provides_index: U2,
    pub provides_with_index: Vec<U2>,
}

#[derive(Debug)]
pub struct Module {
    pub module_name_index: U2,
    pub module_flags: U2,
    pub module_version_index: U2,
    pub requires: Vec<ModuleRequires>,
    pub exports: Vec<ModuleExports>,
    pub opens: Vec<ModuleOpens>,
    pub uses_index: Vec<U2>,
    pub provides: Vec<ModuleProvides>,
}

#[derive(Debug)]
pub struct MethodParametersInner {
    pub name_index: U2,
    pub access_flags: U2,
}

#[derive(Debug)]
pub struct MethodParameters {
    pub parameters: Vec<MethodParametersInner>,
}

#[derive(Debug)]
pub struct AnnotationDefault {
    pub default_value: ElementValue,
}

#[derive(Debug)]
pub struct RuntimeInvisibleTypeAnnotations {
    pub annotations: Vec<TypeAnnotation>,
}

#[derive(Debug)]
pub struct TypePathInner {
    pub type_path_kind: U1,
    pub type_argument_index: U1,
}

#[derive(Debug)]
pub struct TypePath {
    pub path: Vec<TypePathInner>,
}

#[derive(Debug)]
pub struct TypeAnnotationInner {
    pub element_name_index: U2,
    pub value: ElementValue,
}

#[derive(Debug)]
pub struct TypeAnnotation {
    pub target_info: TargetInfo,
    pub target_path: TypePath,
    pub type_index: U2,
    pub num_element_value_pairs: U2,
    pub element_value_pairs: Vec<TypeAnnotationInner>,
}

#[derive(Debug)]
pub struct RuntimeVisibleTypeAnnotations {
    pub type_annotation: Vec<TypeAnnotation>,
}

#[derive(Debug)]
pub struct RuntimeInvisibleAnnotations {
    pub annotations: Vec<Annotation>,
}

#[derive(Debug)]
pub struct ParameterAnnotationsRuntimeParameterAnnotationsAttr {
    pub annotations: Vec<Annotation>,
}

#[derive(Debug)]
pub struct RuntimeInvisibleParameterAnnotations {
    pub parameter_annotations: Vec<ParameterAnnotationsRuntimeParameterAnnotationsAttr>,
}

#[derive(Debug)]
pub struct RuntimeVisibleParameterAnnotations {
    pub parameter_annotations: Vec<ParameterAnnotationsRuntimeParameterAnnotationsAttr>,
}

#[derive(Debug)]
pub struct EnumConstValue {
    pub type_name_index: U2,
    pub const_name_index: U2,
}

#[derive(Debug)]
pub struct ArrayValue {
    pub element_value: Vec<ElementValue>,
}

#[derive(Debug)]
pub struct AnnotationInner {
    pub element_name_index: U2,
    pub value: ElementValue,
}

#[derive(Debug)]
pub struct Annotation {
    pub type_index: U2,
    pub element_value_pairs: Vec<AnnotationInner>,
}

#[derive(Debug)]
pub struct RuntimeVisibleAnnotations {
    pub annotations: Vec<Annotation>,
}

#[derive(Debug)]
pub struct LineNumberTableAttrInner {
    pub start_pc: U2,
    pub line_number: U2,
}

#[derive(Debug)]
pub struct LocalVariableTypeTableAttrInner {
    pub start_pc: U2,
    pub length: U2,
    pub name_index: U2,
    pub signature_index: U2,
    pub index: U2,
}

#[derive(Debug)]
pub struct LocalVariableTypeTable {
    pub local_variable_type_table: Vec<LocalVariableTypeTableAttrInner>,
}

#[derive(Debug)]
pub struct Deprecated;

#[derive(Debug)]
pub struct LocalVariableTableAttrInner {
    pub start_pc: U2,
    pub length: U2,
    pub name_index: U2,
    pub descriptor_index: U2,
    pub index: U2,
}

#[derive(Debug)]
pub struct LocalVariableTable {
    pub local_variable_table: Vec<LocalVariableTableAttrInner>,
}

#[derive(Debug)]
pub struct LineNumberTable {
    pub line_number_table: Vec<LineNumberTableAttrInner>,
}

#[derive(Debug)]
pub struct SourceDebugExt {
    pub debug_extension: Vec<u8>,
}

#[derive(Debug)]
pub struct ExceptionTableAttrCode {
    pub start_pc: U2,
    pub end_pc: U2,
    pub handler_pc: U2,
    pub catch_type: U2,
}

/// A Code attribute: bytecode, exception handlers and nested attributes.
#[derive(Debug)]
pub struct AttrCode {
    pub max_stack: U2,
    pub max_locals: U2,
    pub code: Vec<u8>,
    pub exception_table: Vec<ExceptionTableAttrCode>,
    pub attributes: Vec<Attributes>,
}

#[derive(Debug)]
pub struct Synthetic;

#[derive(Debug)]
pub struct Signature {
    pub signature_index: U2,
}

#[derive(Debug)]
pub struct SourceFile {
    pub sourcefile_index: U2,
}

#[derive(Debug)]
pub struct EnclosingMethod {
    pub class_index: U2,
    pub method_index: U2,
}

#[derive(Debug)]
pub struct ClassesInnerClassAttr {
    pub inner_class_info_index: U2,
    pub outer_class_info_index: U2,
    pub inner_name_index: U2,
    pub inner_class_access_flags: U2,
}

#[derive(Debug)]
pub struct InnerClass {
    pub classes: Vec<ClassesInnerClassAttr>,
}

#[derive(Debug)]
pub struct StackMapTable {
    pub entries: Vec<StackMapFrame>,
}

#[derive(Debug)]
pub struct BootStrapMethodsInner {
    pub bootstrap_method_ref: U2,
    pub bootstrap_arguments: Vec<U2>,
}

#[derive(Debug)]
pub struct BootStrapMethods {
    pub bootstrap_methods: Vec<BootStrapMethodsInner>,
}

#[derive(Debug)]
pub struct Value {
    pub value_index: U2,
}

#[derive(Debug)]
pub struct Exceptions {
    pub exception_index_table: Vec<U2>,
}

/// A field_info entry.
#[derive(Debug)]
pub struct FieldInfo {
    pub access_flags: U2,
    pub name_index: U2,
    pub descriptor_index: U2,
    pub attributes: Vec<Attributes>,
}

/// A method_info entry.
#[derive(Debug)]
pub struct MethodInfo {
    pub access_flags: U2,
    pub name_index: U2,
    pub descriptor_index: U2,
    pub attributes: Vec<Attributes>,
}

/// A decoded class file. Indices into `cp` are kept as read: 1-based.
#[derive(Debug)]
pub struct ClassFile {
    pub minor_v: U2,
    pub major_v: U2,
    pub cp: Vec<CpNode>,
    pub access_flags: U2,
    pub this_class: U2,
    pub super_class: U2,
    pub interfaces: Vec<U2>,
    pub fields: Vec<FieldInfo>,
    pub methods: Vec<MethodInfo>,
    pub attributes: Vec<Attributes>,
}

#[derive(Debug)]
pub struct TypeParameterTarget {
    pub type_parameter_index: U1,
}

#[derive(Debug)]
pub struct Supertype {
    pub supertype_index: U2,
}

#[derive(Debug)]
pub struct TypeParameterBound {
    pub type_parameter_index: U1,
    pub bound_index: U1,
}

#[derive(Debug)]
pub struct FormalParameter {
    pub formal_parameter_index: U1,
}

#[derive(Debug)]
pub struct Throws {
    pub throws_type_index: U1,
}

#[derive(Debug)]
pub struct Localvar {
    pub table: Vec<LocalvarInner>,
}

#[derive(Debug)]
pub struct LocalvarInner {
    pub start_pc: U2,
    pub length: U2,
    pub index: U2,
}

#[derive(Debug)]
pub struct Catch {
    pub exception_table_index: U2,
}

#[derive(Debug)]
pub struct Offset {
    pub offset: U2,
}

#[derive(Debug)]
pub struct TypeArgument {
    pub offset: U2,
    pub type_argument_index: U1,
}

#[derive(Debug)]
pub struct Class {
    pub name_index: U2,
}

#[derive(Debug)]
pub struct Fieldref {
    pub class_index: U2,
    pub name_and_type_index: U2,
}

#[derive(Debug)]
pub struct Methodref {
    pub class_index: U2,
    pub name_and_type_index: U2,
}

#[derive(Debug)]
pub struct InterfaceMethodref {
    pub class_index: U2,
    pub name_and_type_index: U2,
}

#[derive(Debug)]
pub struct StringCp {
    pub string_index: U2,
}

#[derive(Debug)]
pub struct Integer {
    pub bytes: U4,
}

#[derive(Debug)]
pub struct Float {
    pub bytes: U4,
}

#[derive(Debug)]
pub struct Long {
    pub high_bytes: U4,
    pub low_bytes: U4,
}

#[derive(Debug)]
pub struct Double {
    pub high_bytes: U4,
    pub low_bytes: U4,
}

#[derive(Debug)]
pub struct NameAndType {
    pub name_index: U2,
    pub descriptor_index: U2,
}

/// The bytes of a Utf8 constant; the parser admits only valid UTF-8.
#[derive(Debug)]
pub struct Utf8 {
    pub bytes: Vec<u8>,
}

#[derive(Debug)]
pub struct MethodHandle {
    pub reference_kind: u8,
    pub reference_index: U2,
}

#[derive(Debug)]
pub struct MethodType {
    pub descriptor_index: U2,
}

#[derive(Debug)]
pub struct Dynamic {
    pub bootstrap_method_attr_index: U2,
    pub name_and_type_index: U2,
}

#[derive(Debug)]
pub struct InvokeDynamic {
    pub bootstrap_method_attr_index: U2,
    pub name_and_type_index: U2,
}

#[derive(Debug)]
pub struct ModuleCp {
    pub name_index: U2,
}

#[derive(Debug)]
pub struct Package {
    pub name_index: U2,
}

} // verus!
