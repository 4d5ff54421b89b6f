use vstd::prelude::*;

verus! {

/// Constant-pool variants, as named in cross-reference errors.
#[derive(Debug, Clone, Copy, PartialEq, Eq, Structural)]
pub enum CpNodeError {
    Class,
    String,
    MethodType,
    Module,
    Package,
    Integer,
    Float,
    Dynamic,
    NameAndType,
    InvokeDynamic,
    FieldRef,
    MethodRef,
    InterfaceMethodRef,
    Long,
    Double,
    MethodHandle,
    Utf8,
    Sentinel,
}

/// Attribute kinds, as named in cross-reference errors.
#[derive(Debug, Clone, Copy, PartialEq, Eq, Structural)]
pub enum Attributes {
    Value,
    Code,
    StackMapTable,
    Exceptions,
    InnerClass,
    EnclosingMethod,
    Synthetic,
    Signature,
    SourceFile,
    SourceDebugExt,
    LineNumberTable,
    LocalVariableTable,
    LocalVariableTypeTable,
    Deprecated,
    RuntimeVisibleAnnotations,
    RuntimeInvisibleAnnotations,
    RuntimeVisibleParameterAnnotations,
    RuntimeInvisibleParameterAnnotations,
    RuntimeVisibleTypeAnnotations,
    RuntimeInvisibleTypeAnnotations,
    AnnotationDefault,
    BootstrapMethods,
    MethodParameters,
    Module,
    ModulePackages,
    ModuleMainClass,
    NestHost,
    NestMembers,
    Record,
    PermittedSubclasses,
}

/// Every way in which parsing or verifying a class file can fail.
#[derive(Debug)]
pub enum ParsingError {
    // Structural errors, raised while decoding bytes.
    EndOfInput,
    Magic,
    ConstantPoolTag(u8),
    AttributeNotUtf8,
    InvalidElementValue(u8),
    InvalidTargetType(u8),
    InvalidFrameType(u8),
    InvalidTagVerificationTypeInfo(u8),
    InvalidAttribute(Vec<u8>),
    Utf8Decode,
    AttributeLengthMismatch,
    NestingTooDeep,
    TrailingBytes,
    // Version and access-flag errors.
    InvalidMajorV,
    InvalidMinorV,
    InterfaceWithoutAbstract,
    IllegalFlagsWhileInterface,
    IllegalFlagsWhileNonInterface,
    FinalAndAbstractWhileNonInterface,
    AnnotationWithoutInterface,
    InvalidVersionAsModule,
    ThisClassNotModuleInfoAsModule,
    VarsNotZeroAsModule,
    InvalidAttributesAsModule,
    // Cross-reference errors.
    InvalidIndexFromNodeToNode(CpNodeError, CpNodeError, &'static str),
    InvalidIndexFromAttributeToNode(Attributes, CpNodeError, &'static str),
    InvalidIndexFromClassToNode(CpNodeError, &'static str),
    InvalidConstantPoolLayout,
    BinaryNameContainsDot,
    InvalidReferenceKind,
    MethodHandle1to4NotPointingToFieldRef,
    MethodHandle5or8NotPointingToMethodRef,
    BootstrapMethodAttrIndexInDynamicAttributeIsNotValidIndex,
    BootstrapMethodAttrIndexInInvokeDynamicAttributeIsNotValidIndex,
    InvalidAmountOfBootStrapMethodsInClass,
    CodeAttributeCodeLength,
    InvalidIndexesInCodeAttribute,
    // Attribute-location errors.
    InvalidClassAttributes,
    InvalidFieldInfoAttributes,
    InvalidMethodInfoAttributes,
    InvalidCodeAttributes,
    InvalidRecordComponentInfoAttributes,
}

} // verus!
