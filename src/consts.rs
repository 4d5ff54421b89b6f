use vstd::prelude::*;

pub mod class_acc_flags;

verus! {

/// The four bytes that open every class file.
pub const MAGIC: u32 = 0xCAFEBABE;

/// Oldest class-file major version accepted by the verifier.
pub const MIN_MAJOR_VERSION: u16 = 45;

/// Newest class-file major version accepted by the verifier.
pub const MAX_MAJOR_VERSION: u16 = 61;

/// First major version that may carry `ACC_MODULE`.
pub const MIN_MODULE_MAJOR_VERSION: u16 = 53;

/// From this major version on, the minor version must be 0 or 65535.
pub const STRICT_MINOR_MAJOR_VERSION: u16 = 56;

/// Deepest nesting of attribute lists (class, then Code or Record, ...).
pub const MAX_ATTRIBUTE_DEPTH: u32 = 4;

/// Deepest nesting of annotation element values.
pub const MAX_ELEMENT_VALUE_DEPTH: u32 = 16;

} // verus!
