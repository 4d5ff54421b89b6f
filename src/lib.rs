//! A decoder and verifier for JVM class files.
//!
//! `class_parser` turns bytes into a `ClassFile`; every read is bounds-checked
//! and each decoding function states which bytes it accepts and what they
//! encode. `verification` checks the cross-references, access flags and
//! attribute locations of a decoded class. `class_loader` maps class names to
//! the module archives that hold them.
use vstd::prelude::*;

pub mod class_loader;
pub mod class_parser;
pub mod consts;
pub mod errors;
pub mod guarantees;
pub mod verification;

verus! {

} // verus!
