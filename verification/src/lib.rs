//! A schema-to-code compiler for declarative device-protocol descriptions.
//!
//! Given a protocol schema (payloads, reusable structs, packet segments and
//! their wire datatypes), the compiler produces serialization code fragments
//! together with the variable bookkeeping needed to assemble whole functions:
//! which logical variables a fragment consumes, in which order, and how they
//! are documented. All compilation is a pure, deterministic walk of the
//! schema; errors (unsupported widths, size mismatches, unresolved or cyclic
//! struct references) are reported at compile time, never deferred to the
//! generated code.

pub mod model;
pub mod text;
pub mod codegen;
pub mod codec;
pub mod laws;
pub mod bitstream;
