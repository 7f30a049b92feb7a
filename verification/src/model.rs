//! The schema data model: the immutable in-memory representation of a parsed
//! protocol description, the variable / code-fragment bookkeeping types the
//! compiler produces, and the compile-time error taxonomy.
//!
//! Each executable type has a ghost counterpart (its `View`) over `Seq<char>`
//! and mathematical integers; contracts elsewhere speak of those views.

use vstd::prelude::*;

verus! {

/// Byte order of a multi-byte wire value.
#[derive(Clone, Copy, Debug, PartialEq, Eq, Structural)]
pub enum Endianness {
    BigEndian,
    LittleEndian,
}

/// Signed-number representation of an integer field.
#[derive(Clone, Copy, Debug, PartialEq, Eq, Structural)]
pub enum Signing {
    Unsigned,
    TwosComplement,
    OnesComplement,
}

/// How the end of a variable-width segment is determined on the wire.
///
/// The schema model leaves this open, so the compiler fixes an explicit,
/// closed choice: either an unsigned big-endian length prefix of a declared
/// bit width precedes the data, or a sentinel byte follows it.
#[derive(Clone, Copy, Debug, PartialEq, Eq, Structural)]
pub enum Termination {
    LengthPrefixed { bits: u32 },
    Delimiter { byte: u8 },
}

/// Wire datatype of a fixed-width segment.
#[derive(Clone, Debug, PartialEq, Eq)]
pub enum SizedDataType {
    /// An opaque run of bits, supplied as a byte buffer.
    Raw,
    /// A literal byte sequence fixed by the schema.
    Const { data: Vec<u8> },
    /// A binary integer of the segment's declared width.
    Integer { endianness: Endianness, signing: Signing },
    /// UTF-8 text occupying a whole number of bytes.
    StringUTF8,
    /// An IEEE-754 floating-point value of the declared width.
    FloatIEEE { endianness: Endianness },
}

/// Wire datatype of a variable-width segment.
#[derive(Clone, Debug, PartialEq, Eq)]
pub enum UnsizedDataType {
    /// A repeated run of instances of a named reusable struct.
    Array { item_struct: String },
    /// UTF-8 text of runtime-determined length.
    StringUTF8,
    /// An opaque run of bytes of runtime-determined length.
    Raw,
}

/// One field within a payload or reusable struct.
#[derive(Clone, Debug, PartialEq, Eq)]
pub enum PacketSegment {
    Sized {
        name: String,
        bits: u32,
        datatype: SizedDataType,
        description: Option<String>,
    },
    Unsized {
        name: String,
        datatype: UnsizedDataType,
        termination: Termination,
        description: Option<String>,
    },
    Struct {
        name: String,
        struct_name: String,
    },
}

/// A named, reusable group of segments embeddable inside a payload or
/// another struct.
#[derive(Clone, Debug, PartialEq, Eq)]
pub struct ReusableStruct {
    pub name: String,
    pub fields: Vec<PacketSegment>,
    pub description: Option<String>,
}

/// One message definition: an ordered sequence of segments.
#[derive(Clone, Debug, PartialEq, Eq)]
pub struct Payload {
    pub description: String,
    pub segments: Vec<PacketSegment>,
}

/// Identity of the device a schema describes.
#[derive(Clone, Debug, PartialEq, Eq)]
pub struct DeviceInfo {
    pub name: String,
    pub description: String,
    pub doc_version: Option<String>,
}

/// The root of a parsed protocol description. Built once per compilation
/// run and read-only thereafter.
#[derive(Clone, Debug, PartialEq, Eq)]
pub struct Schema {
    pub device_info: DeviceInfo,
    pub structs: Vec<ReusableStruct>,
    pub payloads: Vec<(String, Payload)>,
}

/// A logical variable tracked for signature and documentation generation:
/// one generated function parameter or documented field.
#[derive(Clone, Debug, PartialEq, Eq)]
pub struct Var {
    pub name: String,
    pub datatype: String,
    pub desc: Option<String>,
}

impl Var {
    /// A logical variable from its parts.
    pub fn new(name: String, datatype: String, desc: Option<String>) -> (r: Var)
        ensures
            r.name == name,
            r.datatype == datatype,
            r.desc == desc,
    {
        Var { name, datatype, desc }
    }
}

/// A generated code fragment paired with its ordered variable dependencies:
/// `inputs` are consumed by the fragment (they drive function parameters),
/// `outputs` are produced by it (for future read-path support).
#[derive(Clone, Debug, PartialEq, Eq)]
pub struct CodeChunk {
    pub data: String,
    pub inputs: Vec<Var>,
    pub outputs: Vec<Var>,
}

/// A compile-time failure, tagged with the offending payload / field /
/// struct names where a reference was involved.
#[derive(Clone, Debug, PartialEq, Eq)]
pub enum CodegenError {
    /// A `Struct` segment names a struct absent from the schema.
    UnresolvedStruct {
        requested_by_payload: String,
        requested_by_field: String,
        struct_name: String,
    },
    /// A struct embeds itself, directly or transitively.
    CyclicReference {
        requested_by_payload: String,
        struct_name: String,
    },
    /// Integer or float bit width outside the supported set.
    UnsupportedWidth { bits: u32 },
    /// One's-complement signing requested (not implementable yet).
    UnsupportedSigning,
    /// Declared bit width inconsistent with the literal payload size.
    SizeMismatch { bits: u32, bytes: usize },
    /// A byte-oriented datatype declared with a width not a multiple of 8.
    NotByteAligned { bits: u32 },
}

/// Ghost counterpart of [`Var`].
#[verifier::ext_equal]
pub ghost struct GVar {
    pub name: Seq<char>,
    pub datatype: Seq<char>,
    pub desc: Option<Seq<char>>,
}

/// Ghost counterpart of [`CodeChunk`].
#[verifier::ext_equal]
pub ghost struct GChunk {
    pub code: Seq<char>,
    pub inputs: Seq<GVar>,
    pub outputs: Seq<GVar>,
}

/// Ghost counterpart of [`CodegenError`].
#[verifier::ext_equal]
pub ghost enum GError {
    UnresolvedStruct {
        requested_by_payload: Seq<char>,
        requested_by_field: Seq<char>,
        struct_name: Seq<char>,
    },
    CyclicReference {
        requested_by_payload: Seq<char>,
        struct_name: Seq<char>,
    },
    UnsupportedWidth { bits: u32 },
    UnsupportedSigning,
    SizeMismatch { bits: u32, bytes: nat },
    NotByteAligned { bits: u32 },
}

impl View for Var {
    type V = GVar;

    open spec fn view(&self) -> GVar {
        GVar {
            name: self.name@,
            datatype: self.datatype@,
            desc: match self.desc {
                Some(s) => Some(s@),
                None => None,
            },
        }
    }
}

impl View for CodeChunk {
    type V = GChunk;

    open spec fn view(&self) -> GChunk {
        GChunk {
            code: self.data@,
            inputs: self.inputs@.map_values(|v: Var| v@),
            outputs: self.outputs@.map_values(|v: Var| v@),
        }
    }
}

impl View for CodegenError {
    type V = GError;

    open spec fn view(&self) -> GError {
        match self {
            CodegenError::UnresolvedStruct { requested_by_payload, requested_by_field, struct_name } => {
                GError::UnresolvedStruct {
                    requested_by_payload: requested_by_payload@,
                    requested_by_field: requested_by_field@,
                    struct_name: struct_name@,
                }
            },
            CodegenError::CyclicReference { requested_by_payload, struct_name } => {
                GError::CyclicReference {
                    requested_by_payload: requested_by_payload@,
                    struct_name: struct_name@,
                }
            },
            CodegenError::UnsupportedWidth { bits } => GError::UnsupportedWidth { bits: *bits },
            CodegenError::UnsupportedSigning => GError::UnsupportedSigning,
            CodegenError::SizeMismatch { bits, bytes } => {
                GError::SizeMismatch { bits: *bits, bytes: *bytes as nat }
            },
            CodegenError::NotByteAligned { bits } => GError::NotByteAligned { bits: *bits },
        }
    }
}

/// The view of a compilation result: chunk and error are both taken to
/// their ghost counterparts.
pub open spec fn result_view(r: Result<CodeChunk, CodegenError>) -> Result<GChunk, GError> {
    match r {
        Ok(c) => Ok(c@),
        Err(e) => Err(e@),
    }
}

} // verus!
