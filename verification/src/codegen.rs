//! The schema-to-code compiler: struct resolution, the segment compiler and
//! the payload compiler.
//!
//! Every executable compilation function returns exactly what its spec
//! function describes, so the generated text and the variable bookkeeping
//! are a mathematical function of the schema — compilation is deterministic
//! and referentially transparent.
//!
//! Documented wire-format decisions left open by the schema model:
//! a `LengthPrefixed` termination writes the element count as an unsigned
//! big-endian integer of the declared width before the data; a `Delimiter`
//! termination writes its sentinel byte after the data.

use vstd::prelude::*;
use vstd::string::StringExecFns;

use crate::model::{
    CodeChunk, CodegenError, Endianness, GChunk, GError, GVar, PacketSegment, Payload,
    ReusableStruct, Schema, Signing, SizedDataType, Termination, UnsizedDataType, Var,
    result_view,
};
use crate::text::{
    push_dec, push_replace_nl, spec_dec, spec_replace_nl, spec_tab, str_eq_chars,
};

verus! {

/// The view of an optional description string.
pub open spec fn desc_view(d: Option<String>) -> Option<Seq<char>> {
    match d {
        Some(s) => Some(s@),
        None => None,
    }
}

/// The views of a stack of visited struct names.
pub open spec fn names_view(v: Seq<String>) -> Seq<Seq<char>> {
    v.map_values(|s: String| s@)
}

/// The first struct of `structs` named `name`, if any.
pub open spec fn spec_resolve(structs: Seq<ReusableStruct>, name: Seq<char>) -> Option<
    ReusableStruct,
>
    decreases structs.len(),
{
    if structs.len() == 0 {
        None
    } else if structs[0].name@ == name {
        Some(structs[0])
    } else {
        spec_resolve(structs.drop_first(), name)
    }
}

/// The recursion allowance of one compilation run: a chain of nested struct
/// references can embed at most every struct of the schema once.
pub open spec fn spec_fuel(schema: Schema) -> nat {
    schema.structs@.len()
}

/// Bytes occupied by a fixed run of `bits` bits, rounded up.
pub open spec fn spec_raw_bytes(bits: u32) -> nat {
    if bits % 8 == 0 {
        (bits / 8) as nat
    } else {
        (bits / 8 + 1) as nat
    }
}

/// Name of the byte-serialization routine for the given byte order.
pub open spec fn spec_bytes_fn(e: Endianness) -> Seq<char> {
    match e {
        Endianness::BigEndian => "to_be_bytes"@,
        Endianness::LittleEndian => "to_le_bytes"@,
    }
}

/// The target-language type a fixed-width datatype compiles to, with its
/// width validated: integers take 8/16/32/64 bits, floats 32/64, UTF-8 text
/// a whole number of bytes, and one's-complement signing is refused.
/// `Const` segments have no type (they bind no variable); their size check
/// lives with the segment compiler.
pub open spec fn spec_sized_type(bits: u32, dt: SizedDataType) -> Result<Seq<char>, GError> {
    match dt {
        SizedDataType::Raw => Ok("&[u8; "@ + spec_dec(spec_raw_bytes(bits)) + "]"@),
        SizedDataType::Const { data } => Ok(Seq::empty()),
        SizedDataType::Integer { endianness, signing } => {
            if !(bits == 8 || bits == 16 || bits == 32 || bits == 64) {
                Err(GError::UnsupportedWidth { bits })
            } else if signing is OnesComplement {
                Err(GError::UnsupportedSigning)
            } else {
                Ok(
                    (if signing is Unsigned {
                        "u"@
                    } else {
                        "i"@
                    }) + spec_dec(bits as nat),
                )
            }
        },
        SizedDataType::StringUTF8 => {
            if bits % 8 != 0 {
                Err(GError::NotByteAligned { bits })
            } else {
                Ok("&str"@)
            }
        },
        SizedDataType::FloatIEEE { endianness } => {
            if !(bits == 32 || bits == 64) {
                Err(GError::UnsupportedWidth { bits })
            } else {
                Ok("f"@ + spec_dec(bits as nat))
            }
        },
    }
}

/// The literal bytes of a `Const` segment rendered as a comma-separated
/// decimal list.
pub open spec fn spec_byte_list(data: Seq<u8>) -> Seq<char>
    decreases data.len(),
{
    if data.len() == 0 {
        Seq::empty()
    } else {
        spec_byte_list(data.drop_last()) + (if data.len() > 1 {
            ", "@
        } else {
            Seq::empty()
        }) + spec_dec(data.last() as nat)
    }
}

/// The write statement of a fixed-width segment, one indented line (two for
/// a `Const`, whose name appears as a comment).
pub open spec fn spec_sized_code(var_name: Seq<char>, dt: SizedDataType) -> Seq<char> {
    match dt {
        SizedDataType::Raw => spec_tab() + "write("@ + var_name + ")\n"@,
        SizedDataType::Const { data } => Seq::empty(),
        SizedDataType::Integer { endianness, signing } => spec_tab() + "write("@ + var_name
            + "."@ + spec_bytes_fn(endianness) + "())\n"@,
        SizedDataType::StringUTF8 => spec_tab() + "write("@ + var_name + ".as_bytes())\n"@,
        SizedDataType::FloatIEEE { endianness } => spec_tab() + "write("@ + var_name + "."@
            + spec_bytes_fn(endianness) + "())\n"@,
    }
}

/// The compiled fragment of a fixed-width segment under a field-name prefix.
pub open spec fn spec_compile_sized(
    prefix: Seq<char>,
    name: Seq<char>,
    bits: u32,
    dt: SizedDataType,
    desc: Option<Seq<char>>,
) -> Result<GChunk, GError> {
    match dt {
        SizedDataType::Const { data } => {
            if bits as nat != 8 * data@.len() {
                Err(GError::SizeMismatch { bits, bytes: data@.len() })
            } else {
                Ok(
                    GChunk {
                        code: spec_tab() + "// "@ + name + "\n"@ + spec_tab() + "write(["@
                            + spec_byte_list(data@) + "]);\n"@,
                        inputs: Seq::empty(),
                        outputs: Seq::empty(),
                    },
                )
            }
        },
        _ => {
            match spec_sized_type(bits, dt) {
                Err(e) => Err(e),
                Ok(t) => {
                    let var = GVar { name: prefix + name, datatype: t, desc };
                    Ok(
                        GChunk {
                            code: spec_sized_code(var.name, dt),
                            inputs: seq![var],
                            outputs: Seq::empty(),
                        },
                    )
                },
            }
        },
    }
}

/// The target-language type a variable-width datatype compiles to.
pub open spec fn spec_unsized_type(dt: UnsizedDataType) -> Seq<char> {
    match dt {
        UnsizedDataType::Array { item_struct } => "&["@ + item_struct@ + "]"@,
        UnsizedDataType::StringUTF8 => "&str"@,
        UnsizedDataType::Raw => "&[u8]"@,
    }
}

/// The leading length-prefix write of a variable-width segment, or nothing
/// for a delimiter termination.
pub open spec fn spec_term_prefix(var_name: Seq<char>, t: Termination) -> Seq<char> {
    match t {
        Termination::LengthPrefixed { bits } => spec_tab() + "write(("@ + var_name
            + ".len() as u"@ + spec_dec(bits as nat) + ").to_be_bytes())\n"@,
        Termination::Delimiter { byte } => Seq::empty(),
    }
}

/// The trailing delimiter write of a variable-width segment, or nothing for
/// a length-prefixed termination.
pub open spec fn spec_term_suffix(t: Termination) -> Seq<char> {
    match t {
        Termination::LengthPrefixed { bits } => Seq::empty(),
        Termination::Delimiter { byte } => spec_tab() + "write(["@ + spec_dec(byte as nat)
            + "]);\n"@,
    }
}

/// Whether a termination policy is supported as declared: a length prefix
/// must itself be a supported integer width.
pub open spec fn spec_term_check(t: Termination) -> Result<(), GError> {
    match t {
        Termination::LengthPrefixed { bits } => {
            if !(bits == 8 || bits == 16 || bits == 32 || bits == 64) {
                Err(GError::UnsupportedWidth { bits })
            } else {
                Ok(())
            }
        },
        Termination::Delimiter { byte } => Ok(()),
    }
}

/// One compiled packet segment. `prefix` is the accumulated field-name
/// prefix of the enclosing struct instances, `visited` the names of the
/// structs already being expanded on this chain (for cycle detection), and
/// `fuel` the remaining recursion allowance.
pub open spec fn spec_compile_segment(
    schema: Schema,
    payload_name: Seq<char>,
    seg: PacketSegment,
    prefix: Seq<char>,
    visited: Seq<Seq<char>>,
    fuel: nat,
) -> Result<GChunk, GError>
    decreases fuel, 0nat,
{
    match seg {
        PacketSegment::Sized { name, bits, datatype, description } => spec_compile_sized(
            prefix,
            name@,
            bits,
            datatype,
            desc_view(description),
        ),
        PacketSegment::Unsized { name, datatype, termination, description } => {
            match spec_term_check(termination) {
                Err(e) => Err(e),
                Ok(u) => {
                    let var = GVar {
                        name: prefix + name@,
                        datatype: spec_unsized_type(datatype),
                        desc: desc_view(description),
                    };
                    match datatype {
                        UnsizedDataType::StringUTF8 => Ok(
                            GChunk {
                                code: spec_term_prefix(var.name, termination) + spec_tab()
                                    + "write("@ + var.name + ".as_bytes())\n"@ + spec_term_suffix(
                                    termination,
                                ),
                                inputs: seq![var],
                                outputs: Seq::empty(),
                            },
                        ),
                        UnsizedDataType::Raw => Ok(
                            GChunk {
                                code: spec_term_prefix(var.name, termination) + spec_tab()
                                    + "write("@ + var.name + ")\n"@ + spec_term_suffix(
                                    termination,
                                ),
                                inputs: seq![var],
                                outputs: Seq::empty(),
                            },
                        ),
                        UnsizedDataType::Array { item_struct } => {
                            match spec_resolve(schema.structs@, item_struct@) {
                                None => Err(
                                    GError::UnresolvedStruct {
                                        requested_by_payload: payload_name,
                                        requested_by_field: name@,
                                        struct_name: item_struct@,
                                    },
                                ),
                                Some(rs) => {
                                    if visited.contains(item_struct@) || fuel == 0 {
                                        Err(
                                            GError::CyclicReference {
                                                requested_by_payload: payload_name,
                                                struct_name: item_struct@,
                                            },
                                        )
                                    } else {
                                        match spec_compile_fields(
                                            schema,
                                            payload_name,
                                            rs.fields@,
                                            "item."@,
                                            visited.push(item_struct@),
                                            (fuel - 1) as nat,
                                        ) {
                                            Err(e) => Err(e),
                                            Ok(inner) => Ok(
                                                GChunk {
                                                    code: spec_term_prefix(var.name, termination)
                                                        + spec_tab() + "for item in "@ + var.name
                                                        + " {\n"@ + spec_tab() + spec_replace_nl(
                                                        inner.code,
                                                        "\n"@ + spec_tab(),
                                                    ) + "}\n"@ + spec_term_suffix(termination),
                                                    inputs: seq![var],
                                                    outputs: Seq::empty(),
                                                },
                                            ),
                                        }
                                    }
                                },
                            }
                        },
                    }
                },
            }
        },
        PacketSegment::Struct { name, struct_name } => {
            match spec_resolve(schema.structs@, struct_name@) {
                None => Err(
                    GError::UnresolvedStruct {
                        requested_by_payload: payload_name,
                        requested_by_field: name@,
                        struct_name: struct_name@,
                    },
                ),
                Some(rs) => {
                    if visited.contains(struct_name@) || fuel == 0 {
                        Err(
                            GError::CyclicReference {
                                requested_by_payload: payload_name,
                                struct_name: struct_name@,
                            },
                        )
                    } else {
                        match spec_compile_fields(
                            schema,
                            payload_name,
                            rs.fields@,
                            prefix + name@ + "."@,
                            visited.push(struct_name@),
                            (fuel - 1) as nat,
                        ) {
                            Err(e) => Err(e),
                            Ok(inner) => Ok(
                                GChunk {
                                    code: inner.code,
                                    inputs: seq![
                                        GVar {
                                            name: prefix + name@,
                                            datatype: struct_name@,
                                            desc: desc_view(rs.description),
                                        },
                                    ],
                                    outputs: Seq::empty(),
                                },
                            ),
                        }
                    }
                },
            }
        },
    }
}

/// An ordered field list compiled into one nested fragment: code fragments
/// concatenated in declared order, input variables merged preserving first
/// appearance, never coalesced. Fails with the first field's error.
pub open spec fn spec_compile_fields(
    schema: Schema,
    payload_name: Seq<char>,
    fields: Seq<PacketSegment>,
    prefix: Seq<char>,
    visited: Seq<Seq<char>>,
    fuel: nat,
) -> Result<GChunk, GError>
    decreases fuel, fields.len(),
{
    if fields.len() == 0 {
        Ok(GChunk { code: Seq::empty(), inputs: Seq::empty(), outputs: Seq::empty() })
    } else {
        match spec_compile_fields(
            schema,
            payload_name,
            fields.drop_last(),
            prefix,
            visited,
            fuel,
        ) {
            Err(e) => Err(e),
            Ok(acc) => {
                match spec_compile_segment(
                    schema,
                    payload_name,
                    fields.last(),
                    prefix,
                    visited,
                    fuel,
                ) {
                    Err(e) => Err(e),
                    Ok(ch) => Ok(
                        GChunk {
                            code: acc.code + ch.code,
                            inputs: acc.inputs + ch.inputs,
                            outputs: Seq::empty(),
                        },
                    ),
                }
            },
        }
    }
}

/// A segment compiled at a payload's top level: empty prefix, no ancestors,
/// full recursion allowance.
pub open spec fn spec_codegen_out_segment(
    schema: Schema,
    payload_name: Seq<char>,
    seg: PacketSegment,
    prefix: Seq<char>,
) -> Result<GChunk, GError> {
    spec_compile_segment(schema, payload_name, seg, prefix, Seq::empty(), spec_fuel(schema))
}

/// One documentation line for an input variable carrying a description;
/// variables without one are still parameters but are not documented.
pub open spec fn spec_doc_line(v: GVar) -> Seq<char> {
    match v.desc {
        Some(d) => "/// * `"@ + v.name + "` - "@ + spec_replace_nl(d, "\n///   "@) + "\n"@,
        None => Seq::empty(),
    }
}

/// The documentation block of an input list, one line per described input,
/// in parameter order.
pub open spec fn spec_doc_lines(inputs: Seq<GVar>) -> Seq<char>
    decreases inputs.len(),
{
    if inputs.len() == 0 {
        Seq::empty()
    } else {
        spec_doc_lines(inputs.drop_last()) + spec_doc_line(inputs.last())
    }
}

/// The formal parameter list of a compiled unit: its inputs in order, as
/// `name: type`, comma-separated.
pub open spec fn spec_params(inputs: Seq<GVar>) -> Seq<char>
    decreases inputs.len(),
{
    if inputs.len() == 0 {
        Seq::empty()
    } else {
        spec_params(inputs.drop_last()) + (if inputs.len() > 1 {
            ", "@
        } else {
            Seq::empty()
        }) + inputs.last().name + ": "@ + inputs.last().datatype
    }
}

/// A whole payload compiled into one callable unit: a documentation block
/// from the payload description and the described inputs, then a function
/// whose parameters are the merged inputs in first-appearance order and
/// whose body is the segments' write statements in declared order.
pub open spec fn spec_codegen_out_payload(
    schema: Schema,
    name: Seq<char>,
    load: Payload,
) -> Result<GChunk, GError> {
    match spec_compile_fields(
        schema,
        name,
        load.segments@,
        Seq::empty(),
        Seq::empty(),
        spec_fuel(schema),
    ) {
        Err(e) => Err(e),
        Ok(parts) => Ok(
            GChunk {
                code: "/// "@ + spec_replace_nl(load.description@, "\n/// "@) + "\n"@
                    + spec_doc_lines(parts.inputs) + "fn "@ + name + "("@ + spec_params(
                    parts.inputs,
                ) + ") {\n"@ + parts.code + "}\n"@,
                inputs: parts.inputs,
                outputs: Seq::empty(),
            },
        ),
    }
}

/// An error stays an error when the field list grows: compilation of a unit
/// aborts on its first failing field.
pub proof fn lemma_fields_err_extends(
    schema: Schema,
    payload_name: Seq<char>,
    fields: Seq<PacketSegment>,
    k: int,
    prefix: Seq<char>,
    visited: Seq<Seq<char>>,
    fuel: nat,
)
    requires
        0 <= k <= fields.len(),
        spec_compile_fields(schema, payload_name, fields.subrange(0, k), prefix, visited, fuel)
            is Err,
    ensures
        spec_compile_fields(schema, payload_name, fields, prefix, visited, fuel)
            == spec_compile_fields(
            schema,
            payload_name,
            fields.subrange(0, k),
            prefix,
            visited,
            fuel,
        ),
    decreases fields.len() - k,
{
    if k == fields.len() {
        assert(fields.subrange(0, k) =~= fields);
    } else {
        assert(fields.subrange(0, k + 1).drop_last() =~= fields.subrange(0, k));
        assert(fields.subrange(0, k + 1).last() == fields[k]);
        lemma_fields_err_extends(schema, payload_name, fields, k + 1, prefix, visited, fuel);
    }
}

/// Clones an optional description.
fn clone_desc(d: &Option<String>) -> (r: Option<String>)
    ensures
        r == *d,
{
    match d {
        Some(s) => Some(s.clone()),
        None => None,
    }
}

/// Clones a logical variable.
fn clone_var(v: &Var) -> (r: Var)
    ensures
        r == *v,
{
    Var { name: v.name.clone(), datatype: v.datatype.clone(), desc: clone_desc(&v.desc) }
}

/// Struct Resolver: looks up a reusable struct by name. No side effects;
/// reports `None` exactly when no struct of the schema carries the name.
pub fn resolve_struct<'s>(structs: &'s Vec<ReusableStruct>, name: &str) -> (r: Option<
    &'s ReusableStruct,
>)
    ensures
        match r {
            Some(rs) => spec_resolve(structs@, name@) == Some(*rs),
            None => spec_resolve(structs@, name@) is None,
        },
{
    let n = structs.len();
    let mut i: usize = 0;
    proof {
        assert(structs@.subrange(0, n as int) =~= structs@);
    }
    while i < n
        invariant
            n == structs@.len(),
            0 <= i <= n,
            spec_resolve(structs@, name@) == spec_resolve(
                structs@.subrange(i as int, n as int),
                name@,
            ),
        decreases n - i,
    {
        let rs = &structs[i];
        proof {
            assert(structs@.subrange(i as int, n as int)[0] == structs@[i as int]);
        }
        if str_eq_chars(rs.name.as_str(), name) {
            return Some(rs);
        }
        proof {
            assert(structs@.subrange(i as int, n as int).drop_first() =~= structs@.subrange(
                i as int + 1,
                n as int,
            ));
        }
        i = i + 1;
    }
    None
}

/// Whether `name` is on the stack of struct names being expanded.
fn visited_contains(visited: &Vec<String>, name: &str) -> (r: bool)
    ensures
        r == names_view(visited@).contains(name@),
{
    let n = visited.len();
    let mut i: usize = 0;
    while i < n
        invariant
            n == visited@.len(),
            0 <= i <= n,
            forall|j: int| 0 <= j < i ==> names_view(visited@)[j] != name@,
        decreases n - i,
    {
        if str_eq_chars(visited[i].as_str(), name) {
            proof {
                assert(names_view(visited@)[i as int] == name@);
            }
            return true;
        }
        i = i + 1;
    }
    proof {
        assert(forall|j: int|
            0 <= j < names_view(visited@).len() ==> names_view(visited@)[j] != name@);
    }
    false
}

/// A copy of the visited stack with one more name on top.
fn push_visited(visited: &Vec<String>, name: &String) -> (r: Vec<String>)
    ensures
        names_view(r@) == names_view(visited@).push(name@),
{
    let mut r: Vec<String> = Vec::new();
    let n = visited.len();
    let mut i: usize = 0;
    while i < n
        invariant
            n == visited@.len(),
            0 <= i <= n,
            r@.len() == i as int,
            forall|j: int| 0 <= j < i ==> r@[j]@ == visited@[j]@,
        decreases n - i,
    {
        r.push(visited[i].clone());
        i = i + 1;
    }
    r.push(name.clone());
    proof {
        assert forall|j: int| 0 <= j < n + 1 implies names_view(r@)[j] == names_view(
            visited@,
        ).push(name@)[j] by {
            assert(names_view(r@)[j] == r@[j]@);
            if j < n {
                assert(names_view(visited@).push(name@)[j] == visited@[j]@);
            }
        }
        assert(names_view(r@) =~= names_view(visited@).push(name@));
    }
    r
}

/// Name of the byte-serialization routine for the given byte order.
fn bytes_fn(e: &Endianness) -> (r: &'static str)
    ensures
        r@ == spec_bytes_fn(*e),
{
    match e {
        Endianness::BigEndian => "to_be_bytes",
        Endianness::LittleEndian => "to_le_bytes",
    }
}

/// The literal bytes of a `Const` segment as comma-separated decimals.
fn byte_list(data: &Vec<u8>) -> (r: String)
    ensures
        r@ == spec_byte_list(data@),
{
    let mut s = String::new();
    let n = data.len();
    let mut i: usize = 0;
    proof {
        assert(s@ =~= spec_byte_list(data@.subrange(0, 0)));
    }
    while i < n
        invariant
            n == data@.len(),
            0 <= i <= n,
            s@ == spec_byte_list(data@.subrange(0, i as int)),
        decreases n - i,
    {
        if i > 0 {
            s.append(", ");
        }
        push_dec(&mut s, data[i] as u64);
        proof {
            let sub = data@.subrange(0, i as int + 1);
            assert(sub.drop_last() =~= data@.subrange(0, i as int));
            assert(sub.last() == data@[i as int]);
            assert(s@ =~= spec_byte_list(sub));
        }
        i = i + 1;
    }
    proof {
        assert(data@.subrange(0, n as int) =~= data@);
    }
    s
}

/// The target-language type of a fixed-width datatype; validates the width
/// and the signing exactly as [`spec_sized_type`] states.
pub fn sized_type(bits: u32, dt: &SizedDataType) -> (r: Result<String, CodegenError>)
    ensures
        match r {
            Ok(t) => spec_sized_type(bits, *dt) == Ok::<Seq<char>, GError>(t@),
            Err(e) => spec_sized_type(bits, *dt) == Err::<Seq<char>, GError>(e@),
        },
{
    match dt {
        SizedDataType::Raw => {
            let nbytes: u32 = if bits % 8 == 0 {
                bits / 8
            } else {
                bits / 8 + 1
            };
            let mut t = String::new();
            t.append("&[u8; ");
            push_dec(&mut t, nbytes as u64);
            t.append("]");
            proof {
                assert(t@ =~= "&[u8; "@ + spec_dec(spec_raw_bytes(bits)) + "]"@);
            }
            Ok(t)
        },
        SizedDataType::Const { data } => Ok(String::new()),
        SizedDataType::Integer { endianness, signing } => {
            if !(bits == 8 || bits == 16 || bits == 32 || bits == 64) {
                Err(CodegenError::UnsupportedWidth { bits })
            } else {
                match signing {
                    Signing::OnesComplement => Err(CodegenError::UnsupportedSigning),
                    Signing::Unsigned => {
                        let mut t = String::new();
                        t.append("u");
                        push_dec(&mut t, bits as u64);
                        proof {
                            assert(t@ =~= "u"@ + spec_dec(bits as nat));
                        }
                        Ok(t)
                    },
                    Signing::TwosComplement => {
                        let mut t = String::new();
                        t.append("i");
                        push_dec(&mut t, bits as u64);
                        proof {
                            assert(t@ =~= "i"@ + spec_dec(bits as nat));
                        }
                        Ok(t)
                    },
                }
            }
        },
        SizedDataType::StringUTF8 => {
            if bits % 8 != 0 {
                Err(CodegenError::NotByteAligned { bits })
            } else {
                let mut t = String::new();
                t.append("&str");
                proof {
                    assert(t@ =~= "&str"@);
                }
                Ok(t)
            }
        },
        SizedDataType::FloatIEEE { endianness } => {
            if !(bits == 32 || bits == 64) {
                Err(CodegenError::UnsupportedWidth { bits })
            } else {
                let mut t = String::new();
                t.append("f");
                push_dec(&mut t, bits as u64);
                proof {
                    assert(t@ =~= "f"@ + spec_dec(bits as nat));
                }
                Ok(t)
            }
        },
    }
}

/// Compiles one fixed-width segment under a field-name prefix.
fn compile_sized(
    prefix: &str,
    name: &String,
    bits: u32,
    datatype: &SizedDataType,
    description: &Option<String>,
) -> (r: Result<CodeChunk, CodegenError>)
    ensures
        result_view(r) == spec_compile_sized(
            prefix@,
            name@,
            bits,
            *datatype,
            desc_view(*description),
        ),
{
    match datatype {
        SizedDataType::Const { data } => {
            let fits = data.len() <= (u32::MAX as usize) / 8;
            let size_ok = fits && (bits as usize) == 8 * data.len();
            proof {
                assert(size_ok == (bits as nat == 8 * data@.len()));
            }
            if !size_ok {
                Err(CodegenError::SizeMismatch { bits, bytes: data.len() })
            } else {
                let mut code = String::new();
                code.append("    ");
                code.append("// ");
                code.append(name.as_str());
                code.append("\n");
                code.append("    ");
                code.append("write([");
                let list = byte_list(data);
                code.append(list.as_str());
                code.append("]);\n");
                let chunk = CodeChunk { data: code, inputs: Vec::new(), outputs: Vec::new() };
                proof {
                    assert(chunk@.code =~= spec_tab() + "// "@ + name@ + "\n"@ + spec_tab()
                        + "write(["@ + spec_byte_list(data@) + "]);\n"@);
                    assert(chunk@.inputs =~= Seq::<GVar>::empty());
                    assert(chunk@.outputs =~= Seq::<GVar>::empty());
                }
                Ok(chunk)
            }
        },
        _ => {
            match sized_type(bits, datatype) {
                Err(e) => Err(e),
                Ok(t) => {
                    let ghost gt = t@;
                    let mut vn = String::new();
                    vn.append(prefix);
                    vn.append(name.as_str());
                    let ghost gvn = vn@;
                    let mut code = String::new();
                    code.append("    ");
                    code.append("write(");
                    code.append(vn.as_str());
                    match datatype {
                        SizedDataType::Raw => {
                            code.append(")\n");
                        },
                        SizedDataType::Integer { endianness, signing } => {
                            code.append(".");
                            code.append(bytes_fn(endianness));
                            code.append("())\n");
                        },
                        SizedDataType::StringUTF8 => {
                            code.append(".as_bytes())\n");
                        },
                        SizedDataType::FloatIEEE { endianness } => {
                            code.append(".");
                            code.append(bytes_fn(endianness));
                            code.append("())\n");
                        },
                        SizedDataType::Const { data } => {
                        },
                    }
                    let var = Var { name: vn, datatype: t, desc: clone_desc(description) };
                    let mut inputs: Vec<Var> = Vec::new();
                    inputs.push(var);
                    let chunk = CodeChunk { data: code, inputs, outputs: Vec::new() };
                    proof {
                        let gv = GVar {
                            name: prefix@ + name@,
                            datatype: gt,
                            desc: desc_view(*description),
                        };
                        assert(gvn =~= prefix@ + name@);
                        assert(chunk@.code =~= spec_sized_code(gv.name, *datatype));
                        assert(chunk@.inputs =~~= seq![gv]);
                        assert(chunk@.outputs =~= Seq::<GVar>::empty());
                        assert(chunk@ =~~= GChunk {
                            code: spec_sized_code(gv.name, *datatype),
                            inputs: seq![gv],
                            outputs: Seq::empty(),
                        });
                    }
                    Ok(chunk)
                },
            }
        },
    }
}

/// Validates a termination policy as [`spec_term_check`] states.
fn term_check(t: &Termination) -> (r: Result<(), CodegenError>)
    ensures
        match r {
            Ok(u) => spec_term_check(*t) == Ok::<(), GError>(()),
            Err(e) => spec_term_check(*t) == Err::<(), GError>(e@),
        },
{
    match t {
        Termination::LengthPrefixed { bits } => {
            let b = *bits;
            if !(b == 8 || b == 16 || b == 32 || b == 64) {
                Err(CodegenError::UnsupportedWidth { bits: b })
            } else {
                Ok(())
            }
        },
        Termination::Delimiter { byte } => Ok(()),
    }
}

/// Appends the leading length-prefix write of a variable-width segment.
fn push_term_prefix(code: &mut String, var_name: &str, t: &Termination)
    ensures
        final(code)@ == old(code)@ + spec_term_prefix(var_name@, *t),
{
    match t {
        Termination::LengthPrefixed { bits } => {
            code.append("    ");
            code.append("write((");
            code.append(var_name);
            code.append(".len() as u");
            push_dec(code, *bits as u64);
            code.append(").to_be_bytes())\n");
            proof {
                assert(code@ =~= old(code)@ + spec_term_prefix(var_name@, *t));
            }
        },
        Termination::Delimiter { byte } => {
            proof {
                assert(code@ =~= old(code)@ + spec_term_prefix(var_name@, *t));
            }
        },
    }
}

/// Appends the trailing delimiter write of a variable-width segment.
fn push_term_suffix(code: &mut String, t: &Termination)
    ensures
        final(code)@ == old(code)@ + spec_term_suffix(*t),
{
    match t {
        Termination::LengthPrefixed { bits } => {
            proof {
                assert(code@ =~= old(code)@ + spec_term_suffix(*t));
            }
        },
        Termination::Delimiter { byte } => {
            code.append("    ");
            code.append("write([");
            push_dec(code, *byte as u64);
            code.append("]);\n");
            proof {
                assert(code@ =~= old(code)@ + spec_term_suffix(*t));
            }
        },
    }
}

/// The compiler: borrows one read-only schema for a run and compiles its
/// payloads, segments and reusable structs into code fragments.
#[derive(Debug)]
pub struct RustEmbeddedHal<'a> {
    pub pid: &'a Schema,
}

impl<'a> RustEmbeddedHal<'a> {
    /// Binds a compiler to the schema it walks.
    pub fn new(pid: &'a Schema) -> (r: Self)
        ensures
            r.pid == pid,
    {
        RustEmbeddedHal { pid }
    }

    /// Compiles one packet segment under an accumulated field-name prefix
    /// and a stack of struct names being expanded.
    fn seg_rec(
        &self,
        payload_name: &str,
        seg: &PacketSegment,
        prefix: &str,
        visited: &Vec<String>,
        fuel: usize,
    ) -> (r: Result<CodeChunk, CodegenError>)
        ensures
            result_view(r) == spec_compile_segment(
                *self.pid,
                payload_name@,
                *seg,
                prefix@,
                names_view(visited@),
                fuel as nat,
            ),
        decreases fuel, 0nat,
    {
        match seg {
            PacketSegment::Sized { name, bits, datatype, description } => {
                compile_sized(prefix, name, *bits, datatype, description)
            },
            PacketSegment::Unsized { name, datatype, termination, description } => {
                match term_check(termination) {
                    Err(e) => Err(e),
                    Ok(u) => {
                        let mut vn = String::new();
                        vn.append(prefix);
                        vn.append(name.as_str());
                        let ghost gvn = vn@;
                        proof {
                            assert(gvn =~= prefix@ + name@);
                        }
                        match datatype {
                            UnsizedDataType::StringUTF8 => {
                                let mut code = String::new();
                                push_term_prefix(&mut code, vn.as_str(), termination);
                                code.append("    ");
                                code.append("write(");
                                code.append(vn.as_str());
                                code.append(".as_bytes())\n");
                                push_term_suffix(&mut code, termination);
                                let mut t = String::new();
                                t.append("&str");
                                proof {
                                    assert(t@ =~= spec_unsized_type(*datatype));
                                }
                                let var = Var {
                                    name: vn,
                                    datatype: t,
                                    desc: clone_desc(description),
                                };
                                let mut inputs: Vec<Var> = Vec::new();
                                inputs.push(var);
                                let chunk = CodeChunk {
                                    data: code,
                                    inputs,
                                    outputs: Vec::new(),
                                };
                                proof {
                                    let gv = GVar {
                                        name: prefix@ + name@,
                                        datatype: spec_unsized_type(*datatype),
                                        desc: desc_view(*description),
                                    };
                                    assert(chunk@.code =~= spec_term_prefix(gv.name, *termination)
                                        + spec_tab() + "write("@ + gv.name + ".as_bytes())\n"@
                                        + spec_term_suffix(*termination));
                                    assert(chunk@.inputs =~~= seq![gv]);
                                    assert(chunk@.outputs =~= Seq::<GVar>::empty());
                                    assert(chunk@ =~~= GChunk {
                                        code: spec_term_prefix(gv.name, *termination) + spec_tab()
                                            + "write("@ + gv.name + ".as_bytes())\n"@
                                            + spec_term_suffix(*termination),
                                        inputs: seq![gv],
                                        outputs: Seq::empty(),
                                    });
                                }
                                Ok(chunk)
                            },
                            UnsizedDataType::Raw => {
                                let mut code = String::new();
                                push_term_prefix(&mut code, vn.as_str(), termination);
                                code.append("    ");
                                code.append("write(");
                                code.append(vn.as_str());
                                code.append(")\n");
                                push_term_suffix(&mut code, termination);
                                let mut t = String::new();
                                t.append("&[u8]");
                                proof {
                                    assert(t@ =~= spec_unsized_type(*datatype));
                                }
                                let var = Var {
                                    name: vn,
                                    datatype: t,
                                    desc: clone_desc(description),
                                };
                                let mut inputs: Vec<Var> = Vec::new();
                                inputs.push(var);
                                let chunk = CodeChunk {
                                    data: code,
                                    inputs,
                                    outputs: Vec::new(),
                                };
                                proof {
                                    let gv = GVar {
                                        name: prefix@ + name@,
                                        datatype: spec_unsized_type(*datatype),
                                        desc: desc_view(*description),
                                    };
                                    assert(chunk@.code =~= spec_term_prefix(gv.name, *termination)
                                        + spec_tab() + "write("@ + gv.name + ")\n"@
                                        + spec_term_suffix(*termination));
                                    assert(chunk@.inputs =~~= seq![gv]);
                                    assert(chunk@.outputs =~= Seq::<GVar>::empty());
                                    assert(chunk@ =~~= GChunk {
                                        code: spec_term_prefix(gv.name, *termination) + spec_tab()
                                            + "write("@ + gv.name + ")\n"@ + spec_term_suffix(
                                            *termination,
                                        ),
                                        inputs: seq![gv],
                                        outputs: Seq::empty(),
                                    });
                                }
                                Ok(chunk)
                            },
                            UnsizedDataType::Array { item_struct } => {
                                match resolve_struct(&self.pid.structs, item_struct.as_str()) {
                                    None => Err(
                                        CodegenError::UnresolvedStruct {
                                            requested_by_payload: payload_name.to_owned(),
                                            requested_by_field: name.clone(),
                                            struct_name: item_struct.clone(),
                                        },
                                    ),
                                    Some(rs) => {
                                        if visited_contains(visited, item_struct.as_str()) || fuel
                                            == 0 {
                                            Err(
                                                CodegenError::CyclicReference {
                                                    requested_by_payload: payload_name.to_owned(),
                                                    struct_name: item_struct.clone(),
                                                },
                                            )
                                        } else {
                                            let v2 = push_visited(visited, item_struct);
                                            match self.fields_rec(
                                                payload_name,
                                                &rs.fields,
                                                "item.",
                                                &v2,
                                                fuel - 1,
                                            ) {
                                                Err(e) => Err(e),
                                                Ok(inner) => {
                                                    let mut code = String::new();
                                                    push_term_prefix(
                                                        &mut code,
                                                        vn.as_str(),
                                                        termination,
                                                    );
                                                    code.append("    ");
                                                    code.append("for item in ");
                                                    code.append(vn.as_str());
                                                    code.append(" {\n");
                                                    code.append("    ");
                                                    push_replace_nl(
                                                        &mut code,
                                                        inner.data.as_str(),
                                                        "\n    ",
                                                    );
                                                    code.append("}\n");
                                                    push_term_suffix(&mut code, termination);
                                                    let mut t = String::new();
                                                    t.append("&[");
                                                    t.append(item_struct.as_str());
                                                    t.append("]");
                                                    proof {
                                                        assert(t@ =~= spec_unsized_type(
                                                            *datatype,
                                                        ));
                                                        reveal_strlit("\n    ");
                                                        reveal_strlit("\n");
                                                        reveal_strlit("    ");
                                                        assert("\n    "@ =~= "\n"@ + spec_tab());
                                                    }
                                                    let var = Var {
                                                        name: vn,
                                                        datatype: t,
                                                        desc: clone_desc(description),
                                                    };
                                                    let mut inputs: Vec<Var> = Vec::new();
                                                    inputs.push(var);
                                                    let chunk = CodeChunk {
                                                        data: code,
                                                        inputs,
                                                        outputs: Vec::new(),
                                                    };
                                                    proof {
                                                        let gv = GVar {
                                                            name: prefix@ + name@,
                                                            datatype: spec_unsized_type(
                                                                *datatype,
                                                            ),
                                                            desc: desc_view(*description),
                                                        };
                                                        let gcode = spec_term_prefix(
                                                            gv.name,
                                                            *termination,
                                                        ) + spec_tab() + "for item in "@ + gv.name
                                                            + " {\n"@ + spec_tab()
                                                            + spec_replace_nl(
                                                            inner@.code,
                                                            "\n"@ + spec_tab(),
                                                        ) + "}\n"@ + spec_term_suffix(
                                                            *termination,
                                                        );
                                                        assert(chunk@.code =~= gcode);
                                                        assert(chunk@.inputs =~~= seq![gv]);
                                                        assert(chunk@.outputs
                                                            =~= Seq::<GVar>::empty());
                                                        assert(chunk@ =~~= GChunk {
                                                            code: gcode,
                                                            inputs: seq![gv],
                                                            outputs: Seq::empty(),
                                                        });
                                                    }
                                                    Ok(chunk)
                                                },
                                            }
                                        }
                                    },
                                }
                            },
                        }
                    },
                }
            },
            PacketSegment::Struct { name, struct_name } => {
                match resolve_struct(&self.pid.structs, struct_name.as_str()) {
                    None => Err(
                        CodegenError::UnresolvedStruct {
                            requested_by_payload: payload_name.to_owned(),
                            requested_by_field: name.clone(),
                            struct_name: struct_name.clone(),
                        },
                    ),
                    Some(rs) => {
                        if visited_contains(visited, struct_name.as_str()) || fuel == 0 {
                            Err(
                                CodegenError::CyclicReference {
                                    requested_by_payload: payload_name.to_owned(),
                                    struct_name: struct_name.clone(),
                                },
                            )
                        } else {
                            let mut p2 = String::new();
                            p2.append(prefix);
                            p2.append(name.as_str());
                            p2.append(".");
                            proof {
                                assert(p2@ =~= prefix@ + name@ + "."@);
                            }
                            let v2 = push_visited(visited, struct_name);
                            match self.fields_rec(
                                payload_name,
                                &rs.fields,
                                p2.as_str(),
                                &v2,
                                fuel - 1,
                            ) {
                                Err(e) => Err(e),
                                Ok(inner) => {
                                    let mut vn = String::new();
                                    vn.append(prefix);
                                    vn.append(name.as_str());
                                    proof {
                                        assert(vn@ =~= prefix@ + name@);
                                    }
                                    let var = Var {
                                        name: vn,
                                        datatype: struct_name.clone(),
                                        desc: clone_desc(&rs.description),
                                    };
                                    let mut inputs: Vec<Var> = Vec::new();
                                    inputs.push(var);
                                    let chunk = CodeChunk {
                                        data: inner.data,
                                        inputs,
                                        outputs: Vec::new(),
                                    };
                                    proof {
                                        let gv = GVar {
                                            name: prefix@ + name@,
                                            datatype: struct_name@,
                                            desc: desc_view(rs.description),
                                        };
                                        assert(chunk@.inputs =~~= seq![gv]);
                                        assert(chunk@.outputs =~= Seq::<GVar>::empty());
                                        assert(chunk@ =~~= GChunk {
                                            code: inner@.code,
                                            inputs: seq![gv],
                                            outputs: Seq::empty(),
                                        });
                                    }
                                    Ok(chunk)
                                },
                            }
                        }
                    },
                }
            },
        }
    }

    /// Compiles an ordered field list into one nested fragment, aborting on
    /// the first failing field.
    fn fields_rec(
        &self,
        payload_name: &str,
        fields: &Vec<PacketSegment>,
        prefix: &str,
        visited: &Vec<String>,
        fuel: usize,
    ) -> (r: Result<CodeChunk, CodegenError>)
        ensures
            result_view(r) == spec_compile_fields(
                *self.pid,
                payload_name@,
                fields@,
                prefix@,
                names_view(visited@),
                fuel as nat,
            ),
        decreases fuel, fields@.len() + 1,
    {
        let n = fields.len();
        let mut code = String::new();
        let mut inputs: Vec<Var> = Vec::new();
        let mut i: usize = 0;
        proof {
            assert(fields@.subrange(0, 0).len() == 0);
            assert(inputs@.map_values(|v: Var| v@) =~= Seq::<GVar>::empty());
            assert(spec_compile_fields(
                *self.pid,
                payload_name@,
                fields@.subrange(0, 0),
                prefix@,
                names_view(visited@),
                fuel as nat,
            ) =~~= Ok::<GChunk, GError>(
                GChunk {
                    code: code@,
                    inputs: inputs@.map_values(|v: Var| v@),
                    outputs: Seq::empty(),
                },
            ));
        }
        while i < n
            invariant
                n == fields@.len(),
                0 <= i <= n,
                spec_compile_fields(
                    *self.pid,
                    payload_name@,
                    fields@.subrange(0, i as int),
                    prefix@,
                    names_view(visited@),
                    fuel as nat,
                ) == Ok::<GChunk, GError>(
                    GChunk {
                        code: code@,
                        inputs: inputs@.map_values(|v: Var| v@),
                        outputs: Seq::empty(),
                    },
                ),
            decreases n - i,
        {
            let ghost prev_code = code@;
            let ghost prev_inputs = inputs@.map_values(|v: Var| v@);
            let seg = &fields[i];
            match self.seg_rec(payload_name, seg, prefix, visited, fuel) {
                Err(e) => {
                    proof {
                        let sub1 = fields@.subrange(0, i as int + 1);
                        assert(sub1.drop_last() =~= fields@.subrange(0, i as int));
                        assert(sub1.last() == fields@[i as int]);
                        assert(spec_compile_fields(
                            *self.pid,
                            payload_name@,
                            sub1,
                            prefix@,
                            names_view(visited@),
                            fuel as nat,
                        ) == Err::<GChunk, GError>(e@));
                        lemma_fields_err_extends(
                            *self.pid,
                            payload_name@,
                            fields@,
                            i as int + 1,
                            prefix@,
                            names_view(visited@),
                            fuel as nat,
                        );
                    }
                    return Err(e);
                },
                Ok(ch) => {
                    let ghost gch = ch@;
                    let CodeChunk { data: chdata, inputs: mut chinputs, outputs: _ } = ch;
                    code.append(chdata.as_str());
                    inputs.append(&mut chinputs);
                    proof {
                        let sub1 = fields@.subrange(0, i as int + 1);
                        assert(sub1.drop_last() =~= fields@.subrange(0, i as int));
                        assert(sub1.last() == fields@[i as int]);
                        assert(inputs@.map_values(|v: Var| v@) =~= prev_inputs + gch.inputs);
                        assert(spec_compile_fields(
                            *self.pid,
                            payload_name@,
                            sub1,
                            prefix@,
                            names_view(visited@),
                            fuel as nat,
                        ) =~~= Ok::<GChunk, GError>(
                            GChunk {
                                code: code@,
                                inputs: inputs@.map_values(|v: Var| v@),
                                outputs: Seq::empty(),
                            },
                        ));
                    }
                },
            }
            i = i + 1;
        }
        let chunk = CodeChunk { data: code, inputs, outputs: Vec::new() };
        proof {
            assert(fields@.subrange(0, n as int) =~= fields@);
            assert(chunk@.outputs =~= Seq::<GVar>::empty());
            assert(chunk@ =~~= GChunk {
                code: chunk@.code,
                inputs: chunk@.inputs,
                outputs: Seq::empty(),
            });
        }
        Ok(chunk)
    }

    /// Compiles one packet segment at a payload's top level: empty ancestor
    /// stack and the full recursion allowance. `prefix` is the field-name
    /// prefix to scope the segment's variables under (empty at top level).
    pub fn codegen_out_segment(
        &self,
        payload_name: &str,
        seg: &PacketSegment,
        prefix: &str,
    ) -> (r: Result<CodeChunk, CodegenError>)
        ensures
            result_view(r) == spec_codegen_out_segment(*self.pid, payload_name@, *seg, prefix@),
    {
        let visited: Vec<String> = Vec::new();
        proof {
            assert(names_view(visited@) =~= Seq::<Seq<char>>::empty());
        }
        self.seg_rec(payload_name, seg, prefix, &visited, self.pid.structs.len())
    }

    /// Compiles the fields of a reusable struct as one nested fragment, each
    /// variable scoped under `prefix`. The struct itself counts as being
    /// expanded, so a self-reference reports a cycle.
    pub fn codegen_struct_fields(
        &self,
        payload_name: &str,
        rs: &ReusableStruct,
        prefix: &str,
    ) -> (r: Result<CodeChunk, CodegenError>)
        ensures
            result_view(r) == spec_compile_fields(
                *self.pid,
                payload_name@,
                rs.fields@,
                prefix@,
                seq![rs.name@],
                spec_fuel(*self.pid),
            ),
    {
        let visited: Vec<String> = Vec::new();
        let v1 = push_visited(&visited, &rs.name);
        proof {
            assert(names_view(visited@) =~= Seq::<Seq<char>>::empty());
            assert(names_view(v1@) =~= seq![rs.name@]);
        }
        self.fields_rec(payload_name, &rs.fields, prefix, &v1, self.pid.structs.len())
    }
}

/// One field line and variable of a generated struct definition.
pub open spec fn spec_struct_field(seg: PacketSegment) -> Result<(Seq<char>, Seq<GVar>), GError> {
    match seg {
        PacketSegment::Sized { name, bits, datatype, description } => {
            match datatype {
                SizedDataType::Const { data } => {
                    if bits as nat != 8 * data@.len() {
                        Err(GError::SizeMismatch { bits, bytes: data@.len() })
                    } else {
                        Ok((Seq::empty(), Seq::empty()))
                    }
                },
                _ => {
                    match spec_sized_type(bits, datatype) {
                        Err(e) => Err(e),
                        Ok(t) => {
                            let v = GVar { name: name@, datatype: t, desc: desc_view(description) };
                            Ok((spec_tab() + name@ + ": "@ + t + ",\n"@, seq![v]))
                        },
                    }
                },
            }
        },
        PacketSegment::Unsized { name, datatype, termination, description } => {
            match spec_term_check(termination) {
                Err(e) => Err(e),
                Ok(u) => {
                    let v = GVar {
                        name: name@,
                        datatype: spec_unsized_type(datatype),
                        desc: desc_view(description),
                    };
                    Ok((spec_tab() + name@ + ": "@ + v.datatype + ",\n"@, seq![v]))
                },
            }
        },
        PacketSegment::Struct { name, struct_name } => {
            let v = GVar { name: name@, datatype: struct_name@, desc: None };
            Ok((spec_tab() + name@ + ": "@ + struct_name@ + ",\n"@, seq![v]))
        },
    }
}

/// The field lines and variables of a generated struct definition, in
/// declared order; fails with the first field's error.
pub open spec fn spec_struct_fields(fields: Seq<PacketSegment>) -> Result<
    (Seq<char>, Seq<GVar>),
    GError,
>
    decreases fields.len(),
{
    if fields.len() == 0 {
        Ok((Seq::empty(), Seq::empty()))
    } else {
        match spec_struct_fields(fields.drop_last()) {
            Err(e) => Err(e),
            Ok(acc) => {
                match spec_struct_field(fields.last()) {
                    Err(e) => Err(e),
                    Ok(f) => Ok((acc.0 + f.0, acc.1 + f.1)),
                }
            },
        }
    }
}

/// A reusable struct compiled into a target-language struct definition:
/// a doc block from the struct's description, then one field per segment
/// that binds a variable (`Const` segments bind none). The field variables
/// stand in both dependency lists of the resulting fragment.
pub open spec fn spec_codegen_struct(struct_name: Seq<char>, rs: ReusableStruct) -> Result<
    GChunk,
    GError,
> {
    match spec_struct_fields(rs.fields@) {
        Err(e) => Err(e),
        Ok(f) => Ok(
            GChunk {
                code: (match rs.description {
                    Some(d) => "/// "@ + spec_replace_nl(d@, "\n/// "@) + "\n"@,
                    None => Seq::empty(),
                }) + "struct "@ + struct_name + " {\n"@ + f.0 + "}\n"@,
                inputs: f.1,
                outputs: f.1,
            },
        ),
    }
}

/// An error stays an error when the field list of a struct definition
/// grows: generation aborts on the first failing field.
pub proof fn lemma_struct_fields_err_extends(fields: Seq<PacketSegment>, k: int)
    requires
        0 <= k <= fields.len(),
        spec_struct_fields(fields.subrange(0, k)) is Err,
    ensures
        spec_struct_fields(fields) == spec_struct_fields(fields.subrange(0, k)),
    decreases fields.len() - k,
{
    if k == fields.len() {
        assert(fields.subrange(0, k) =~= fields);
    } else {
        assert(fields.subrange(0, k + 1).drop_last() =~= fields.subrange(0, k));
        assert(fields.subrange(0, k + 1).last() == fields[k]);
        lemma_struct_fields_err_extends(fields, k + 1);
    }
}

/// One generated struct field: its line of text and its variable, or
/// nothing for a `Const` segment.
fn struct_field(seg: &PacketSegment) -> (r: Result<(String, Option<Var>), CodegenError>)
    ensures
        match r {
            Ok(f) => spec_struct_field(*seg) == Ok::<(Seq<char>, Seq<GVar>), GError>(
                (
                    f.0@,
                    match f.1 {
                        Some(v) => seq![v@],
                        None => Seq::empty(),
                    },
                ),
            ),
            Err(e) => spec_struct_field(*seg) == Err::<(Seq<char>, Seq<GVar>), GError>(e@),
        },
{
    match seg {
        PacketSegment::Sized { name, bits, datatype, description } => {
            match datatype {
                SizedDataType::Const { data } => {
                    let fits = data.len() <= (u32::MAX as usize) / 8;
                    let size_ok = fits && (*bits as usize) == 8 * data.len();
                    proof {
                        assert(size_ok == (*bits as nat == 8 * data@.len()));
                    }
                    if !size_ok {
                        Err(CodegenError::SizeMismatch { bits: *bits, bytes: data.len() })
                    } else {
                        let t = String::new();
                        proof {
                            assert(t@ =~= Seq::<char>::empty());
                        }
                        Ok((t, None))
                    }
                },
                _ => {
                    match sized_type(*bits, datatype) {
                        Err(e) => Err(e),
                        Ok(t) => {
                            let mut line = String::new();
                            line.append("    ");
                            line.append(name.as_str());
                            line.append(": ");
                            line.append(t.as_str());
                            line.append(",\n");
                            proof {
                                assert(line@ =~= spec_tab() + name@ + ": "@ + t@ + ",\n"@);
                            }
                            let v = Var {
                                name: name.clone(),
                                datatype: t,
                                desc: clone_desc(description),
                            };
                            Ok((line, Some(v)))
                        },
                    }
                },
            }
        },
        PacketSegment::Unsized { name, datatype, termination, description } => {
            match term_check(termination) {
                Err(e) => Err(e),
                Ok(u) => {
                    let mut t = String::new();
                    match datatype {
                        UnsizedDataType::Array { item_struct } => {
                            t.append("&[");
                            t.append(item_struct.as_str());
                            t.append("]");
                        },
                        UnsizedDataType::StringUTF8 => {
                            t.append("&str");
                        },
                        UnsizedDataType::Raw => {
                            t.append("&[u8]");
                        },
                    }
                    proof {
                        assert(t@ =~= spec_unsized_type(*datatype));
                    }
                    let mut line = String::new();
                    line.append("    ");
                    line.append(name.as_str());
                    line.append(": ");
                    line.append(t.as_str());
                    line.append(",\n");
                    proof {
                        assert(line@ =~= spec_tab() + name@ + ": "@ + t@ + ",\n"@);
                    }
                    let v = Var { name: name.clone(), datatype: t, desc: clone_desc(description) };
                    Ok((line, Some(v)))
                },
            }
        },
        PacketSegment::Struct { name, struct_name } => {
            let mut line = String::new();
            line.append("    ");
            line.append(name.as_str());
            line.append(": ");
            line.append(struct_name.as_str());
            line.append(",\n");
            proof {
                assert(line@ =~= spec_tab() + name@ + ": "@ + struct_name@ + ",\n"@);
            }
            let v = Var { name: name.clone(), datatype: struct_name.clone(), desc: None };
            Ok((line, Some(v)))
        },
    }
}

impl<'a> RustEmbeddedHal<'a> {
    /// Generates the target-language struct definition of a reusable
    /// struct, exactly as [`spec_codegen_struct`] states.
    pub fn codegen_struct(&self, struct_name: &str, rs: &ReusableStruct) -> (r: Result<
        CodeChunk,
        CodegenError,
    >)
        ensures
            result_view(r) == spec_codegen_struct(struct_name@, *rs),
    {
        let n = rs.fields.len();
        let mut ftext = String::new();
        let mut fvars: Vec<Var> = Vec::new();
        let mut i: usize = 0;
        proof {
            assert(rs.fields@.subrange(0, 0).len() == 0);
            assert(fvars@.map_values(|v: Var| v@) =~= Seq::<GVar>::empty());
        }
        while i < n
            invariant
                n == rs.fields@.len(),
                0 <= i <= n,
                spec_struct_fields(rs.fields@.subrange(0, i as int)) == Ok::<
                    (Seq<char>, Seq<GVar>),
                    GError,
                >((ftext@, fvars@.map_values(|v: Var| v@))),
            decreases n - i,
        {
            let ghost prev_vars = fvars@.map_values(|v: Var| v@);
            match struct_field(&rs.fields[i]) {
                Err(e) => {
                    proof {
                        let sub1 = rs.fields@.subrange(0, i as int + 1);
                        assert(sub1.drop_last() =~= rs.fields@.subrange(0, i as int));
                        assert(sub1.last() == rs.fields@[i as int]);
                        assert(spec_struct_fields(sub1) == Err::<
                            (Seq<char>, Seq<GVar>),
                            GError,
                        >(e@));
                        lemma_struct_fields_err_extends(rs.fields@, i as int + 1);
                    }
                    return Err(e);
                },
                Ok(f) => {
                    let (line, var) = f;
                    ftext.append(line.as_str());
                    let ghost gv: Seq<GVar> = match &var {
                        Some(v) => seq![v@],
                        None => Seq::empty(),
                    };
                    match var {
                        Some(v) => {
                            fvars.push(v);
                        },
                        None => {},
                    }
                    proof {
                        let sub1 = rs.fields@.subrange(0, i as int + 1);
                        assert(sub1.drop_last() =~= rs.fields@.subrange(0, i as int));
                        assert(sub1.last() == rs.fields@[i as int]);
                        assert(fvars@.map_values(|v: Var| v@) =~= prev_vars + gv);
                        assert(spec_struct_fields(sub1) =~~= Ok::<(Seq<char>, Seq<GVar>), GError>(
                            (ftext@, fvars@.map_values(|v: Var| v@)),
                        ));
                    }
                },
            }
            i = i + 1;
        }
        proof {
            assert(rs.fields@.subrange(0, n as int) =~= rs.fields@);
        }
        let mut code = String::new();
        match &rs.description {
            Some(d) => {
                code.append("/// ");
                push_replace_nl(&mut code, d.as_str(), "\n/// ");
                code.append("\n");
            },
            None => {},
        }
        code.append("struct ");
        code.append(struct_name);
        code.append(" {\n");
        code.append(ftext.as_str());
        code.append("}\n");
        let mut outputs: Vec<Var> = Vec::new();
        let mut j: usize = 0;
        let nf = fvars.len();
        while j < nf
            invariant
                nf == fvars@.len(),
                0 <= j <= nf,
                outputs@.len() == j as int,
                forall|k: int| 0 <= k < j ==> outputs@[k] == fvars@[k],
            decreases nf - j,
        {
            outputs.push(clone_var(&fvars[j]));
            proof {
                assert(outputs@[j as int] == fvars@[j as int]);
            }
            j = j + 1;
        }
        proof {
            assert(outputs@ =~= fvars@);
        }
        let chunk = CodeChunk { data: code, inputs: fvars, outputs };
        proof {
            assert(chunk@ =~~= GChunk {
                code: chunk@.code,
                inputs: chunk@.inputs,
                outputs: chunk@.inputs,
            });
        }
        Ok(chunk)
    }

    /// Compiles a whole payload into one callable unit, exactly as
    /// [`spec_codegen_out_payload`] states: a doc block, then a function
    /// whose parameters are the merged segment inputs in first-appearance
    /// order and whose body is the segments' writes in declared order.
    pub fn codegen_out_payload(&self, name: &str, load: &Payload) -> (r: Result<
        CodeChunk,
        CodegenError,
    >)
        ensures
            result_view(r) == spec_codegen_out_payload(*self.pid, name@, *load),
    {
        let visited: Vec<String> = Vec::new();
        proof {
            reveal_strlit("");
            assert(""@ =~= Seq::<char>::empty());
            assert(names_view(visited@) =~= Seq::<Seq<char>>::empty());
        }
        let parts = match self.fields_rec(
            name,
            &load.segments,
            "",
            &visited,
            self.pid.structs.len(),
        ) {
            Err(e) => {
                return Err(e);
            },
            Ok(p) => p,
        };
        let CodeChunk { data: body, inputs, outputs: _ } = parts;
        let ghost ivs = inputs@.map_values(|v: Var| v@);
        let mut code = String::new();
        code.append("/// ");
        push_replace_nl(&mut code, load.description.as_str(), "\n/// ");
        code.append("\n");
        let ghost head_docs = code@;
        let ni = inputs.len();
        let mut i: usize = 0;
        proof {
            assert(ivs.subrange(0, 0).len() == 0);
            assert(code@ =~= head_docs + spec_doc_lines(ivs.subrange(0, 0)));
        }
        while i < ni
            invariant
                ni == inputs@.len(),
                0 <= i <= ni,
                ivs == inputs@.map_values(|v: Var| v@),
                code@ == head_docs + spec_doc_lines(ivs.subrange(0, i as int)),
            decreases ni - i,
        {
            let v = &inputs[i];
            match &v.desc {
                Some(d) => {
                    code.append("/// * `");
                    code.append(v.name.as_str());
                    code.append("` - ");
                    push_replace_nl(&mut code, d.as_str(), "\n///   ");
                    code.append("\n");
                },
                None => {},
            }
            proof {
                let sub1 = ivs.subrange(0, i as int + 1);
                assert(sub1.drop_last() =~= ivs.subrange(0, i as int));
                assert(sub1.last() == ivs[i as int]);
                assert(ivs[i as int] == inputs@[i as int]@);
                assert(code@ =~= head_docs + spec_doc_lines(sub1));
            }
            i = i + 1;
        }
        code.append("fn ");
        code.append(name);
        code.append("(");
        let ghost head_sig = code@;
        let mut j: usize = 0;
        proof {
            assert(code@ =~= head_sig + spec_params(ivs.subrange(0, 0)));
        }
        while j < ni
            invariant
                ni == inputs@.len(),
                0 <= j <= ni,
                ivs == inputs@.map_values(|v: Var| v@),
                code@ == head_sig + spec_params(ivs.subrange(0, j as int)),
            decreases ni - j,
        {
            if j > 0 {
                code.append(", ");
            }
            let v = &inputs[j];
            code.append(v.name.as_str());
            code.append(": ");
            code.append(v.datatype.as_str());
            proof {
                let sub1 = ivs.subrange(0, j as int + 1);
                assert(sub1.drop_last() =~= ivs.subrange(0, j as int));
                assert(sub1.last() == ivs[j as int]);
                assert(ivs[j as int] == inputs@[j as int]@);
                assert(code@ =~= head_sig + spec_params(sub1));
            }
            j = j + 1;
        }
        code.append(") {\n");
        code.append(body.as_str());
        code.append("}\n");
        proof {
            assert(ivs.subrange(0, ni as int) =~= ivs);
        }
        let chunk = CodeChunk { data: code, inputs, outputs: Vec::new() };
        proof {
            assert(chunk@.outputs =~= Seq::<GVar>::empty());
            assert(chunk@ =~~= GChunk {
                code: chunk@.code,
                inputs: ivs,
                outputs: Seq::empty(),
            });
        }
        Ok(chunk)
    }
}

} // verus!
