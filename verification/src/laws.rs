//! Laws the compiler obeys, stated over the compilation spec functions and
//! proved once for all schemas: determinism, struct aggregation, field-name
//! scoping, and parameter ordering.

use vstd::prelude::*;

use crate::codegen::{
    spec_codegen_out_payload, spec_codegen_out_segment, spec_compile_fields, spec_compile_segment,
    spec_fuel, spec_resolve,
};
use crate::model::{GChunk, GError, PacketSegment, Payload, Schema};

verus! {

/// Determinism: compilation is a pure function of the schema, the payload
/// name and the payload alone, so compiling the same schema twice yields
/// byte-identical generated text. Together with the compilers' exact
/// postconditions, two runs on equal inputs return equal chunks.
pub proof fn lemma_codegen_deterministic(
    a: Schema,
    b: Schema,
    name_a: Seq<char>,
    name_b: Seq<char>,
    pa: Payload,
    pb: Payload,
)
    requires
        a == b,
        name_a == name_b,
        pa == pb,
    ensures
        spec_codegen_out_payload(a, name_a, pa) == spec_codegen_out_payload(b, name_b, pb),
{
}

/// Struct aggregation: a compiled `Struct` segment contributes exactly one
/// aggregate input — the struct instance, typed as the referenced struct —
/// to its enclosing unit, never one input per inner field; and it compiles
/// only when the reference resolves.
pub proof fn lemma_struct_aggregation(
    schema: Schema,
    payload_name: Seq<char>,
    fname: String,
    sname: String,
    prefix: Seq<char>,
    chunk: GChunk,
)
    requires
        spec_codegen_out_segment(
            schema,
            payload_name,
            PacketSegment::Struct { name: fname, struct_name: sname },
            prefix,
        ) == Ok::<GChunk, GError>(chunk),
    ensures
        chunk.inputs.len() == 1,
        chunk.inputs[0].name == prefix + fname@,
        chunk.inputs[0].datatype == sname@,
        spec_resolve(schema.structs@, sname@) is Some,
{
    assert(!Seq::<Seq<char>>::empty().contains(sname@));
    assert(spec_resolve(schema.structs@, sname@) is Some);
    assert(schema.structs@.len() > 0);
}

/// Field scoping: every input variable of a segment compiled under a
/// field-name prefix carries that prefix at the start of its name.
pub proof fn lemma_segment_prefix_scoping(
    schema: Schema,
    payload_name: Seq<char>,
    seg: PacketSegment,
    prefix: Seq<char>,
    visited: Seq<Seq<char>>,
    fuel: nat,
    chunk: GChunk,
)
    requires
        spec_compile_segment(schema, payload_name, seg, prefix, visited, fuel) == Ok::<
            GChunk,
            GError,
        >(chunk),
    ensures
        forall|i: int|
            0 <= i < chunk.inputs.len() ==> (#[trigger] chunk.inputs[i].name).take(
                prefix.len() as int,
            ) == prefix,
{
    assert forall|i: int| 0 <= i < chunk.inputs.len() implies (#[trigger] chunk.inputs[i].name)
        .take(prefix.len() as int) == prefix by {
        match seg {
            PacketSegment::Sized { name, bits, datatype, description } => {
                assert((prefix + name@).take(prefix.len() as int) =~= prefix);
            },
            PacketSegment::Unsized { name, datatype, termination, description } => {
                assert((prefix + name@).take(prefix.len() as int) =~= prefix);
            },
            PacketSegment::Struct { name, struct_name } => {
                assert((prefix + name@).take(prefix.len() as int) =~= prefix);
            },
        }
    }
}

/// Field scoping, lifted to a nested fragment: every input variable of a
/// compiled field list carries the fragment's field-name prefix. Inner
/// fields of an embedded struct stay scoped inside that nested fragment —
/// only the aggregate instance variable surfaces.
pub proof fn lemma_fields_prefix_scoping(
    schema: Schema,
    payload_name: Seq<char>,
    fields: Seq<PacketSegment>,
    prefix: Seq<char>,
    visited: Seq<Seq<char>>,
    fuel: nat,
    chunk: GChunk,
)
    requires
        spec_compile_fields(schema, payload_name, fields, prefix, visited, fuel) == Ok::<
            GChunk,
            GError,
        >(chunk),
    ensures
        forall|i: int|
            0 <= i < chunk.inputs.len() ==> (#[trigger] chunk.inputs[i].name).take(
                prefix.len() as int,
            ) == prefix,
    decreases fields.len(),
{
    if fields.len() == 0 {
    } else {
        let head = spec_compile_fields(
            schema,
            payload_name,
            fields.drop_last(),
            prefix,
            visited,
            fuel,
        );
        let last = spec_compile_segment(
            schema,
            payload_name,
            fields.last(),
            prefix,
            visited,
            fuel,
        );
        match head {
            Err(e) => {
                assert(false);
            },
            Ok(acc) => {
                match last {
                    Err(e) => {
                        assert(false);
                    },
                    Ok(ch) => {
                        lemma_fields_prefix_scoping(
                            schema,
                            payload_name,
                            fields.drop_last(),
                            prefix,
                            visited,
                            fuel,
                            acc,
                        );
                        lemma_segment_prefix_scoping(
                            schema,
                            payload_name,
                            fields.last(),
                            prefix,
                            visited,
                            fuel,
                            ch,
                        );
                        assert(chunk.inputs == acc.inputs + ch.inputs);
                        assert forall|i: int|
                            0 <= i < chunk.inputs.len() implies (#[trigger] chunk.inputs[i].name)
                            .take(prefix.len() as int) == prefix by {
                            if i < acc.inputs.len() {
                                assert(chunk.inputs[i] == acc.inputs[i]);
                            } else {
                                assert(chunk.inputs[i] == ch.inputs[i - acc.inputs.len()]);
                            }
                        }
                    },
                }
            },
        }
    }
}

/// The inputs each segment of a list contributes, concatenated in declared
/// order. Defined only from the per-segment compilation results.
pub open spec fn spec_segment_inputs(
    schema: Schema,
    payload_name: Seq<char>,
    fields: Seq<PacketSegment>,
    prefix: Seq<char>,
    visited: Seq<Seq<char>>,
    fuel: nat,
) -> Seq<crate::model::GVar>
    decreases fields.len(),
{
    if fields.len() == 0 {
        Seq::empty()
    } else {
        spec_segment_inputs(schema, payload_name, fields.drop_last(), prefix, visited, fuel) + (
        match spec_compile_segment(schema, payload_name, fields.last(), prefix, visited, fuel) {
            Ok(ch) => ch.inputs,
            Err(e) => Seq::empty(),
        })
    }
}

/// Parameter ordering: when a field list compiles, its merged input list is
/// exactly the concatenation, in declared order, of what each segment
/// contributes on its own — first appearance is preserved, nothing is
/// reordered or coalesced — and every segment compiles.
pub proof fn lemma_fields_inputs_ordered(
    schema: Schema,
    payload_name: Seq<char>,
    fields: Seq<PacketSegment>,
    prefix: Seq<char>,
    visited: Seq<Seq<char>>,
    fuel: nat,
    chunk: GChunk,
)
    requires
        spec_compile_fields(schema, payload_name, fields, prefix, visited, fuel) == Ok::<
            GChunk,
            GError,
        >(chunk),
    ensures
        chunk.inputs == spec_segment_inputs(schema, payload_name, fields, prefix, visited, fuel),
        forall|i: int|
            0 <= i < fields.len() ==> spec_compile_segment(
                schema,
                payload_name,
                #[trigger] fields[i],
                prefix,
                visited,
                fuel,
            ) is Ok,
    decreases fields.len(),
{
    if fields.len() == 0 {
        assert(chunk.inputs =~= Seq::<crate::model::GVar>::empty());
    } else {
        let head = spec_compile_fields(
            schema,
            payload_name,
            fields.drop_last(),
            prefix,
            visited,
            fuel,
        );
        match head {
            Err(e) => {
                assert(false);
            },
            Ok(acc) => {
                lemma_fields_inputs_ordered(
                    schema,
                    payload_name,
                    fields.drop_last(),
                    prefix,
                    visited,
                    fuel,
                    acc,
                );
                assert forall|i: int|
                    0 <= i < fields.len() implies spec_compile_segment(
                    schema,
                    payload_name,
                    #[trigger] fields[i],
                    prefix,
                    visited,
                    fuel,
                ) is Ok by {
                    if i < fields.len() - 1 {
                        assert(fields.drop_last()[i] == fields[i]);
                    } else {
                        assert(fields.last() == fields[i]);
                    }
                }
            },
        }
    }
}

/// Parameter ordering at the payload level: the compiled unit's parameter
/// list is exactly the segments' own inputs, concatenated in declared
/// order, whatever order sub-fragments were produced in.
pub proof fn lemma_parameter_ordering(
    schema: Schema,
    name: Seq<char>,
    load: Payload,
    chunk: GChunk,
)
    requires
        spec_codegen_out_payload(schema, name, load) == Ok::<GChunk, GError>(chunk),
    ensures
        chunk.inputs == spec_segment_inputs(
            schema,
            name,
            load.segments@,
            Seq::empty(),
            Seq::empty(),
            spec_fuel(schema),
        ),
{
    let parts = spec_compile_fields(
        schema,
        name,
        load.segments@,
        Seq::empty(),
        Seq::empty(),
        spec_fuel(schema),
    );
    match parts {
        Err(e) => {
            assert(false);
        },
        Ok(p) => {
            lemma_fields_inputs_ordered(
                schema,
                name,
                load.segments@,
                Seq::empty(),
                Seq::empty(),
                spec_fuel(schema),
                p,
            );
        },
    }
}

} // verus!
