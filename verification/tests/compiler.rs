use openpid_embedded_hal::codegen::RustEmbeddedHal;
use openpid_embedded_hal::model::{
    CodegenError, DeviceInfo, Endianness, PacketSegment, Payload, ReusableStruct, Schema, Signing,
    SizedDataType, Termination, UnsizedDataType,
};

fn schema_with(structs: Vec<ReusableStruct>) -> Schema {
    Schema {
        device_info: DeviceInfo {
            name: "dev".to_string(),
            description: "a test device".to_string(),
            doc_version: Some("1.0.0".to_string()),
        },
        structs,
        payloads: vec![],
    }
}

fn int_seg(name: &str, bits: u32, e: Endianness, s: Signing) -> PacketSegment {
    PacketSegment::Sized {
        name: name.to_string(),
        bits,
        datatype: SizedDataType::Integer {
            endianness: e,
            signing: s,
        },
        description: None,
    }
}

#[test]
fn integer_width_24_fails() {
    let schema = schema_with(vec![]);
    let gen = RustEmbeddedHal::new(&schema);
    let seg = int_seg("x", 24, Endianness::BigEndian, Signing::Unsigned);
    let r = gen.codegen_out_segment("pl", &seg, "");
    assert_eq!(r, Err(CodegenError::UnsupportedWidth { bits: 24 }));
}

#[test]
fn integer_width_32_succeeds() {
    let schema = schema_with(vec![]);
    let gen = RustEmbeddedHal::new(&schema);
    let seg = int_seg("x", 32, Endianness::BigEndian, Signing::Unsigned);
    let chunk = gen.codegen_out_segment("pl", &seg, "").unwrap();
    assert_eq!(chunk.data, "    write(x.to_be_bytes())\n");
    assert_eq!(chunk.inputs.len(), 1);
    assert_eq!(chunk.inputs[0].name, "x");
    assert_eq!(chunk.inputs[0].datatype, "u32");
}

#[test]
fn integer_little_endian_signed() {
    let schema = schema_with(vec![]);
    let gen = RustEmbeddedHal::new(&schema);
    let seg = int_seg("t", 16, Endianness::LittleEndian, Signing::TwosComplement);
    let chunk = gen.codegen_out_segment("pl", &seg, "").unwrap();
    assert_eq!(chunk.data, "    write(t.to_le_bytes())\n");
    assert_eq!(chunk.inputs[0].datatype, "i16");
}

#[test]
fn ones_complement_unsupported() {
    let schema = schema_with(vec![]);
    let gen = RustEmbeddedHal::new(&schema);
    let seg = int_seg("x", 8, Endianness::BigEndian, Signing::OnesComplement);
    let r = gen.codegen_out_segment("pl", &seg, "");
    assert_eq!(r, Err(CodegenError::UnsupportedSigning));
}

#[test]
fn const_size_mismatch() {
    let schema = schema_with(vec![]);
    let gen = RustEmbeddedHal::new(&schema);
    let seg = PacketSegment::Sized {
        name: "magic".to_string(),
        bits: 16,
        datatype: SizedDataType::Const { data: vec![7] },
        description: None,
    };
    let r = gen.codegen_out_segment("pl", &seg, "");
    assert_eq!(r, Err(CodegenError::SizeMismatch { bits: 16, bytes: 1 }));
}

#[test]
fn const_two_bytes_in_order() {
    let schema = schema_with(vec![]);
    let gen = RustEmbeddedHal::new(&schema);
    let seg = PacketSegment::Sized {
        name: "magic".to_string(),
        bits: 16,
        datatype: SizedDataType::Const { data: vec![18, 52] },
        description: None,
    };
    let chunk = gen.codegen_out_segment("pl", &seg, "").unwrap();
    assert_eq!(chunk.data, "    // magic\n    write([18, 52]);\n");
    assert!(chunk.inputs.is_empty());
}

#[test]
fn string_not_byte_aligned() {
    let schema = schema_with(vec![]);
    let gen = RustEmbeddedHal::new(&schema);
    let seg = PacketSegment::Sized {
        name: "s".to_string(),
        bits: 12,
        datatype: SizedDataType::StringUTF8,
        description: None,
    };
    let r = gen.codegen_out_segment("pl", &seg, "");
    assert_eq!(r, Err(CodegenError::NotByteAligned { bits: 12 }));
}

#[test]
fn string_byte_aligned_succeeds() {
    let schema = schema_with(vec![]);
    let gen = RustEmbeddedHal::new(&schema);
    let seg = PacketSegment::Sized {
        name: "s".to_string(),
        bits: 16,
        datatype: SizedDataType::StringUTF8,
        description: None,
    };
    let chunk = gen.codegen_out_segment("pl", &seg, "").unwrap();
    assert_eq!(chunk.data, "    write(s.as_bytes())\n");
    assert_eq!(chunk.inputs[0].datatype, "&str");
}

#[test]
fn float_width_16_fails() {
    let schema = schema_with(vec![]);
    let gen = RustEmbeddedHal::new(&schema);
    let seg = PacketSegment::Sized {
        name: "f".to_string(),
        bits: 16,
        datatype: SizedDataType::FloatIEEE {
            endianness: Endianness::BigEndian,
        },
        description: None,
    };
    let r = gen.codegen_out_segment("pl", &seg, "");
    assert_eq!(r, Err(CodegenError::UnsupportedWidth { bits: 16 }));
}

#[test]
fn float_width_64_succeeds() {
    let schema = schema_with(vec![]);
    let gen = RustEmbeddedHal::new(&schema);
    let seg = PacketSegment::Sized {
        name: "f".to_string(),
        bits: 64,
        datatype: SizedDataType::FloatIEEE {
            endianness: Endianness::LittleEndian,
        },
        description: None,
    };
    let chunk = gen.codegen_out_segment("pl", &seg, "").unwrap();
    assert_eq!(chunk.data, "    write(f.to_le_bytes())\n");
    assert_eq!(chunk.inputs[0].datatype, "f64");
}

#[test]
fn raw_rounds_bits_up_to_bytes() {
    let schema = schema_with(vec![]);
    let gen = RustEmbeddedHal::new(&schema);
    let seg = PacketSegment::Sized {
        name: "r".to_string(),
        bits: 12,
        datatype: SizedDataType::Raw,
        description: None,
    };
    let chunk = gen.codegen_out_segment("pl", &seg, "").unwrap();
    assert_eq!(chunk.data, "    write(r)\n");
    assert_eq!(chunk.inputs[0].datatype, "&[u8; 2]");
}

fn point_struct() -> ReusableStruct {
    ReusableStruct {
        name: "point".to_string(),
        fields: vec![
            int_seg("a", 8, Endianness::BigEndian, Signing::Unsigned),
            int_seg("b", 8, Endianness::BigEndian, Signing::Unsigned),
        ],
        description: None,
    }
}

#[test]
fn struct_aggregation_single_input() {
    let schema = schema_with(vec![point_struct()]);
    let gen = RustEmbeddedHal::new(&schema);
    let seg = PacketSegment::Struct {
        name: "p".to_string(),
        struct_name: "point".to_string(),
    };
    let chunk = gen.codegen_out_segment("pl", &seg, "").unwrap();
    assert_eq!(chunk.inputs.len(), 1);
    assert_eq!(chunk.inputs[0].name, "p");
    assert_eq!(chunk.inputs[0].datatype, "point");
    assert_eq!(
        chunk.data,
        "    write(p.a.to_be_bytes())\n    write(p.b.to_be_bytes())\n"
    );
}

#[test]
fn struct_fields_internally_prefixed() {
    let schema = schema_with(vec![point_struct()]);
    let gen = RustEmbeddedHal::new(&schema);
    let rs = point_struct();
    let chunk = gen.codegen_struct_fields("pl", &rs, "p.").unwrap();
    assert_eq!(chunk.inputs.len(), 2);
    assert_eq!(chunk.inputs[0].name, "p.a");
    assert_eq!(chunk.inputs[1].name, "p.b");
}

#[test]
fn unresolved_struct_reports_names() {
    let schema = schema_with(vec![point_struct()]);
    let gen = RustEmbeddedHal::new(&schema);
    let seg = PacketSegment::Struct {
        name: "hdr".to_string(),
        struct_name: "missing".to_string(),
    };
    let r = gen.codegen_out_segment("pl", &seg, "");
    assert_eq!(
        r,
        Err(CodegenError::UnresolvedStruct {
            requested_by_payload: "pl".to_string(),
            requested_by_field: "hdr".to_string(),
            struct_name: "missing".to_string(),
        })
    );
}

#[test]
fn cyclic_struct_reference_detected() {
    let cyclic = ReusableStruct {
        name: "node".to_string(),
        fields: vec![PacketSegment::Struct {
            name: "next".to_string(),
            struct_name: "node".to_string(),
        }],
        description: None,
    };
    let schema = schema_with(vec![cyclic]);
    let gen = RustEmbeddedHal::new(&schema);
    let seg = PacketSegment::Struct {
        name: "root".to_string(),
        struct_name: "node".to_string(),
    };
    let r = gen.codegen_out_segment("pl", &seg, "");
    assert_eq!(
        r,
        Err(CodegenError::CyclicReference {
            requested_by_payload: "pl".to_string(),
            struct_name: "node".to_string(),
        })
    );
}

#[test]
fn parameter_ordering_follows_declaration() {
    let schema = schema_with(vec![]);
    let gen = RustEmbeddedHal::new(&schema);
    let load = Payload {
        description: "sends three fields".to_string(),
        segments: vec![
            int_seg("x", 32, Endianness::BigEndian, Signing::Unsigned),
            PacketSegment::Sized {
                name: "y".to_string(),
                bits: 16,
                datatype: SizedDataType::StringUTF8,
                description: None,
            },
            int_seg("z", 32, Endianness::BigEndian, Signing::Unsigned),
        ],
    };
    let chunk = gen.codegen_out_payload("send", &load).unwrap();
    let names: Vec<&str> = chunk.inputs.iter().map(|v| v.name.as_str()).collect();
    assert_eq!(names, vec!["x", "y", "z"]);
    assert!(chunk.data.contains("fn send(x: u32, y: &str, z: u32) {\n"));
}

#[test]
fn payload_docs_and_body() {
    let schema = schema_with(vec![]);
    let gen = RustEmbeddedHal::new(&schema);
    let load = Payload {
        description: "ping".to_string(),
        segments: vec![PacketSegment::Sized {
            name: "seqno".to_string(),
            bits: 8,
            datatype: SizedDataType::Integer {
                endianness: Endianness::BigEndian,
                signing: Signing::Unsigned,
            },
            description: Some("message counter".to_string()),
        }],
    };
    let chunk = gen.codegen_out_payload("ping", &load).unwrap();
    assert_eq!(
        chunk.data,
        "/// ping\n/// * `seqno` - message counter\nfn ping(seqno: u8) {\n    write(seqno.to_be_bytes())\n}\n"
    );
}

#[test]
fn payload_compilation_is_deterministic() {
    let schema_a = schema_with(vec![point_struct()]);
    let schema_b = schema_with(vec![point_struct()]);
    let load = Payload {
        description: "sync".to_string(),
        segments: vec![
            PacketSegment::Struct {
                name: "p".to_string(),
                struct_name: "point".to_string(),
            },
            int_seg("crc", 16, Endianness::BigEndian, Signing::Unsigned),
        ],
    };
    let first = RustEmbeddedHal::new(&schema_a)
        .codegen_out_payload("sync", &load)
        .unwrap();
    let second = RustEmbeddedHal::new(&schema_b)
        .codegen_out_payload("sync", &load)
        .unwrap();
    assert_eq!(first, second);
    assert_eq!(first.data.as_bytes(), second.data.as_bytes());
}

#[test]
fn payload_aborts_on_first_error() {
    let schema = schema_with(vec![]);
    let gen = RustEmbeddedHal::new(&schema);
    let load = Payload {
        description: "broken".to_string(),
        segments: vec![
            int_seg("ok", 8, Endianness::BigEndian, Signing::Unsigned),
            int_seg("bad", 24, Endianness::BigEndian, Signing::Unsigned),
            int_seg("worse", 23, Endianness::BigEndian, Signing::Unsigned),
        ],
    };
    let r = gen.codegen_out_payload("broken", &load);
    assert_eq!(r, Err(CodegenError::UnsupportedWidth { bits: 24 }));
}

#[test]
fn unsized_string_length_prefixed() {
    let schema = schema_with(vec![]);
    let gen = RustEmbeddedHal::new(&schema);
    let seg = PacketSegment::Unsized {
        name: "msg".to_string(),
        datatype: UnsizedDataType::StringUTF8,
        termination: Termination::LengthPrefixed { bits: 16 },
        description: None,
    };
    let chunk = gen.codegen_out_segment("pl", &seg, "").unwrap();
    assert_eq!(
        chunk.data,
        "    write((msg.len() as u16).to_be_bytes())\n    write(msg.as_bytes())\n"
    );
    assert_eq!(chunk.inputs[0].datatype, "&str");
}

#[test]
fn unsized_raw_delimited() {
    let schema = schema_with(vec![]);
    let gen = RustEmbeddedHal::new(&schema);
    let seg = PacketSegment::Unsized {
        name: "blob".to_string(),
        datatype: UnsizedDataType::Raw,
        termination: Termination::Delimiter { byte: 0 },
        description: None,
    };
    let chunk = gen.codegen_out_segment("pl", &seg, "").unwrap();
    assert_eq!(chunk.data, "    write(blob)\n    write([0]);\n");
    assert_eq!(chunk.inputs[0].datatype, "&[u8]");
}

#[test]
fn unsized_length_prefix_width_checked() {
    let schema = schema_with(vec![]);
    let gen = RustEmbeddedHal::new(&schema);
    let seg = PacketSegment::Unsized {
        name: "msg".to_string(),
        datatype: UnsizedDataType::StringUTF8,
        termination: Termination::LengthPrefixed { bits: 12 },
        description: None,
    };
    let r = gen.codegen_out_segment("pl", &seg, "");
    assert_eq!(r, Err(CodegenError::UnsupportedWidth { bits: 12 }));
}

#[test]
fn unsized_array_loops_over_items() {
    let schema = schema_with(vec![point_struct()]);
    let gen = RustEmbeddedHal::new(&schema);
    let seg = PacketSegment::Unsized {
        name: "pts".to_string(),
        datatype: UnsizedDataType::Array {
            item_struct: "point".to_string(),
        },
        termination: Termination::LengthPrefixed { bits: 8 },
        description: None,
    };
    let chunk = gen.codegen_out_segment("pl", &seg, "").unwrap();
    assert_eq!(
        chunk.data,
        "    write((pts.len() as u8).to_be_bytes())\n    for item in pts {\n        write(item.a.to_be_bytes())\n        write(item.b.to_be_bytes())\n    }\n"
    );
    assert_eq!(chunk.inputs.len(), 1);
    assert_eq!(chunk.inputs[0].datatype, "&[point]");
}

#[test]
fn unsized_array_unresolved_item() {
    let schema = schema_with(vec![]);
    let gen = RustEmbeddedHal::new(&schema);
    let seg = PacketSegment::Unsized {
        name: "pts".to_string(),
        datatype: UnsizedDataType::Array {
            item_struct: "point".to_string(),
        },
        termination: Termination::Delimiter { byte: 255 },
        description: None,
    };
    let r = gen.codegen_out_segment("pl", &seg, "");
    assert_eq!(
        r,
        Err(CodegenError::UnresolvedStruct {
            requested_by_payload: "pl".to_string(),
            requested_by_field: "pts".to_string(),
            struct_name: "point".to_string(),
        })
    );
}

#[test]
fn struct_definition_text() {
    let schema = schema_with(vec![]);
    let gen = RustEmbeddedHal::new(&schema);
    let rs = ReusableStruct {
        name: "frame".to_string(),
        fields: vec![
            int_seg("len", 16, Endianness::BigEndian, Signing::Unsigned),
            PacketSegment::Sized {
                name: "magic".to_string(),
                bits: 8,
                datatype: SizedDataType::Const { data: vec![42] },
                description: None,
            },
            PacketSegment::Sized {
                name: "body".to_string(),
                bits: 32,
                datatype: SizedDataType::Raw,
                description: None,
            },
        ],
        description: Some("one framed message".to_string()),
    };
    let chunk = gen.codegen_struct("frame", &rs).unwrap();
    assert_eq!(
        chunk.data,
        "/// one framed message\nstruct frame {\n    len: u16,\n    body: &[u8; 4],\n}\n"
    );
    assert_eq!(chunk.inputs.len(), 2);
    assert_eq!(chunk.outputs.len(), 2);
    assert_eq!(chunk.inputs[0].name, "len");
    assert_eq!(chunk.inputs[1].name, "body");
}

#[test]
fn struct_definition_validates_fields() {
    let schema = schema_with(vec![]);
    let gen = RustEmbeddedHal::new(&schema);
    let rs = ReusableStruct {
        name: "bad".to_string(),
        fields: vec![int_seg("x", 48, Endianness::BigEndian, Signing::Unsigned)],
        description: None,
    };
    let r = gen.codegen_struct("bad", &rs);
    assert_eq!(r, Err(CodegenError::UnsupportedWidth { bits: 48 }));
}

#[test]
fn nested_struct_prefixes_compose() {
    let inner = ReusableStruct {
        name: "inner".to_string(),
        fields: vec![int_seg("v", 8, Endianness::BigEndian, Signing::Unsigned)],
        description: None,
    };
    let outer = ReusableStruct {
        name: "outer".to_string(),
        fields: vec![PacketSegment::Struct {
            name: "in_part".to_string(),
            struct_name: "inner".to_string(),
        }],
        description: None,
    };
    let schema = schema_with(vec![inner, outer]);
    let gen = RustEmbeddedHal::new(&schema);
    let seg = PacketSegment::Struct {
        name: "o".to_string(),
        struct_name: "outer".to_string(),
    };
    let chunk = gen.codegen_out_segment("pl", &seg, "").unwrap();
    assert_eq!(chunk.data, "    write(o.in_part.v.to_be_bytes())\n");
    assert_eq!(chunk.inputs.len(), 1);
    assert_eq!(chunk.inputs[0].name, "o");
}

#[test]
fn multiline_descriptions_indent_doc_lines() {
    let schema = schema_with(vec![]);
    let gen = RustEmbeddedHal::new(&schema);
    let load = Payload {
        description: "line one\nline two".to_string(),
        segments: vec![PacketSegment::Sized {
            name: "x".to_string(),
            bits: 8,
            datatype: SizedDataType::Integer {
                endianness: Endianness::BigEndian,
                signing: Signing::Unsigned,
            },
            description: Some("first\nsecond".to_string()),
        }],
    };
    let chunk = gen.codegen_out_payload("go", &load).unwrap();
    assert!(chunk.data.starts_with("/// line one\n/// line two\n"));
    assert!(chunk
        .data
        .contains("/// * `x` - first\n///   second\n"));
}
