use rgtree::ascii::read_num_el;
use rgtree::cursor::ByteReader;
use rgtree::field::{
    F32Bits, F64Bits, Matrix2, Matrix3, Matrix4, UnitComplexBits, UnitQuatBits, UuidBytes,
    Vector2, Vector3, Vector4,
};
use rgtree::reader::Reader;
use rgtree::{AsciiReader, Field, FieldKind};

fn b32(v: f32) -> F32Bits {
    F32Bits(v.to_bits())
}

fn b64v(v: f64) -> F64Bits {
    F64Bits(v.to_bits())
}

#[test]
fn test_byte_reader_methods() {
    let input = "Name 123 \t 456  789 0 \t this_is_string : other_string; ;";
    let mut reader = ByteReader::new(input.as_bytes());
    assert_eq!(reader.peek().unwrap(), b'N');
    assert_eq!(reader.peek().unwrap(), b'N');
    assert_eq!(reader.next().unwrap(), b'N');
    assert_eq!(reader.next().unwrap(), b'a');
    assert_eq!(reader.next().unwrap(), b'm');
    assert_eq!(reader.next().unwrap(), b'e');

    reader.skip_n(1).unwrap();

    assert_eq!(reader.next().unwrap(), b'1');
    assert_eq!(reader.next().unwrap(), b'2');
    assert_eq!(reader.next().unwrap(), b'3');

    reader.skip_ws().unwrap();

    assert_eq!(reader.next().unwrap(), b'4');
    assert_eq!(reader.next().unwrap(), b'5');
    assert_eq!(reader.next().unwrap(), b'6');

    reader.skip_until(|ch| ch != b'7').unwrap();

    assert_eq!(reader.next().unwrap(), b'7');

    reader.skip_until(|ch| ch != b'8').unwrap();
    reader.skip_n(1).unwrap();

    assert_eq!(reader.next().unwrap(), b'9');

    reader.skip_ws().unwrap();
    reader.skip_ws().unwrap();

    assert_eq!(reader.next().unwrap(), b'0');

    assert_eq!(
        reader.read_str_until_skip_ws(b':').unwrap(),
        "this_is_string"
    );

    assert_eq!(reader.peek().unwrap(), b' ');

    assert_eq!(reader.read_str_until_skip_ws(b';').unwrap(), "other_string");

    assert_eq!(reader.next().unwrap(), b' ');
    assert_eq!(reader.peek().unwrap(), b';');
    reader.skip_n(1).unwrap();
    assert!(reader.next().is_err());
}

#[test]
fn test_byte_reader_complex() {
    let input = "\t\t  Name<u32: \t 123 > OtherField<  f64  \t   :  123.321  >";
    let mut reader = ByteReader::new(input.as_bytes());
    assert_eq!(
        reader.read_str_until_skip_ws(b'<').unwrap().as_str(),
        "Name"
    );
    assert_eq!(reader.read_str_until_skip_ws(b':').unwrap().as_str(), "u32");
    assert_eq!(read_num_el::<u32>(&mut reader, b'>').unwrap(), 123);

    assert_eq!(
        reader.read_str_until_skip_ws(b'<').unwrap().as_str(),
        "OtherField"
    );
    assert_eq!(reader.read_str_until_skip_ws(b':').unwrap().as_str(), "f64");
    assert_eq!(read_num_el::<F64Bits>(&mut reader, b'>').unwrap(), b64v(123.321));
}

#[test]
fn test_parse_field() {
    let input = r#"
        U8<u8:123>
        I8<i8:-123>
        U16<u16:123>
        I16<i16:-123>
        U32<u32:123>
        I32<i32:-123>
        U64<u64:123>
        I64<i64:-123>
        F32<f32:123.321>
        F64<f64:123.321>
        Vec2F32<vec2f32:1.1; 2.2>
        Vec3F32<vec3f32:1.1; 2.2; 3.3>
        Vec4F32<vec4f32:1.1; 2.2; 3.3; 4.4>
        Vec2F64<vec2f64:1.1; 2.2>
        Vec3F64<vec3f64:1.1; 2.2; 3.3>
        Vec4F64<vec4f64:1.1; 2.2; 3.3; 4.4>
        Vec2I8<vec2i8:-1; -2>
        Vec2U8<vec2u8:1; 2>
        Vec2I16<vec2i16:-1; -2>
        Vec2U16<vec2u16:1; 2>
        Vec2I32<vec2i32:-1; -2>
        Vec2U32<vec2u32:1; 2>
        Vec2I64<vec2i64:-1; -2>
        Vec2U64<vec2u64:1; 2>
        Quat<quat:1.1; 2.2; 3.3; 4.4>
        Mat4<mat4:1.0;2.0;3.0;4.0;5.0;6.0;7.0;8.0;9.0;10.0;11.0;12.0;13.0;14.0;15.0;16.0>
        Mat3<mat3:1.0;2.0;3.0;4.0;5.0;6.0;7.0;8.0;9.0>
        Mat2<mat2:1.0;2.0;3.0;4.0>
        Data<data:SGVsbG8h>
        Uuid<uuid:ecdaa0b6-1867-424f-b86d-86818b9514c6>
        Complex<complex:-1.0; 2.0>
        PodArray<podarray:0; 1; SGVsbG8h>
        "#;
    let mut reader = AsciiReader::new(input.as_bytes());

    let mut read_next = |name: &str, value: FieldKind| {
        assert_eq!(reader.read_field().unwrap(), Field::new(name, value));
    };

    read_next("U8", FieldKind::U8(123));
    read_next("I8", FieldKind::I8(-123));
    read_next("U16", FieldKind::U16(123));
    read_next("I16", FieldKind::I16(-123));
    read_next("U32", FieldKind::U32(123));
    read_next("I32", FieldKind::I32(-123));
    read_next("U64", FieldKind::U64(123));
    read_next("I64", FieldKind::I64(-123));
    read_next("F32", FieldKind::F32(b32(123.321)));
    read_next("F64", FieldKind::F64(b64v(123.321)));
    read_next(
        "Vec2F32",
        FieldKind::Vector2F32(Vector2::new(b32(1.1), b32(2.2))),
    );
    read_next(
        "Vec3F32",
        FieldKind::Vector3F32(Vector3::new(b32(1.1), b32(2.2), b32(3.3))),
    );
    read_next(
        "Vec4F32",
        FieldKind::Vector4F32(Vector4::new(b32(1.1), b32(2.2), b32(3.3), b32(4.4))),
    );
    read_next(
        "Vec2F64",
        FieldKind::Vector2F64(Vector2::new(b64v(1.1), b64v(2.2))),
    );
    read_next(
        "Vec3F64",
        FieldKind::Vector3F64(Vector3::new(b64v(1.1), b64v(2.2), b64v(3.3))),
    );
    read_next(
        "Vec4F64",
        FieldKind::Vector4F64(Vector4::new(b64v(1.1), b64v(2.2), b64v(3.3), b64v(4.4))),
    );
    read_next("Vec2I8", FieldKind::Vector2I8(Vector2::new(-1, -2)));
    read_next("Vec2U8", FieldKind::Vector2U8(Vector2::new(1, 2)));
    read_next("Vec2I16", FieldKind::Vector2I16(Vector2::new(-1, -2)));
    read_next("Vec2U16", FieldKind::Vector2U16(Vector2::new(1, 2)));
    read_next("Vec2I32", FieldKind::Vector2I32(Vector2::new(-1, -2)));
    read_next("Vec2U32", FieldKind::Vector2U32(Vector2::new(1, 2)));
    read_next("Vec2I64", FieldKind::Vector2I64(Vector2::new(-1, -2)));
    read_next("Vec2U64", FieldKind::Vector2U64(Vector2::new(1, 2)));

    // w, i, j, k order in nalgebra's constructor.
    let q = nalgebra::UnitQuaternion::new_normalize(nalgebra::Quaternion::new(
        4.4f32, 1.1, 2.2, 3.3,
    ));
    let qc = q.into_inner().coords;
    read_next(
        "Quat",
        FieldKind::UnitQuaternion(UnitQuatBits {
            x: b32(qc.x),
            y: b32(qc.y),
            z: b32(qc.z),
            w: b32(qc.w),
        }),
    );

    read_next(
        "Mat4",
        FieldKind::Matrix4(Matrix4 {
            m: [
                b32(1.0),
                b32(2.0),
                b32(3.0),
                b32(4.0),
                b32(5.0),
                b32(6.0),
                b32(7.0),
                b32(8.0),
                b32(9.0),
                b32(10.0),
                b32(11.0),
                b32(12.0),
                b32(13.0),
                b32(14.0),
                b32(15.0),
                b32(16.0),
            ],
        }),
    );
    read_next(
        "Mat3",
        FieldKind::Matrix3(Matrix3 {
            m: [
                b32(1.0),
                b32(2.0),
                b32(3.0),
                b32(4.0),
                b32(5.0),
                b32(6.0),
                b32(7.0),
                b32(8.0),
                b32(9.0),
            ],
        }),
    );
    read_next(
        "Mat2",
        FieldKind::Matrix2(Matrix2 {
            m: [b32(1.0), b32(2.0), b32(3.0), b32(4.0)],
        }),
    );
    read_next(
        "Data",
        FieldKind::BinaryBlob(vec![b'H', b'e', b'l', b'l', b'o', b'!']),
    );
    read_next(
        "Uuid",
        FieldKind::Uuid(UuidBytes {
            b: uuid::Uuid::try_parse("ecdaa0b6-1867-424f-b86d-86818b9514c6")
                .unwrap()
                .into_bytes(),
        }),
    );
    let c = nalgebra::UnitComplex::from_complex(nalgebra::Complex::new(-1.0f32, 2.0)).into_inner();
    read_next(
        "Complex",
        FieldKind::UnitComplex(UnitComplexBits {
            re: b32(c.re),
            im: b32(c.im),
        }),
    );
    read_next(
        "PodArray",
        FieldKind::PodArray {
            type_id: 0,
            element_size: 1,
            bytes: vec![b'H', b'e', b'l', b'l', b'o', b'!'],
        },
    );
}

#[test]
fn test_parse_visitor() {
    let input = r#"RG3D
            SomeNode[2: U8<u8:123> I8<i8:-123>]{1:NestedNode[1: F32<f32:123.1>]{0:}}
        "#;
    let mut reader = AsciiReader::new(input.as_bytes());

    let _visitor = reader.read().unwrap();
}

#[test]
fn nested_node_topology_resolves() {
    let input = r#"RG3D
            SomeNode[2: U8<u8:123> I8<i8:-123>]{1:NestedNode[1: F32<f32:123.1>]{0:}}
        "#;
    let mut reader = AsciiReader::new(input.as_bytes());
    let visitor = reader.read().unwrap();

    let root = visitor.nodes.borrow(visitor.root).unwrap();
    assert_eq!(root.name, "SomeNode");
    assert_eq!(root.fields.len(), 2);
    assert_eq!(root.fields[0], Field::new("U8", FieldKind::U8(123)));
    assert_eq!(root.fields[1], Field::new("I8", FieldKind::I8(-123)));
    assert_eq!(root.children.len(), 1);
    assert!(root.parent.is_none());

    let child_handle = root.children[0];
    let child = visitor.nodes.borrow(child_handle).unwrap();
    assert_eq!(child.name, "NestedNode");
    assert_eq!(child.fields.len(), 1);
    assert_eq!(child.fields[0], Field::new("F32", FieldKind::F32(b32(123.1))));
    assert_eq!(child.children.len(), 0);
    assert_eq!(child.parent, visitor.root);
    assert_eq!(visitor.current_node, visitor.root);
    assert!(visitor.reading);
}

#[test]
fn corrupted_magic_is_not_supported() {
    let input = b"XYZ1 SomeNode[0:]{0:";
    let mut ascii = AsciiReader::new(input);
    assert_eq!(
        ascii.read().unwrap_err(),
        rgtree::VisitError::NotSupportedFormat
    );

    let mut bin = rgtree::BinaryReader::new(input);
    assert_eq!(
        bin.read().unwrap_err(),
        rgtree::VisitError::NotSupportedFormat
    );
}

#[test]
fn unknown_binary_tag_names_the_byte() {
    // magic, node name "N", one field named "F" with tag byte 99.
    let mut data: Vec<u8> = Vec::new();
    data.extend_from_slice(b"RG3D");
    data.extend_from_slice(&1u32.to_le_bytes());
    data.push(b'N');
    data.extend_from_slice(&1u32.to_le_bytes());
    data.extend_from_slice(&1u32.to_le_bytes());
    data.push(b'F');
    data.push(99);
    let mut bin = rgtree::BinaryReader::new(&data);
    assert_eq!(
        bin.read().unwrap_err(),
        rgtree::VisitError::UnknownFieldType(99)
    );
}

#[test]
fn binary_stream_decodes_nested_tree() {
    // SomeNode[U8<123>]{ NestedNode[]{}} in the binary layout.
    let mut data: Vec<u8> = Vec::new();
    data.extend_from_slice(b"RG3D");
    data.extend_from_slice(&8u32.to_le_bytes());
    data.extend_from_slice(b"SomeNode");
    data.extend_from_slice(&1u32.to_le_bytes());
    data.extend_from_slice(&2u32.to_le_bytes());
    data.extend_from_slice(b"U8");
    data.push(1);
    data.push(123);
    data.extend_from_slice(&1u32.to_le_bytes());
    data.extend_from_slice(&10u32.to_le_bytes());
    data.extend_from_slice(b"NestedNode");
    data.extend_from_slice(&0u32.to_le_bytes());
    data.extend_from_slice(&0u32.to_le_bytes());

    let mut bin = rgtree::BinaryReader::new(&data);
    let visitor = bin.read().unwrap();
    let root = visitor.nodes.borrow(visitor.root).unwrap();
    assert_eq!(root.name, "SomeNode");
    assert_eq!(root.fields.len(), 1);
    assert_eq!(root.fields[0], Field::new("U8", FieldKind::U8(123)));
    assert_eq!(root.children.len(), 1);
    let child = visitor.nodes.borrow(root.children[0]).unwrap();
    assert_eq!(child.name, "NestedNode");
    assert_eq!(child.parent, visitor.root);
}

#[test]
fn binary_quaternion_is_renormalized() {
    // One field: Q<quat raw (1, 0, 0, 2)>; the norm before decode is not 1.
    let mut data: Vec<u8> = Vec::new();
    data.extend_from_slice(b"RG3D");
    data.extend_from_slice(&1u32.to_le_bytes());
    data.push(b'N');
    data.extend_from_slice(&1u32.to_le_bytes());
    data.extend_from_slice(&1u32.to_le_bytes());
    data.push(b'Q');
    data.push(12);
    for c in [1.0f32, 0.0, 0.0, 2.0] {
        data.extend_from_slice(&c.to_bits().to_le_bytes());
    }
    data.extend_from_slice(&0u32.to_le_bytes());

    let mut bin = rgtree::BinaryReader::new(&data);
    let visitor = bin.read().unwrap();
    let root = visitor.nodes.borrow(visitor.root).unwrap();
    match &root.fields[0].kind {
        FieldKind::UnitQuaternion(q) => {
            let x = f32::from_bits(q.x.0);
            let y = f32::from_bits(q.y.0);
            let z = f32::from_bits(q.z.0);
            let w = f32::from_bits(q.w.0);
            let norm = (x * x + y * y + z * z + w * w).sqrt();
            assert!((norm - 1.0).abs() < 1e-6);
        }
        other => panic!("expected a quaternion, got {:?}", other),
    }
}

#[test]
fn truncated_binary_stream_is_end_of_stream() {
    let data = b"RG3D\x08\x00\x00\x00Some";
    let mut bin = rgtree::BinaryReader::new(data);
    assert_eq!(bin.read().unwrap_err(), rgtree::VisitError::EndOfStream);
}

#[test]
fn bad_tokens_carry_their_text() {
    let mut reader = AsciiReader::new(b"B<bool:maybe>");
    assert_eq!(
        reader.read_field().unwrap_err(),
        rgtree::VisitError::User("maybe".to_owned())
    );

    let mut reader = AsciiReader::new(b"V<frob:1>");
    assert_eq!(
        reader.read_field().unwrap_err(),
        rgtree::VisitError::User("frob".to_owned())
    );

    let mut reader = AsciiReader::new(b"N<u8:abc>");
    assert_eq!(
        reader.read_field().unwrap_err(),
        rgtree::VisitError::InvalidNumber
    );

    let mut reader = AsciiReader::new(b"D<data:!!!>");
    assert_eq!(
        reader.read_field().unwrap_err(),
        rgtree::VisitError::InvalidBase64
    );

    let mut reader = AsciiReader::new(b"U<uuid:zz>");
    assert_eq!(
        reader.read_field().unwrap_err(),
        rgtree::VisitError::InvalidUuid
    );
}

#[test]
fn invalid_utf8_name_is_rejected() {
    let mut data: Vec<u8> = Vec::new();
    data.extend_from_slice(b"RG3D");
    data.extend_from_slice(&1u32.to_le_bytes());
    data.push(0xFF);
    data.extend_from_slice(&0u32.to_le_bytes());
    data.extend_from_slice(&0u32.to_le_bytes());
    let mut bin = rgtree::BinaryReader::new(&data);
    assert_eq!(bin.read().unwrap_err(), rgtree::VisitError::InvalidUtf8);
}

#[test]
fn readers_work_through_the_trait() {
    fn decode<R: Reader>(reader: &mut R) -> rgtree::Visitor {
        reader.read().unwrap()
    }
    let mut ascii = AsciiReader::new(b"RG3D N[0:]{0:");
    let v = decode(&mut ascii);
    assert_eq!(v.nodes.borrow(v.root).unwrap().name, "N");
}

#[test]
fn both_formats_decode_to_the_same_tree() {
    // The same logical tree, once in each encoding: one node "N" with a
    // u16 field and a vec3f32 field, and no children.
    let text = b"RG3D N[2: A<u16:513> B<vec3f32:1.5;2.5;3.5>]{0:";

    let mut data: Vec<u8> = Vec::new();
    data.extend_from_slice(b"RG3D");
    data.extend_from_slice(&1u32.to_le_bytes());
    data.push(b'N');
    data.extend_from_slice(&2u32.to_le_bytes());
    data.extend_from_slice(&1u32.to_le_bytes());
    data.push(b'A');
    data.push(3);
    data.extend_from_slice(&513u16.to_le_bytes());
    data.extend_from_slice(&1u32.to_le_bytes());
    data.push(b'B');
    data.push(11);
    for c in [1.5f32, 2.5, 3.5] {
        data.extend_from_slice(&c.to_bits().to_le_bytes());
    }
    data.extend_from_slice(&0u32.to_le_bytes());

    let va = AsciiReader::new(text).read().unwrap();
    let vb = rgtree::BinaryReader::new(&data).read().unwrap();
    let ra = va.nodes.borrow(va.root).unwrap();
    let rb = vb.nodes.borrow(vb.root).unwrap();
    assert_eq!(ra.name, rb.name);
    assert_eq!(ra.fields, rb.fields);
    assert_eq!(ra.children.len(), rb.children.len());
    assert_eq!(ra.fields[0], Field::new("A", FieldKind::U16(513)));
    assert_eq!(
        ra.fields[1],
        Field::new(
            "B",
            FieldKind::Vector3F32(Vector3::new(b32(1.5), b32(2.5), b32(3.5)))
        )
    );
}

#[test]
fn binary_pod_array_and_blob_round() {
    // One field of each blob kind, hand-laid binary bytes.
    let mut data: Vec<u8> = Vec::new();
    data.extend_from_slice(b"RG3D");
    data.extend_from_slice(&1u32.to_le_bytes());
    data.push(b'N');
    data.extend_from_slice(&2u32.to_le_bytes());
    // blob field
    data.extend_from_slice(&1u32.to_le_bytes());
    data.push(b'D');
    data.push(14);
    data.extend_from_slice(&3u32.to_le_bytes());
    data.extend_from_slice(b"abc");
    // pod array field
    data.extend_from_slice(&1u32.to_le_bytes());
    data.push(b'P');
    data.push(21);
    data.push(5);
    data.extend_from_slice(&4u32.to_le_bytes());
    data.extend_from_slice(&2u64.to_le_bytes());
    data.extend_from_slice(&[7, 9]);
    data.extend_from_slice(&0u32.to_le_bytes());

    let v = rgtree::BinaryReader::new(&data).read().unwrap();
    let root = v.nodes.borrow(v.root).unwrap();
    assert_eq!(root.fields[0], Field::new("D", FieldKind::BinaryBlob(b"abc".to_vec())));
    assert_eq!(
        root.fields[1],
        Field::new(
            "P",
            FieldKind::PodArray {
                type_id: 5,
                element_size: 4,
                bytes: vec![7, 9]
            }
        )
    );
}

#[test]
fn ascii_bool_and_large_counts() {
    let mut reader = AsciiReader::new(b"T<bool:true> F<bool: \t false >");
    assert_eq!(
        reader.read_field().unwrap(),
        Field::new("T", FieldKind::Bool(true))
    );
    assert_eq!(
        reader.read_field().unwrap(),
        Field::new("F", FieldKind::Bool(false))
    );

    // An out-of-range numeric token is a numeric failure, as std's parse
    // has it.
    let mut reader = AsciiReader::new(b"N<u8:256>");
    assert_eq!(
        reader.read_field().unwrap_err(),
        rgtree::VisitError::InvalidNumber
    );
    let mut reader = AsciiReader::new(b"N<i8:+100>");
    assert_eq!(
        reader.read_field().unwrap(),
        Field::new("N", FieldKind::I8(100))
    );
}

#[test]
fn empty_names_and_zero_counts_parse() {
    let mut reader = AsciiReader::new(b"RG3D [0:]{0:");
    let v = reader.read().unwrap();
    let root = v.nodes.borrow(v.root).unwrap();
    assert_eq!(root.name, "");
    assert_eq!(root.fields.len(), 0);
    assert_eq!(root.children.len(), 0);
}

#[test]
fn sibling_nodes_share_one_parent() {
    let input = b"RG3D P[0:]{2:A[0:]{0:B[0:]{0:";
    let v = AsciiReader::new(input).read().unwrap();
    let root = v.nodes.borrow(v.root).unwrap();
    assert_eq!(root.name, "P");
    assert_eq!(root.children.len(), 2);
    let a = v.nodes.borrow(root.children[0]).unwrap();
    let b = v.nodes.borrow(root.children[1]).unwrap();
    assert_eq!(a.name, "A");
    assert_eq!(b.name, "B");
    assert_eq!(a.parent, v.root);
    assert_eq!(b.parent, v.root);
}
