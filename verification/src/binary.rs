use vstd::prelude::*;

use crate::error::{ErrS, VisitError};
use crate::field::{
    f32_seq, fields_view, F32Bits, F64Bits, Field, FieldKind, FieldKindS, FieldS, Matrix2, Matrix3, Matrix4,
    UnitComplexBits, UnitQuatBits, UuidBytes, Vector2, Vector3, Vector4,
};
use crate::pool::{Handle, Pool};
use crate::trusted::{complex_norm_of, normalize_complex, normalize_quat, quat_norm_of, string_from_utf8};
use crate::visitor::{
    attach_node, core_eq, forest, full_pool, lemma_forest_frame, lemma_forest_union,
    lemma_trees_of_bound, lemma_trees_of_frame, lemma_trees_of_push, tree_of, trees_of, visitor_tree,
    visitor_wf, PoolV, TreeS, Visitor, VisitorFlags,
};
use vstd::bytes::{
    spec_u16_from_le_bytes, spec_u32_from_le_bytes, spec_u64_from_le_bytes, u16_from_le_bytes,
    u32_from_le_bytes, u64_from_le_bytes,
};
use std::collections::HashMap;
use vstd::slice::{slice_subrange, slice_to_vec};
use vstd::utf8::{decode_utf8, valid_utf8};

verus! {

// ------------------------------------------------------------------
// The binary wire format, as spec-level parsing functions over the raw
// byte sequence and a read position. Every decoding function of
// `BinaryReader` is proved to return exactly what these say.
// ------------------------------------------------------------------
/// The four magic bytes every stream must begin with: ASCII "RG3D".
pub open spec fn magic_bytes() -> Seq<u8> {
    seq![82u8, 71u8, 51u8, 68u8]
}

pub open spec fn bp_u8(s: Seq<u8>, i: int) -> Result<(u8, int), ErrS> {
    if 0 <= i && i + 1 <= s.len() {
        Ok((s[i], i + 1))
    } else {
        Err(ErrS::EndOfStream)
    }
}

pub open spec fn bp_u16(s: Seq<u8>, i: int) -> Result<(u16, int), ErrS> {
    if 0 <= i && i + 2 <= s.len() {
        Ok((spec_u16_from_le_bytes(s.subrange(i, i + 2)), i + 2))
    } else {
        Err(ErrS::EndOfStream)
    }
}

pub open spec fn bp_u32(s: Seq<u8>, i: int) -> Result<(u32, int), ErrS> {
    if 0 <= i && i + 4 <= s.len() {
        Ok((spec_u32_from_le_bytes(s.subrange(i, i + 4)), i + 4))
    } else {
        Err(ErrS::EndOfStream)
    }
}

pub open spec fn bp_u64(s: Seq<u8>, i: int) -> Result<(u64, int), ErrS> {
    if 0 <= i && i + 8 <= s.len() {
        Ok((spec_u64_from_le_bytes(s.subrange(i, i + 8)), i + 8))
    } else {
        Err(ErrS::EndOfStream)
    }
}

pub open spec fn bp_bytes(s: Seq<u8>, i: int, n: int) -> Result<(Seq<u8>, int), ErrS> {
    if 0 <= i && 0 <= n && i + n <= s.len() {
        Ok((s.subrange(i, i + n), i + n))
    } else {
        Err(ErrS::EndOfStream)
    }
}

/// A length-prefixed UTF-8 name: u32 byte length, then that many bytes.
pub open spec fn bp_name(s: Seq<u8>, i: int) -> Result<(Seq<char>, int), ErrS> {
    match bp_u32(s, i) {
        Err(e) => Err(e),
        Ok((n, j)) => match bp_bytes(s, j, n as int) {
            Err(e) => Err(e),
            Ok((b, j2)) => if valid_utf8(b) {
                Ok((decode_utf8(b), j2))
            } else {
                Err(ErrS::InvalidUtf8)
            },
        },
    }
}

// Per-element parsers shared by the vector payloads.
pub open spec fn bp_el_u8(s: Seq<u8>, i: int) -> Result<(u8, int), ErrS> {
    bp_u8(s, i)
}

pub open spec fn bp_el_i8(s: Seq<u8>, i: int) -> Result<(i8, int), ErrS> {
    match bp_u8(s, i) {
        Ok((v, j)) => Ok((v as i8, j)),
        Err(e) => Err(e),
    }
}

pub open spec fn bp_el_u16(s: Seq<u8>, i: int) -> Result<(u16, int), ErrS> {
    bp_u16(s, i)
}

pub open spec fn bp_el_i16(s: Seq<u8>, i: int) -> Result<(i16, int), ErrS> {
    match bp_u16(s, i) {
        Ok((v, j)) => Ok((v as i16, j)),
        Err(e) => Err(e),
    }
}

pub open spec fn bp_el_u32(s: Seq<u8>, i: int) -> Result<(u32, int), ErrS> {
    bp_u32(s, i)
}

pub open spec fn bp_el_i32(s: Seq<u8>, i: int) -> Result<(i32, int), ErrS> {
    match bp_u32(s, i) {
        Ok((v, j)) => Ok((v as i32, j)),
        Err(e) => Err(e),
    }
}

pub open spec fn bp_el_u64(s: Seq<u8>, i: int) -> Result<(u64, int), ErrS> {
    bp_u64(s, i)
}

pub open spec fn bp_el_i64(s: Seq<u8>, i: int) -> Result<(i64, int), ErrS> {
    match bp_u64(s, i) {
        Ok((v, j)) => Ok((v as i64, j)),
        Err(e) => Err(e),
    }
}

pub open spec fn bp_el_f32(s: Seq<u8>, i: int) -> Result<(F32Bits, int), ErrS> {
    match bp_u32(s, i) {
        Ok((v, j)) => Ok((F32Bits(v), j)),
        Err(e) => Err(e),
    }
}

pub open spec fn bp_el_f64(s: Seq<u8>, i: int) -> Result<(F64Bits, int), ErrS> {
    match bp_u64(s, i) {
        Ok((v, j)) => Ok((F64Bits(v), j)),
        Err(e) => Err(e),
    }
}

pub open spec fn bp_vec2<T: WireElem>(s: Seq<u8>, i: int) -> Result<(Vector2<T>, int), ErrS> {
    match T::bp_el(s, i) {
        Err(e) => Err(e),
        Ok((x, i1)) => match T::bp_el(s, i1) {
            Err(e) => Err(e),
            Ok((y, i2)) => Ok((Vector2 { x, y }, i2)),
        },
    }
}

pub open spec fn bp_vec3<T: WireElem>(s: Seq<u8>, i: int) -> Result<(Vector3<T>, int), ErrS> {
    match T::bp_el(s, i) {
        Err(e) => Err(e),
        Ok((x, i1)) => match T::bp_el(s, i1) {
            Err(e) => Err(e),
            Ok((y, i2)) => match T::bp_el(s, i2) {
                Err(e) => Err(e),
                Ok((z, i3)) => Ok((Vector3 { x, y, z }, i3)),
            },
        },
    }
}

pub open spec fn bp_vec4<T: WireElem>(s: Seq<u8>, i: int) -> Result<(Vector4<T>, int), ErrS> {
    match T::bp_el(s, i) {
        Err(e) => Err(e),
        Ok((x, i1)) => match T::bp_el(s, i1) {
            Err(e) => Err(e),
            Ok((y, i2)) => match T::bp_el(s, i2) {
                Err(e) => Err(e),
                Ok((z, i3)) => match T::bp_el(s, i3) {
                    Err(e) => Err(e),
                    Ok((w, i4)) => Ok((Vector4 { x, y, z, w }, i4)),
                },
            },
        },
    }
}

/// `n` consecutive binary32 bit patterns.
pub open spec fn bp_f32_seq(s: Seq<u8>, i: int, n: int) -> Result<(Seq<u32>, int), ErrS>
    decreases n,
{
    if n <= 0 {
        Ok((Seq::empty(), i))
    } else {
        match bp_u32(s, i) {
            Err(e) => Err(e),
            Ok((v, j)) => match bp_f32_seq(s, j, n - 1) {
                Err(e) => Err(e),
                Ok((vs, j2)) => Ok((seq![v] + vs, j2)),
            },
        }
    }
}

/// Row-major wire order to column-major storage, 2x2.
pub open spec fn transpose2(w: Seq<u32>) -> Seq<u32> {
    seq![w[0], w[2], w[1], w[3]]
}

/// Row-major wire order to column-major storage, 3x3.
pub open spec fn transpose3(w: Seq<u32>) -> Seq<u32> {
    seq![w[0], w[3], w[6], w[1], w[4], w[7], w[2], w[5], w[8]]
}

/// Row-major wire order to column-major storage, 4x4.
pub open spec fn transpose4(w: Seq<u32>) -> Seq<u32> {
    seq![
        w[0],
        w[4],
        w[8],
        w[12],
        w[1],
        w[5],
        w[9],
        w[13],
        w[2],
        w[6],
        w[10],
        w[14],
        w[3],
        w[7],
        w[11],
        w[15],
    ]
}

/// The tag-specific payload of a binary field. An unknown tag is rejected,
/// naming the tag byte.
pub open spec fn bp_payload(tag: u8, s: Seq<u8>, i: int) -> Result<(FieldKindS, int), ErrS> {
    match tag {
        1u8 => match bp_u8(s, i) {
            Ok((v, j)) => Ok((FieldKindS::U8(v), j)),
            Err(e) => Err(e),
        },
        2u8 => match bp_el_i8(s, i) {
            Ok((v, j)) => Ok((FieldKindS::I8(v), j)),
            Err(e) => Err(e),
        },
        3u8 => match bp_u16(s, i) {
            Ok((v, j)) => Ok((FieldKindS::U16(v), j)),
            Err(e) => Err(e),
        },
        4u8 => match bp_el_i16(s, i) {
            Ok((v, j)) => Ok((FieldKindS::I16(v), j)),
            Err(e) => Err(e),
        },
        5u8 => match bp_u32(s, i) {
            Ok((v, j)) => Ok((FieldKindS::U32(v), j)),
            Err(e) => Err(e),
        },
        6u8 => match bp_el_i32(s, i) {
            Ok((v, j)) => Ok((FieldKindS::I32(v), j)),
            Err(e) => Err(e),
        },
        7u8 => match bp_u64(s, i) {
            Ok((v, j)) => Ok((FieldKindS::U64(v), j)),
            Err(e) => Err(e),
        },
        8u8 => match bp_el_i64(s, i) {
            Ok((v, j)) => Ok((FieldKindS::I64(v), j)),
            Err(e) => Err(e),
        },
        9u8 => match bp_u32(s, i) {
            Ok((v, j)) => Ok((FieldKindS::F32(v), j)),
            Err(e) => Err(e),
        },
        10u8 => match bp_u64(s, i) {
            Ok((v, j)) => Ok((FieldKindS::F64(v), j)),
            Err(e) => Err(e),
        },
        11u8 => match bp_vec3::<F32Bits>(s, i) {
            Ok((v, j)) => Ok((FieldKindS::Vector3F32(v), j)),
            Err(e) => Err(e),
        },
        12u8 => match bp_f32_seq(s, i, 4) {
            Ok((q, j)) => Ok((FieldKindS::UnitQuaternion(quat_bits(quat_norm_of(q[0], q[1], q[2], q[3]))), j)),
            Err(e) => Err(e),
        },
        13u8 => match bp_f32_seq(s, i, 16) {
            Ok((w, j)) => Ok((FieldKindS::Matrix4(transpose4(w)), j)),
            Err(e) => Err(e),
        },
        14u8 => match bp_u32(s, i) {
            Err(e) => Err(e),
            Ok((n, j)) => match bp_bytes(s, j, n as int) {
                Ok((b, j2)) => Ok((FieldKindS::BinaryBlob(b), j2)),
                Err(e) => Err(e),
            },
        },
        15u8 => match bp_u8(s, i) {
            Ok((v, j)) => Ok((FieldKindS::Bool(v != 0), j)),
            Err(e) => Err(e),
        },
        16u8 => match bp_f32_seq(s, i, 9) {
            Ok((w, j)) => Ok((FieldKindS::Matrix3(transpose3(w)), j)),
            Err(e) => Err(e),
        },
        17u8 => match bp_vec2::<F32Bits>(s, i) {
            Ok((v, j)) => Ok((FieldKindS::Vector2F32(v), j)),
            Err(e) => Err(e),
        },
        18u8 => match bp_vec4::<F32Bits>(s, i) {
            Ok((v, j)) => Ok((FieldKindS::Vector4F32(v), j)),
            Err(e) => Err(e),
        },
        19u8 => match bp_bytes(s, i, 16) {
            Ok((b, j)) => Ok((FieldKindS::Uuid(b), j)),
            Err(e) => Err(e),
        },
        20u8 => match bp_f32_seq(s, i, 2) {
            Ok((c, j)) => Ok((FieldKindS::UnitComplex(complex_bits(complex_norm_of(c[0], c[1]))), j)),
            Err(e) => Err(e),
        },
        21u8 => match bp_u8(s, i) {
            Err(e) => Err(e),
            Ok((type_id, i1)) => match bp_u32(s, i1) {
                Err(e) => Err(e),
                Ok((element_size, i2)) => match bp_u64(s, i2) {
                    Err(e) => Err(e),
                    Ok((n, i3)) => match bp_bytes(s, i3, n as int) {
                        Ok((b, j)) => Ok(
                            (FieldKindS::PodArray { type_id, element_size, bytes: b }, j),
                        ),
                        Err(e) => Err(e),
                    },
                },
            },
        },
        22u8 => match bp_f32_seq(s, i, 4) {
            Ok((w, j)) => Ok((FieldKindS::Matrix2(transpose2(w)), j)),
            Err(e) => Err(e),
        },
        23u8 => match bp_vec2::<F64Bits>(s, i) {
            Ok((v, j)) => Ok((FieldKindS::Vector2F64(v), j)),
            Err(e) => Err(e),
        },
        24u8 => match bp_vec3::<F64Bits>(s, i) {
            Ok((v, j)) => Ok((FieldKindS::Vector3F64(v), j)),
            Err(e) => Err(e),
        },
        25u8 => match bp_vec4::<F64Bits>(s, i) {
            Ok((v, j)) => Ok((FieldKindS::Vector4F64(v), j)),
            Err(e) => Err(e),
        },
        26u8 => match bp_vec2::<i8>(s, i) {
            Ok((v, j)) => Ok((FieldKindS::Vector2I8(v), j)),
            Err(e) => Err(e),
        },
        27u8 => match bp_vec3::<i8>(s, i) {
            Ok((v, j)) => Ok((FieldKindS::Vector3I8(v), j)),
            Err(e) => Err(e),
        },
        28u8 => match bp_vec4::<i8>(s, i) {
            Ok((v, j)) => Ok((FieldKindS::Vector4I8(v), j)),
            Err(e) => Err(e),
        },
        29u8 => match bp_vec2::<u8>(s, i) {
            Ok((v, j)) => Ok((FieldKindS::Vector2U8(v), j)),
            Err(e) => Err(e),
        },
        30u8 => match bp_vec3::<u8>(s, i) {
            Ok((v, j)) => Ok((FieldKindS::Vector3U8(v), j)),
            Err(e) => Err(e),
        },
        31u8 => match bp_vec4::<u8>(s, i) {
            Ok((v, j)) => Ok((FieldKindS::Vector4U8(v), j)),
            Err(e) => Err(e),
        },
        32u8 => match bp_vec2::<i16>(s, i) {
            Ok((v, j)) => Ok((FieldKindS::Vector2I16(v), j)),
            Err(e) => Err(e),
        },
        33u8 => match bp_vec3::<i16>(s, i) {
            Ok((v, j)) => Ok((FieldKindS::Vector3I16(v), j)),
            Err(e) => Err(e),
        },
        34u8 => match bp_vec4::<i16>(s, i) {
            Ok((v, j)) => Ok((FieldKindS::Vector4I16(v), j)),
            Err(e) => Err(e),
        },
        35u8 => match bp_vec2::<u16>(s, i) {
            Ok((v, j)) => Ok((FieldKindS::Vector2U16(v), j)),
            Err(e) => Err(e),
        },
        36u8 => match bp_vec3::<u16>(s, i) {
            Ok((v, j)) => Ok((FieldKindS::Vector3U16(v), j)),
            Err(e) => Err(e),
        },
        37u8 => match bp_vec4::<u16>(s, i) {
            Ok((v, j)) => Ok((FieldKindS::Vector4U16(v), j)),
            Err(e) => Err(e),
        },
        38u8 => match bp_vec2::<i32>(s, i) {
            Ok((v, j)) => Ok((FieldKindS::Vector2I32(v), j)),
            Err(e) => Err(e),
        },
        39u8 => match bp_vec3::<i32>(s, i) {
            Ok((v, j)) => Ok((FieldKindS::Vector3I32(v), j)),
            Err(e) => Err(e),
        },
        40u8 => match bp_vec4::<i32>(s, i) {
            Ok((v, j)) => Ok((FieldKindS::Vector4I32(v), j)),
            Err(e) => Err(e),
        },
        41u8 => match bp_vec2::<u32>(s, i) {
            Ok((v, j)) => Ok((FieldKindS::Vector2U32(v), j)),
            Err(e) => Err(e),
        },
        42u8 => match bp_vec3::<u32>(s, i) {
            Ok((v, j)) => Ok((FieldKindS::Vector3U32(v), j)),
            Err(e) => Err(e),
        },
        43u8 => match bp_vec4::<u32>(s, i) {
            Ok((v, j)) => Ok((FieldKindS::Vector4U32(v), j)),
            Err(e) => Err(e),
        },
        44u8 => match bp_vec2::<i64>(s, i) {
            Ok((v, j)) => Ok((FieldKindS::Vector2I64(v), j)),
            Err(e) => Err(e),
        },
        45u8 => match bp_vec3::<i64>(s, i) {
            Ok((v, j)) => Ok((FieldKindS::Vector3I64(v), j)),
            Err(e) => Err(e),
        },
        46u8 => match bp_vec4::<i64>(s, i) {
            Ok((v, j)) => Ok((FieldKindS::Vector4I64(v), j)),
            Err(e) => Err(e),
        },
        47u8 => match bp_vec2::<u64>(s, i) {
            Ok((v, j)) => Ok((FieldKindS::Vector2U64(v), j)),
            Err(e) => Err(e),
        },
        48u8 => match bp_vec3::<u64>(s, i) {
            Ok((v, j)) => Ok((FieldKindS::Vector3U64(v), j)),
            Err(e) => Err(e),
        },
        49u8 => match bp_vec4::<u64>(s, i) {
            Ok((v, j)) => Ok((FieldKindS::Vector4U64(v), j)),
            Err(e) => Err(e),
        },
        _ => Err(ErrS::UnknownFieldType(tag)),
    }
}

/// The four bit patterns of a renormalized quaternion, as a value.
pub open spec fn quat_bits(q: (u32, u32, u32, u32)) -> UnitQuatBits {
    UnitQuatBits { x: F32Bits(q.0), y: F32Bits(q.1), z: F32Bits(q.2), w: F32Bits(q.3) }
}

/// The two bit patterns of a renormalized complex rotation, as a value.
pub open spec fn complex_bits(c: (u32, u32)) -> UnitComplexBits {
    UnitComplexBits { re: F32Bits(c.0), im: F32Bits(c.1) }
}

/// One binary field: length-prefixed name, one tag byte, then the payload
/// the tag dictates.
pub open spec fn bp_field(s: Seq<u8>, i: int) -> Result<(FieldS, int), ErrS> {
    match bp_name(s, i) {
        Err(e) => Err(e),
        Ok((name, i1)) => match bp_u8(s, i1) {
            Err(e) => Err(e),
            Ok((tag, i2)) => match bp_payload(tag, s, i2) {
                Err(e) => Err(e),
                Ok((kind, j)) => Ok((FieldS { name, kind }, j)),
            },
        },
    }
}

/// `n` consecutive binary fields.
pub open spec fn bp_fields(s: Seq<u8>, i: int, n: int) -> Result<(Seq<FieldS>, int), ErrS>
    decreases n,
{
    if n <= 0 {
        Ok((Seq::empty(), i))
    } else {
        match bp_field(s, i) {
            Err(e) => Err(e),
            Ok((f, j)) => match bp_fields(s, j, n - 1) {
                Err(e) => Err(e),
                Ok((fs, j2)) => Ok((seq![f] + fs, j2)),
            },
        }
    }
}

/// One binary node: name, u32 field count, the fields, u32 child count, then
/// the child subtrees.
pub open spec fn bp_node(s: Seq<u8>, i: int) -> Result<(TreeS, int), ErrS>
    decreases s.len() - i, 0int, 0int,
{
    match bp_name(s, i) {
        Err(e) => Err(e),
        Ok((name, i1)) => match bp_u32(s, i1) {
            Err(e) => Err(e),
            Ok((fc, i2)) => match bp_fields(s, i2, fc as int) {
                Err(e) => Err(e),
                Ok((fields, i3)) => match bp_u32(s, i3) {
                    Err(e) => Err(e),
                    Ok((cc, i4)) => if i < i4 <= s.len() {
                        match bp_nodes(s, i4, cc as int) {
                            Err(e) => Err(e),
                            Ok((children, j)) => Ok((TreeS { name, fields, children }, j)),
                        }
                    } else {
                        Err(ErrS::EndOfStream)
                    },
                },
            },
        },
    }
}

/// `n` consecutive binary nodes.
pub open spec fn bp_nodes(s: Seq<u8>, i: int, n: int) -> Result<(Seq<TreeS>, int), ErrS>
    decreases s.len() - i, 1int, n,
{
    if n <= 0 {
        Ok((Seq::empty(), i))
    } else if 0 <= i <= s.len() {
        match bp_node(s, i) {
            Err(e) => Err(e),
            Ok((t, j)) => if i <= j && j <= s.len() {
                match bp_nodes(s, j, n - 1) {
                    Err(e) => Err(e),
                    Ok((ts, j2)) => Ok((seq![t] + ts, j2)),
                }
            } else {
                Err(ErrS::EndOfStream)
            },
        }
    } else {
        Err(ErrS::EndOfStream)
    }
}

/// A whole binary stream: the magic marker, then the root node.
pub open spec fn bp_stream(s: Seq<u8>) -> Result<(TreeS, int), ErrS> {
    if s.len() < 4 {
        Err(ErrS::EndOfStream)
    } else if s.subrange(0, 4) != magic_bytes() {
        Err(ErrS::NotSupportedFormat)
    } else {
        bp_node(s, 4)
    }
}

/// A successful `bp_f32_seq` yields exactly `n` values.
proof fn lemma_bp_f32_seq_len(s: Seq<u8>, i: int, n: int)
    ensures
        bp_f32_seq(s, i, n) matches Ok((ws, j)) ==> ws.len() == (if n >= 0 {
            n
        } else {
            0
        }),
    decreases n,
{
    if n > 0 {
        match bp_u32(s, i) {
            Ok((v, j)) => {
                lemma_bp_f32_seq_len(s, j, n - 1);
            },
            Err(_) => {},
        }
    }
}

// ------------------------------------------------------------------
// The executable reader.
// ------------------------------------------------------------------
/// Decodes the binary wire format from an in-memory byte source.
pub struct BinaryReader<'a> {
    pub data: &'a [u8],
    pub pos: usize,
}

impl<'a> BinaryReader<'a> {
    /// The read position never runs past the source.
    pub open spec fn wf(self) -> bool {
        self.pos <= self.data@.len()
    }

    pub fn new(src: &'a [u8]) -> (r: BinaryReader<'a>)
        ensures
            r.data@ == src@,
            r.pos == 0,
            r.wf(),
    {
        BinaryReader { data: src, pos: 0 }
    }

    fn read_u8(&mut self) -> (r: Result<u8, VisitError>)
        requires
            old(self).wf(),
        ensures
            final(self).wf(),
            final(self).data@ == old(self).data@,
            match bp_u8(old(self).data@, old(self).pos as int) {
                Ok((v, j)) => r == Ok::<u8, VisitError>(v) && final(self).pos as int == j,
                Err(_) => r == Err::<u8, VisitError>(VisitError::EndOfStream) && *final(self) == *old(self),
            },
    {
        if self.data.len() - self.pos >= 1 {
            let v = self.data[self.pos];
            self.pos = self.pos + 1;
            Ok(v)
        } else {
            Err(VisitError::EndOfStream)
        }
    }

    fn read_u16(&mut self) -> (r: Result<u16, VisitError>)
        requires
            old(self).wf(),
        ensures
            final(self).wf(),
            final(self).data@ == old(self).data@,
            match bp_u16(old(self).data@, old(self).pos as int) {
                Ok((v, j)) => r == Ok::<u16, VisitError>(v) && final(self).pos as int == j,
                Err(_) => r == Err::<u16, VisitError>(VisitError::EndOfStream) && *final(self) == *old(self),
            },
    {
        if self.data.len() - self.pos >= 2 {
            let v = u16_from_le_bytes(slice_subrange(self.data, self.pos, self.pos + 2));
            self.pos = self.pos + 2;
            Ok(v)
        } else {
            Err(VisitError::EndOfStream)
        }
    }

    fn read_u32(&mut self) -> (r: Result<u32, VisitError>)
        requires
            old(self).wf(),
        ensures
            final(self).wf(),
            final(self).data@ == old(self).data@,
            match bp_u32(old(self).data@, old(self).pos as int) {
                Ok((v, j)) => r == Ok::<u32, VisitError>(v) && final(self).pos as int == j,
                Err(_) => r == Err::<u32, VisitError>(VisitError::EndOfStream) && *final(self) == *old(self),
            },
    {
        if self.data.len() - self.pos >= 4 {
            let v = u32_from_le_bytes(slice_subrange(self.data, self.pos, self.pos + 4));
            self.pos = self.pos + 4;
            Ok(v)
        } else {
            Err(VisitError::EndOfStream)
        }
    }

    fn read_u64(&mut self) -> (r: Result<u64, VisitError>)
        requires
            old(self).wf(),
        ensures
            final(self).wf(),
            final(self).data@ == old(self).data@,
            match bp_u64(old(self).data@, old(self).pos as int) {
                Ok((v, j)) => r == Ok::<u64, VisitError>(v) && final(self).pos as int == j,
                Err(_) => r == Err::<u64, VisitError>(VisitError::EndOfStream) && *final(self) == *old(self),
            },
    {
        if self.data.len() - self.pos >= 8 {
            let v = u64_from_le_bytes(slice_subrange(self.data, self.pos, self.pos + 8));
            self.pos = self.pos + 8;
            Ok(v)
        } else {
            Err(VisitError::EndOfStream)
        }
    }

    fn read_bytes(&mut self, n: usize) -> (r: Result<Vec<u8>, VisitError>)
        requires
            old(self).wf(),
        ensures
            final(self).wf(),
            final(self).data@ == old(self).data@,
            match bp_bytes(old(self).data@, old(self).pos as int, n as int) {
                Ok((b, j)) => r matches Ok(v) && v@ == b && final(self).pos as int == j,
                Err(_) => r == Err::<Vec<u8>, VisitError>(VisitError::EndOfStream) && *final(self) == *old(self),
            },
    {
        if self.data.len() - self.pos >= n {
            let v = slice_to_vec(slice_subrange(self.data, self.pos, self.pos + n));
            self.pos = self.pos + n;
            Ok(v)
        } else {
            Err(VisitError::EndOfStream)
        }
    }

    /// A u32-length-prefixed UTF-8 name.
    fn read_name(&mut self) -> (r: Result<String, VisitError>)
        requires
            old(self).wf(),
        ensures
            final(self).wf(),
            final(self).data@ == old(self).data@,
            old(self).pos <= final(self).pos,
            match bp_name(old(self).data@, old(self).pos as int) {
                Ok((nm, j)) => r matches Ok(s) && s@ == nm && final(self).pos as int == j,
                Err(e) => r matches Err(er) && er@ == e,
            },
    {
        let n = match self.read_u32() {
            Ok(v) => v,
            Err(e) => return Err(e),
        };
        let raw = match self.read_bytes(n as usize) {
            Ok(v) => v,
            Err(e) => return Err(e),
        };
        match string_from_utf8(raw) {
            Some(s) => Ok(s),
            None => Err(VisitError::InvalidUtf8),
        }
    }

    /// `n` consecutive binary32 bit patterns.
    fn read_f32_seq(&mut self, n: usize) -> (r: Result<Vec<u32>, VisitError>)
        requires
            old(self).wf(),
        ensures
            final(self).wf(),
            final(self).data@ == old(self).data@,
            old(self).pos <= final(self).pos,
            match bp_f32_seq(old(self).data@, old(self).pos as int, n as int) {
                Ok((ws, j)) => r matches Ok(v) && v@ == ws && v@.len() == n && final(self).pos
                    as int == j,
                Err(e) => e == ErrS::EndOfStream && r == Err::<Vec<u32>, VisitError>(
                    VisitError::EndOfStream,
                ),
            },
    {
        let ghost s = self.data@;
        let ghost i0 = self.pos as int;
        let mut acc: Vec<u32> = Vec::new();
        let mut t: usize = 0;
        proof {
            lemma_bp_f32_seq_len(s, i0, n as int);
            match bp_f32_seq(s, i0, n as int) {
                Ok((ws, j)) => {
                    assert(ws.skip(0) =~= ws);
                    assert(ws.take(0) =~= Seq::<u32>::empty());
                },
                Err(_) => {},
            }
        }
        while t < n
            invariant
                self.wf(),
                self.data@ == s,
                s == old(self).data@,
                i0 == old(self).pos as int,
                i0 <= self.pos as int,
                0 <= t <= n,
                acc@.len() == t,
                match bp_f32_seq(s, i0, n as int) {
                    Ok((ws, j)) => bp_f32_seq(s, self.pos as int, n - t) == Ok::<
                        (Seq<u32>, int),
                        ErrS,
                    >((ws.skip(t as int), j)) && acc@ == ws.take(t as int) && ws.len() == n,
                    Err(e) => bp_f32_seq(s, self.pos as int, n - t) == Err::<
                        (Seq<u32>, int),
                        ErrS,
                    >(e),
                },
            decreases n - t,
        {
            let ghost pos0 = self.pos as int;
            let v = match self.read_u32() {
                Ok(v) => v,
                Err(e) => {
                    return Err(VisitError::EndOfStream);
                },
            };
            acc.push(v);
            proof {
                match bp_f32_seq(s, i0, n as int) {
                    Ok((ws, j)) => {
                        assert(bp_f32_seq(s, pos0, n - t) == Ok::<(Seq<u32>, int), ErrS>(
                            (ws.skip(t as int), j),
                        ));
                        assert(ws.skip(t as int) == seq![v] + bp_f32_seq(
                            s,
                            self.pos as int,
                            n - t - 1,
                        )->Ok_0.0);
                        assert(ws.skip(t as int + 1) =~= ws.skip(t as int).drop_first());
                        assert(ws.skip(t as int).drop_first() =~= bp_f32_seq(
                            s,
                            self.pos as int,
                            n - t - 1,
                        )->Ok_0.0);
                        assert(ws[t as int] == ws.skip(t as int)[0]);
                        assert(acc@ =~= ws.take(t as int + 1));
                    },
                    Err(_) => {},
                }
            }
            t = t + 1;
        }
        proof {
            match bp_f32_seq(s, i0, n as int) {
                Ok((ws, j)) => {
                    assert(ws.skip(n as int) =~= Seq::<u32>::empty());
                    assert(ws.take(n as int) =~= ws);
                    assert(ws.len() == n) by {
                        assert(acc@ == ws.take(n as int));
                    }
                },
                Err(_) => {
                    assert(false);
                },
            }
        }
        Ok(acc)
    }
}

/// An element type the binary vector payloads are built from: it knows how
/// its fixed-width little-endian encoding reads.
pub trait WireElem: Sized + Copy {
    spec fn bp_el(s: Seq<u8>, i: int) -> Result<(Self, int), ErrS>;

    /// The fixed-width little-endian encoding of one element: what the
    /// encode-side mirror writes, and what `bp_el` reads back.
    spec fn be_el(self) -> Seq<u8>;

    /// Reading an encoded element back yields the element.
    proof fn lemma_el_rt(self, s: Seq<u8>, i: int)
        requires
            0 <= i,
            i + Self::be_el(self).len() <= s.len(),
            s.subrange(i, i + Self::be_el(self).len() as int) == Self::be_el(self),
        ensures
            Self::bp_el(s, i) == Ok::<(Self, int), ErrS>(
                (self, i + Self::be_el(self).len() as int),
            ),
    ;

    fn read_el(rd: &mut BinaryReader) -> (r: Result<Self, VisitError>)
        requires
            old(rd).wf(),
        ensures
            final(rd).wf(),
            final(rd).data@ == old(rd).data@,
            old(rd).pos <= final(rd).pos,
            match Self::bp_el(old(rd).data@, old(rd).pos as int) {
                Ok((v, j)) => r matches Ok(x) && x == v && final(rd).pos as int == j,
                Err(_) => r matches Err(e) && e == VisitError::EndOfStream,
            },
    ;
}

impl WireElem for u8 {
    open spec fn be_el(self) -> Seq<u8> {
        seq![self]
    }

    proof fn lemma_el_rt(self, s: Seq<u8>, i: int) {
        assert(Self::bp_el(s, i) == bp_el_u8(s, i));
        assert(s[i] == Self::be_el(self)[0]);
        assert(s.subrange(i, i + Self::be_el(self).len() as int) == Self::be_el(self));
    }

    open spec fn bp_el(s: Seq<u8>, i: int) -> Result<(u8, int), ErrS> {
        bp_el_u8(s, i)
    }

    fn read_el(rd: &mut BinaryReader) -> (r: Result<u8, VisitError>) {
        rd.read_u8()
    }
}

impl WireElem for i8 {
    open spec fn be_el(self) -> Seq<u8> {
        seq![self as u8]
    }

    proof fn lemma_el_rt(self, s: Seq<u8>, i: int) {
        assert(Self::bp_el(s, i) == bp_el_i8(s, i));
        assert(s[i] == Self::be_el(self)[0]);
        assert((self as u8) as i8 == self) by (bit_vector);
        assert(s.subrange(i, i + Self::be_el(self).len() as int) == Self::be_el(self));
    }

    open spec fn bp_el(s: Seq<u8>, i: int) -> Result<(i8, int), ErrS> {
        bp_el_i8(s, i)
    }

    fn read_el(rd: &mut BinaryReader) -> (r: Result<i8, VisitError>) {
        match rd.read_u8() {
            Ok(v) => Ok(v as i8),
            Err(e) => Err(e),
        }
    }
}

impl WireElem for u16 {
    open spec fn be_el(self) -> Seq<u8> {
        vstd::bytes::spec_u16_to_le_bytes(self)
    }

    proof fn lemma_el_rt(self, s: Seq<u8>, i: int) {
        assert(Self::bp_el(s, i) == bp_el_u16(s, i));
        vstd::bytes::lemma_auto_spec_u16_to_from_le_bytes();
        assert(s.subrange(i, i + Self::be_el(self).len() as int) == Self::be_el(self));
    }

    open spec fn bp_el(s: Seq<u8>, i: int) -> Result<(u16, int), ErrS> {
        bp_el_u16(s, i)
    }

    fn read_el(rd: &mut BinaryReader) -> (r: Result<u16, VisitError>) {
        rd.read_u16()
    }
}

impl WireElem for i16 {
    open spec fn be_el(self) -> Seq<u8> {
        vstd::bytes::spec_u16_to_le_bytes(self as u16)
    }

    proof fn lemma_el_rt(self, s: Seq<u8>, i: int) {
        assert(Self::bp_el(s, i) == bp_el_i16(s, i));
        vstd::bytes::lemma_auto_spec_u16_to_from_le_bytes();
        assert((self as u16) as i16 == self) by (bit_vector);
        assert(s.subrange(i, i + Self::be_el(self).len() as int) == Self::be_el(self));
    }

    open spec fn bp_el(s: Seq<u8>, i: int) -> Result<(i16, int), ErrS> {
        bp_el_i16(s, i)
    }

    fn read_el(rd: &mut BinaryReader) -> (r: Result<i16, VisitError>) {
        match rd.read_u16() {
            Ok(v) => Ok(v as i16),
            Err(e) => Err(e),
        }
    }
}

impl WireElem for u32 {
    open spec fn be_el(self) -> Seq<u8> {
        vstd::bytes::spec_u32_to_le_bytes(self)
    }

    proof fn lemma_el_rt(self, s: Seq<u8>, i: int) {
        assert(Self::bp_el(s, i) == bp_el_u32(s, i));
        vstd::bytes::lemma_auto_spec_u32_to_from_le_bytes();
        assert(s.subrange(i, i + Self::be_el(self).len() as int) == Self::be_el(self));
    }

    open spec fn bp_el(s: Seq<u8>, i: int) -> Result<(u32, int), ErrS> {
        bp_el_u32(s, i)
    }

    fn read_el(rd: &mut BinaryReader) -> (r: Result<u32, VisitError>) {
        rd.read_u32()
    }
}

impl WireElem for i32 {
    open spec fn be_el(self) -> Seq<u8> {
        vstd::bytes::spec_u32_to_le_bytes(self as u32)
    }

    proof fn lemma_el_rt(self, s: Seq<u8>, i: int) {
        assert(Self::bp_el(s, i) == bp_el_i32(s, i));
        vstd::bytes::lemma_auto_spec_u32_to_from_le_bytes();
        assert((self as u32) as i32 == self) by (bit_vector);
        assert(s.subrange(i, i + Self::be_el(self).len() as int) == Self::be_el(self));
    }

    open spec fn bp_el(s: Seq<u8>, i: int) -> Result<(i32, int), ErrS> {
        bp_el_i32(s, i)
    }

    fn read_el(rd: &mut BinaryReader) -> (r: Result<i32, VisitError>) {
        match rd.read_u32() {
            Ok(v) => Ok(v as i32),
            Err(e) => Err(e),
        }
    }
}

impl WireElem for u64 {
    open spec fn be_el(self) -> Seq<u8> {
        vstd::bytes::spec_u64_to_le_bytes(self)
    }

    proof fn lemma_el_rt(self, s: Seq<u8>, i: int) {
        assert(Self::bp_el(s, i) == bp_el_u64(s, i));
        vstd::bytes::lemma_auto_spec_u64_to_from_le_bytes();
        assert(s.subrange(i, i + Self::be_el(self).len() as int) == Self::be_el(self));
    }

    open spec fn bp_el(s: Seq<u8>, i: int) -> Result<(u64, int), ErrS> {
        bp_el_u64(s, i)
    }

    fn read_el(rd: &mut BinaryReader) -> (r: Result<u64, VisitError>) {
        rd.read_u64()
    }
}

impl WireElem for i64 {
    open spec fn be_el(self) -> Seq<u8> {
        vstd::bytes::spec_u64_to_le_bytes(self as u64)
    }

    proof fn lemma_el_rt(self, s: Seq<u8>, i: int) {
        assert(Self::bp_el(s, i) == bp_el_i64(s, i));
        vstd::bytes::lemma_auto_spec_u64_to_from_le_bytes();
        assert((self as u64) as i64 == self) by (bit_vector);
        assert(s.subrange(i, i + Self::be_el(self).len() as int) == Self::be_el(self));
    }

    open spec fn bp_el(s: Seq<u8>, i: int) -> Result<(i64, int), ErrS> {
        bp_el_i64(s, i)
    }

    fn read_el(rd: &mut BinaryReader) -> (r: Result<i64, VisitError>) {
        match rd.read_u64() {
            Ok(v) => Ok(v as i64),
            Err(e) => Err(e),
        }
    }
}

impl WireElem for F32Bits {
    open spec fn be_el(self) -> Seq<u8> {
        vstd::bytes::spec_u32_to_le_bytes(self.0)
    }

    proof fn lemma_el_rt(self, s: Seq<u8>, i: int) {
        assert(Self::bp_el(s, i) == bp_el_f32(s, i));
        vstd::bytes::lemma_auto_spec_u32_to_from_le_bytes();
        assert(s.subrange(i, i + Self::be_el(self).len() as int) == Self::be_el(self));
    }

    open spec fn bp_el(s: Seq<u8>, i: int) -> Result<(F32Bits, int), ErrS> {
        bp_el_f32(s, i)
    }

    fn read_el(rd: &mut BinaryReader) -> (r: Result<F32Bits, VisitError>) {
        match rd.read_u32() {
            Ok(v) => Ok(F32Bits(v)),
            Err(e) => Err(e),
        }
    }
}

impl WireElem for F64Bits {
    open spec fn be_el(self) -> Seq<u8> {
        vstd::bytes::spec_u64_to_le_bytes(self.0)
    }

    proof fn lemma_el_rt(self, s: Seq<u8>, i: int) {
        assert(Self::bp_el(s, i) == bp_el_f64(s, i));
        vstd::bytes::lemma_auto_spec_u64_to_from_le_bytes();
        assert(s.subrange(i, i + Self::be_el(self).len() as int) == Self::be_el(self));
    }

    open spec fn bp_el(s: Seq<u8>, i: int) -> Result<(F64Bits, int), ErrS> {
        bp_el_f64(s, i)
    }

    fn read_el(rd: &mut BinaryReader) -> (r: Result<F64Bits, VisitError>) {
        match rd.read_u64() {
            Ok(v) => Ok(F64Bits(v)),
            Err(e) => Err(e),
        }
    }
}

fn read_vec2<T: WireElem>(rd: &mut BinaryReader) -> (r: Result<Vector2<T>, VisitError>)
    requires
        old(rd).wf(),
    ensures
        final(rd).wf(),
        final(rd).data@ == old(rd).data@,
        old(rd).pos <= final(rd).pos,
        match bp_vec2::<T>(old(rd).data@, old(rd).pos as int) {
            Ok((v, j)) => r matches Ok(x) && x == v && final(rd).pos as int == j,
            Err(_) => r matches Err(e) && e == VisitError::EndOfStream,
        },
{
    let x = match T::read_el(rd) {
        Ok(v) => v,
        Err(e) => return Err(e),
    };
    let y = match T::read_el(rd) {
        Ok(v) => v,
        Err(e) => return Err(e),
    };
    Ok(Vector2 { x, y })
}

fn read_vec3<T: WireElem>(rd: &mut BinaryReader) -> (r: Result<Vector3<T>, VisitError>)
    requires
        old(rd).wf(),
    ensures
        final(rd).wf(),
        final(rd).data@ == old(rd).data@,
        old(rd).pos <= final(rd).pos,
        match bp_vec3::<T>(old(rd).data@, old(rd).pos as int) {
            Ok((v, j)) => r matches Ok(x) && x == v && final(rd).pos as int == j,
            Err(_) => r matches Err(e) && e == VisitError::EndOfStream,
        },
{
    let x = match T::read_el(rd) {
        Ok(v) => v,
        Err(e) => return Err(e),
    };
    let y = match T::read_el(rd) {
        Ok(v) => v,
        Err(e) => return Err(e),
    };
    let z = match T::read_el(rd) {
        Ok(v) => v,
        Err(e) => return Err(e),
    };
    Ok(Vector3 { x, y, z })
}

fn read_vec4<T: WireElem>(rd: &mut BinaryReader) -> (r: Result<Vector4<T>, VisitError>)
    requires
        old(rd).wf(),
    ensures
        final(rd).wf(),
        final(rd).data@ == old(rd).data@,
        old(rd).pos <= final(rd).pos,
        match bp_vec4::<T>(old(rd).data@, old(rd).pos as int) {
            Ok((v, j)) => r matches Ok(x) && x == v && final(rd).pos as int == j,
            Err(_) => r matches Err(e) && e == VisitError::EndOfStream,
        },
{
    let x = match T::read_el(rd) {
        Ok(v) => v,
        Err(e) => return Err(e),
    };
    let y = match T::read_el(rd) {
        Ok(v) => v,
        Err(e) => return Err(e),
    };
    let z = match T::read_el(rd) {
        Ok(v) => v,
        Err(e) => return Err(e),
    };
    let w = match T::read_el(rd) {
        Ok(v) => v,
        Err(e) => return Err(e),
    };
    Ok(Vector4 { x, y, z, w })
}

impl<'a> BinaryReader<'a> {
    /// The tag-dispatched payload of one field.
    #[verifier::rlimit(60)]
    fn read_payload(&mut self, tag: u8) -> (r: Result<FieldKind, VisitError>)
        requires
            old(self).wf(),
        ensures
            final(self).wf(),
            final(self).data@ == old(self).data@,
            old(self).pos <= final(self).pos,
            match bp_payload(tag, old(self).data@, old(self).pos as int) {
                Ok((k, j)) => r matches Ok(fk) && fk@ == k && final(self).pos as int == j,
                Err(e) => r matches Err(er) && er@ == e,
            },
    {
        let kind: FieldKind = match tag {
            1u8 => match self.read_u8() {
                Ok(v) => FieldKind::U8(v),
                Err(e) => return Err(e),
            },
            2u8 => match self.read_u8() {
                Ok(v) => FieldKind::I8(v as i8),
                Err(e) => return Err(e),
            },
            3u8 => match self.read_u16() {
                Ok(v) => FieldKind::U16(v),
                Err(e) => return Err(e),
            },
            4u8 => match self.read_u16() {
                Ok(v) => FieldKind::I16(v as i16),
                Err(e) => return Err(e),
            },
            5u8 => match self.read_u32() {
                Ok(v) => FieldKind::U32(v),
                Err(e) => return Err(e),
            },
            6u8 => match self.read_u32() {
                Ok(v) => FieldKind::I32(v as i32),
                Err(e) => return Err(e),
            },
            7u8 => match self.read_u64() {
                Ok(v) => FieldKind::U64(v),
                Err(e) => return Err(e),
            },
            8u8 => match self.read_u64() {
                Ok(v) => FieldKind::I64(v as i64),
                Err(e) => return Err(e),
            },
            9u8 => match self.read_u32() {
                Ok(v) => FieldKind::F32(F32Bits(v)),
                Err(e) => return Err(e),
            },
            10u8 => match self.read_u64() {
                Ok(v) => FieldKind::F64(F64Bits(v)),
                Err(e) => return Err(e),
            },
            11u8 => match read_vec3::<F32Bits>(self) {
                Ok(v) => FieldKind::Vector3F32(v),
                Err(e) => return Err(e),
            },
            12u8 => match self.read_f32_seq(4) {
                Ok(q) => {
                    let (x, y, z, w) = normalize_quat(q[0], q[1], q[2], q[3]);
                    FieldKind::UnitQuaternion(
                        UnitQuatBits {
                            x: F32Bits(x),
                            y: F32Bits(y),
                            z: F32Bits(z),
                            w: F32Bits(w),
                        },
                    )
                },
                Err(e) => return Err(e),
            },
            13u8 => match self.read_f32_seq(16) {
                Ok(w) => {
                    let m = Matrix4 {
                        m: [
                            F32Bits(w[0]),
                            F32Bits(w[4]),
                            F32Bits(w[8]),
                            F32Bits(w[12]),
                            F32Bits(w[1]),
                            F32Bits(w[5]),
                            F32Bits(w[9]),
                            F32Bits(w[13]),
                            F32Bits(w[2]),
                            F32Bits(w[6]),
                            F32Bits(w[10]),
                            F32Bits(w[14]),
                            F32Bits(w[3]),
                            F32Bits(w[7]),
                            F32Bits(w[11]),
                            F32Bits(w[15]),
                        ],
                    };
                    proof {
                        assert(f32_seq(m.m@) =~= transpose4(w@));
                    }
                    FieldKind::Matrix4(m)
                },
                Err(e) => return Err(e),
            },
            14u8 => {
                let n = match self.read_u32() {
                    Ok(v) => v,
                    Err(e) => return Err(e),
                };
                match self.read_bytes(n as usize) {
                    Ok(b) => FieldKind::BinaryBlob(b),
                    Err(e) => return Err(e),
                }
            },
            15u8 => match self.read_u8() {
                Ok(v) => FieldKind::Bool(v != 0),
                Err(e) => return Err(e),
            },
            16u8 => match self.read_f32_seq(9) {
                Ok(w) => {
                    let m = Matrix3 {
                        m: [
                            F32Bits(w[0]),
                            F32Bits(w[3]),
                            F32Bits(w[6]),
                            F32Bits(w[1]),
                            F32Bits(w[4]),
                            F32Bits(w[7]),
                            F32Bits(w[2]),
                            F32Bits(w[5]),
                            F32Bits(w[8]),
                        ],
                    };
                    proof {
                        assert(f32_seq(m.m@) =~= transpose3(w@));
                    }
                    FieldKind::Matrix3(m)
                },
                Err(e) => return Err(e),
            },
            17u8 => match read_vec2::<F32Bits>(self) {
                Ok(v) => FieldKind::Vector2F32(v),
                Err(e) => return Err(e),
            },
            18u8 => match read_vec4::<F32Bits>(self) {
                Ok(v) => FieldKind::Vector4F32(v),
                Err(e) => return Err(e),
            },
            19u8 => match self.read_bytes(16) {
                Ok(b) => {
                    let u = UuidBytes {
                        b: [
                            b[0],
                            b[1],
                            b[2],
                            b[3],
                            b[4],
                            b[5],
                            b[6],
                            b[7],
                            b[8],
                            b[9],
                            b[10],
                            b[11],
                            b[12],
                            b[13],
                            b[14],
                            b[15],
                        ],
                    };
                    proof {
                        assert(u.b@ =~= b@);
                    }
                    FieldKind::Uuid(u)
                },
                Err(e) => return Err(e),
            },
            20u8 => match self.read_f32_seq(2) {
                Ok(c) => {
                    let (re, im) = normalize_complex(c[0], c[1]);
                    FieldKind::UnitComplex(UnitComplexBits { re: F32Bits(re), im: F32Bits(im) })
                },
                Err(e) => return Err(e),
            },
            21u8 => {
                let type_id = match self.read_u8() {
                    Ok(v) => v,
                    Err(e) => return Err(e),
                };
                let element_size = match self.read_u32() {
                    Ok(v) => v,
                    Err(e) => return Err(e),
                };
                let byte_len = match self.read_u64() {
                    Ok(v) => v,
                    Err(e) => return Err(e),
                };
                if byte_len > (self.data.len() - self.pos) as u64 {
                    return Err(VisitError::EndOfStream);
                }
                match self.read_bytes(byte_len as usize) {
                    Ok(bytes) => FieldKind::PodArray { type_id, element_size, bytes },
                    Err(e) => return Err(e),
                }
            },
            22u8 => match self.read_f32_seq(4) {
                Ok(w) => {
                    let m = Matrix2 {
                        m: [F32Bits(w[0]), F32Bits(w[2]), F32Bits(w[1]), F32Bits(w[3])],
                    };
                    proof {
                        assert(f32_seq(m.m@) =~= transpose2(w@));
                    }
                    FieldKind::Matrix2(m)
                },
                Err(e) => return Err(e),
            },
            23u8 => match read_vec2::<F64Bits>(self) {
                Ok(v) => FieldKind::Vector2F64(v),
                Err(e) => return Err(e),
            },
            24u8 => match read_vec3::<F64Bits>(self) {
                Ok(v) => FieldKind::Vector3F64(v),
                Err(e) => return Err(e),
            },
            25u8 => match read_vec4::<F64Bits>(self) {
                Ok(v) => FieldKind::Vector4F64(v),
                Err(e) => return Err(e),
            },
            26u8 => match read_vec2::<i8>(self) {
                Ok(v) => FieldKind::Vector2I8(v),
                Err(e) => return Err(e),
            },
            27u8 => match read_vec3::<i8>(self) {
                Ok(v) => FieldKind::Vector3I8(v),
                Err(e) => return Err(e),
            },
            28u8 => match read_vec4::<i8>(self) {
                Ok(v) => FieldKind::Vector4I8(v),
                Err(e) => return Err(e),
            },
            29u8 => match read_vec2::<u8>(self) {
                Ok(v) => FieldKind::Vector2U8(v),
                Err(e) => return Err(e),
            },
            30u8 => match read_vec3::<u8>(self) {
                Ok(v) => FieldKind::Vector3U8(v),
                Err(e) => return Err(e),
            },
            31u8 => match read_vec4::<u8>(self) {
                Ok(v) => FieldKind::Vector4U8(v),
                Err(e) => return Err(e),
            },
            32u8 => match read_vec2::<i16>(self) {
                Ok(v) => FieldKind::Vector2I16(v),
                Err(e) => return Err(e),
            },
            33u8 => match read_vec3::<i16>(self) {
                Ok(v) => FieldKind::Vector3I16(v),
                Err(e) => return Err(e),
            },
            34u8 => match read_vec4::<i16>(self) {
                Ok(v) => FieldKind::Vector4I16(v),
                Err(e) => return Err(e),
            },
            35u8 => match read_vec2::<u16>(self) {
                Ok(v) => FieldKind::Vector2U16(v),
                Err(e) => return Err(e),
            },
            36u8 => match read_vec3::<u16>(self) {
                Ok(v) => FieldKind::Vector3U16(v),
                Err(e) => return Err(e),
            },
            37u8 => match read_vec4::<u16>(self) {
                Ok(v) => FieldKind::Vector4U16(v),
                Err(e) => return Err(e),
            },
            38u8 => match read_vec2::<i32>(self) {
                Ok(v) => FieldKind::Vector2I32(v),
                Err(e) => return Err(e),
            },
            39u8 => match read_vec3::<i32>(self) {
                Ok(v) => FieldKind::Vector3I32(v),
                Err(e) => return Err(e),
            },
            40u8 => match read_vec4::<i32>(self) {
                Ok(v) => FieldKind::Vector4I32(v),
                Err(e) => return Err(e),
            },
            41u8 => match read_vec2::<u32>(self) {
                Ok(v) => FieldKind::Vector2U32(v),
                Err(e) => return Err(e),
            },
            42u8 => match read_vec3::<u32>(self) {
                Ok(v) => FieldKind::Vector3U32(v),
                Err(e) => return Err(e),
            },
            43u8 => match read_vec4::<u32>(self) {
                Ok(v) => FieldKind::Vector4U32(v),
                Err(e) => return Err(e),
            },
            44u8 => match read_vec2::<i64>(self) {
                Ok(v) => FieldKind::Vector2I64(v),
                Err(e) => return Err(e),
            },
            45u8 => match read_vec3::<i64>(self) {
                Ok(v) => FieldKind::Vector3I64(v),
                Err(e) => return Err(e),
            },
            46u8 => match read_vec4::<i64>(self) {
                Ok(v) => FieldKind::Vector4I64(v),
                Err(e) => return Err(e),
            },
            47u8 => match read_vec2::<u64>(self) {
                Ok(v) => FieldKind::Vector2U64(v),
                Err(e) => return Err(e),
            },
            48u8 => match read_vec3::<u64>(self) {
                Ok(v) => FieldKind::Vector3U64(v),
                Err(e) => return Err(e),
            },
            49u8 => match read_vec4::<u64>(self) {
                Ok(v) => FieldKind::Vector4U64(v),
                Err(e) => return Err(e),
            },
            _ => return Err(VisitError::UnknownFieldType(tag)),
        };
        Ok(kind)
    }

    /// One binary field: name, tag byte, payload.
    pub fn read_field(&mut self) -> (r: Result<Field, VisitError>)
        requires
            old(self).wf(),
        ensures
            final(self).wf(),
            final(self).data@ == old(self).data@,
            old(self).pos <= final(self).pos,
            match bp_field(old(self).data@, old(self).pos as int) {
                Ok((f, j)) => r matches Ok(fv) && fv@ == f && final(self).pos as int == j,
                Err(e) => r matches Err(er) && er@ == e,
            },
    {
        let ghost p0 = self.pos;
        let name = match self.read_name() {
            Ok(s) => s,
            Err(e) => return Err(e),
        };
        let tag = match self.read_u8() {
            Ok(t) => t,
            Err(e) => return Err(e),
        };
        let kind = match self.read_payload(tag) {
            Ok(k) => k,
            Err(e) => return Err(e),
        };
        Ok(Field { name, kind })
    }
}

/// A successful `bp_fields` yields exactly `n` fields.
proof fn lemma_bp_fields_len(s: Seq<u8>, i: int, n: int)
    ensures
        bp_fields(s, i, n) matches Ok((fs, j)) ==> fs.len() == (if n >= 0 {
            n
        } else {
            0
        }),
    decreases n,
{
    if n > 0 {
        match bp_field(s, i) {
            Ok((f, j)) => {
                lemma_bp_fields_len(s, j, n - 1);
            },
            Err(_) => {},
        }
    }
}

/// A successful `bp_nodes` yields exactly `n` trees.
proof fn lemma_bp_nodes_len(s: Seq<u8>, i: int, n: int)
    ensures
        bp_nodes(s, i, n) matches Ok((ts, j)) ==> ts.len() == (if n >= 0 {
            n
        } else {
            0
        }),
    decreases n,
{
    if n > 0 && 0 <= i <= s.len() {
        match bp_node(s, i) {
            Ok((t, j)) => {
                if i <= j <= s.len() {
                    lemma_bp_nodes_len(s, j, n - 1);
                }
            },
            Err(_) => {},
        }
    }
}

impl<'a> BinaryReader<'a> {
    /// `n` consecutive fields.
    fn read_fields(&mut self, n: usize) -> (r: Result<Vec<Field>, VisitError>)
        requires
            old(self).wf(),
        ensures
            final(self).wf(),
            final(self).data@ == old(self).data@,
            old(self).pos <= final(self).pos,
            match bp_fields(old(self).data@, old(self).pos as int, n as int) {
                Ok((fs, j)) => r matches Ok(v) && fields_view(v@) == fs && v@.len() == n
                    && final(self).pos as int == j,
                Err(e) => r matches Err(er) && er@ == e,
            },
    {
        let ghost s = self.data@;
        let ghost i0 = self.pos as int;
        let mut acc: Vec<Field> = Vec::new();
        let mut t: usize = 0;
        proof {
            lemma_bp_fields_len(s, i0, n as int);
            match bp_fields(s, i0, n as int) {
                Ok((fs, j)) => {
                    assert(fs.skip(0) =~= fs);
                    assert(fields_view(acc@) =~= fs.take(0));
                },
                Err(_) => {},
            }
        }
        while t < n
            invariant
                self.wf(),
                self.data@ == s,
                s == old(self).data@,
                i0 == old(self).pos as int,
                i0 <= self.pos as int,
                0 <= t <= n,
                acc@.len() == t,
                match bp_fields(s, i0, n as int) {
                    Ok((fs, j)) => bp_fields(s, self.pos as int, n - t) == Ok::<
                        (Seq<FieldS>, int),
                        ErrS,
                    >((fs.skip(t as int), j)) && fields_view(acc@) == fs.take(t as int) && fs.len()
                        == n,
                    Err(e) => bp_fields(s, self.pos as int, n - t) == Err::<
                        (Seq<FieldS>, int),
                        ErrS,
                    >(e),
                },
            decreases n - t,
        {
            let f = match self.read_field() {
                Ok(f) => f,
                Err(e) => return Err(e),
            };
            acc.push(f);
            proof {
                match bp_fields(s, i0, n as int) {
                    Ok((fs, j)) => {
                        let rest = bp_fields(s, self.pos as int, n - t - 1);
                        assert(rest is Ok);
                        let (fs2, j2) = rest->Ok_0;
                        assert(seq![f@] + fs2 == fs.skip(t as int));
                        assert((seq![f@] + fs2)[0] == f@);
                        assert((seq![f@] + fs2).drop_first() =~= fs2);
                        assert(f@ == fs[t as int]) by {
                            assert(fs.skip(t as int)[0] == fs[t as int]);
                        }
                        assert(fs2 =~= fs.skip(t as int + 1));
                        assert(fields_view(acc@) =~= fs.take(t as int + 1));
                    },
                    Err(_) => {},
                }
            }
            t = t + 1;
        }
        proof {
            match bp_fields(s, i0, n as int) {
                Ok((fs, j)) => {
                    assert(fs.skip(n as int) =~= Seq::<FieldS>::empty());
                    assert(fs.take(n as int) =~= fs);
                },
                Err(_) => {
                    assert(false);
                },
            }
        }
        Ok(acc)
    }
}

/// One step of the child loop: after a child subtree is decoded onto the end
/// of the pool, the collected forest, its trees and the remaining-input
/// relation all extend by that child.
proof fn lemma_bin_child_step(
    s: Seq<u8>,
    i4: int,
    cc: int,
    t: int,
    cur: int,
    cur2: int,
    p_before: PoolV,
    p_after: PoolV,
    children: Seq<Handle>,
    h: Handle,
    n00: int,
)
    requires
        0 <= t < cc,
        0 <= i4 <= cur <= s.len(),
        forest(p_before, n00, p_before.len() as int, children),
        children.len() == t,
        forall|j: int|
            0 <= j < children.len() ==> n00 <= ((#[trigger] children[j]).index as int)
                < p_before.len(),
        match bp_nodes(s, i4, cc) {
            Ok((ts, j)) => bp_nodes(s, cur, cc - t) == Ok::<(Seq<TreeS>, int), ErrS>(
                (ts.skip(t), j),
            ) && trees_of(p_before, children, p_before.len() as int) == ts.take(t) && ts.len()
                == cc,
            Err(e) => bp_nodes(s, cur, cc - t) == Err::<(Seq<TreeS>, int), ErrS>(e),
        },
        bp_node(s, cur) is Ok,
        bp_node(s, cur)->Ok_0.1 == cur2,
        cur <= cur2 <= s.len(),
        p_after.len() >= p_before.len(),
        forall|k: int| 0 <= k < p_before.len() ==> #[trigger] p_after[k] == p_before[k],
        forest(p_after, p_before.len() as int, p_after.len() as int, seq![h]),
        h.index as int == p_after.len() - 1,
        tree_of(p_after, h.index as int) == bp_node(s, cur)->Ok_0.0,
    ensures
        forest(p_after, n00, p_after.len() as int, children.push(h)),
        forall|j: int|
            0 <= j < children.push(h).len() ==> n00 <= ((#[trigger] children.push(h)[j]).index
                as int) < p_after.len(),
        match bp_nodes(s, i4, cc) {
            Ok((ts, j)) => bp_nodes(s, cur2, cc - (t + 1)) == Ok::<(Seq<TreeS>, int), ErrS>(
                (ts.skip(t + 1), j),
            ) && trees_of(p_after, children.push(h), p_after.len() as int) == ts.take(t + 1)
                && ts.len() == cc,
            Err(e) => bp_nodes(s, cur2, cc - (t + 1)) == Err::<(Seq<TreeS>, int), ErrS>(e),
        },
{
    let len_before = p_before.len() as int;
    let len_after = p_after.len() as int;
    let t0 = bp_node(s, cur)->Ok_0.0;
    assert(h.index as int >= len_before && (h.index as int) < len_after) by {
        assert(forest(p_after, len_before, len_after, seq![h]));
        assert(seq![h][0] == h);
    }
    lemma_forest_frame(p_before, p_after, n00, len_before, children);
    lemma_forest_union(p_after, n00, len_before, len_after, children, seq![h]);
    assert(children.push(h) =~= children + seq![h]);
    assert forall|k: int| 0 <= k < len_before implies core_eq(
        #[trigger] p_before[k],
        p_after[k],
    ) by {
        assert(p_after[k] == p_before[k]);
    }
    lemma_trees_of_frame(p_before, p_after, children, len_before);
    lemma_trees_of_bound(p_after, children, len_before, len_after);
    lemma_trees_of_push(p_after, children, h, len_after);
    assert forall|j: int|
        0 <= j < children.push(h).len() implies n00 <= ((#[trigger] children.push(h)[j]).index
            as int) < p_after.len() by {
        if j < children.len() {
            assert(children.push(h)[j] == children[j]);
        } else {
            assert(children.push(h)[j] == h);
        }
    }
    match bp_nodes(s, i4, cc) {
        Ok((ts, j)) => {
            let rest = bp_nodes(s, cur2, cc - t - 1);
            assert(rest is Ok);
            let (ts3, j3) = rest->Ok_0;
            assert(seq![t0] + ts3 == ts.skip(t));
            assert((seq![t0] + ts3)[0] == t0);
            assert((seq![t0] + ts3).drop_first() =~= ts3);
            assert(t0 == ts[t]) by {
                assert(ts.skip(t)[0] == ts[t]);
            }
            assert(ts3 =~= ts.skip(t + 1));
            assert(tree_of(p_after, h.index as int) == t0);
            assert(trees_of(p_after, children, len_after) == ts.take(t));
            assert(trees_of(p_after, children.push(h), len_after) =~= ts.take(t + 1));
        },
        Err(e) => {
            assert(bp_nodes(s, cur, cc - t) == Err::<(Seq<TreeS>, int), ErrS>(e));
            assert(bp_nodes(s, cur2, cc - (t + 1)) == Err::<(Seq<TreeS>, int), ErrS>(e));
        },
    }
}

/// One node, decoded recursively into the visitor's pool: its children are
/// decoded (and spawned) first, then the node itself is spawned over them
/// and every child's parent pointer is aimed back at it.
#[verifier::rlimit(100)]
fn read_node_inner(data: &[u8], pos: usize, v: &mut Visitor) -> (r: Result<(Handle, usize), VisitError>)
    requires
        pos <= data@.len(),
        old(v).nodes.wf(),
        full_pool(old(v).nodes@),
        old(v).nodes@.len() + (data@.len() - pos) < u32::MAX,
    ensures
        final(v).nodes.wf(),
        full_pool(final(v).nodes@),
        final(v).nodes@.len() >= old(v).nodes@.len(),
        forall|k: int| 0 <= k < old(v).nodes@.len() ==> final(v).nodes@[k] == old(v).nodes@[k],
        final(v).root == old(v).root,
        final(v).current_node == old(v).current_node,
        final(v).reading == old(v).reading,
        final(v).flags == old(v).flags,
        final(v).rc_map == old(v).rc_map,
        final(v).arc_map == old(v).arc_map,
        match bp_node(data@, pos as int) {
            Ok((t, j)) => r matches Ok(hp) && hp.1 as int == j && pos <= hp.1 && hp.1
                <= data@.len() && final(v).nodes@.len() - old(v).nodes@.len() <= j - pos && forest(
                final(v).nodes@,
                old(v).nodes@.len() as int,
                final(v).nodes@.len() as int,
                seq![hp.0],
            ) && hp.0.index as int == final(v).nodes@.len() - 1 && tree_of(
                final(v).nodes@,
                hp.0.index as int,
            ) == t,
            Err(e) => r matches Err(er) && er@ == e,
        },
    decreases data@.len() - pos,
{
    let ghost s = data@;
    let ghost n00 = v.nodes@.len() as int;
    let ghost p00 = v.nodes@;
    let ghost groot = v.root;
    let ghost gcur = v.current_node;
    let ghost gread = v.reading;
    let ghost gflags = v.flags;
    let ghost grc = v.rc_map;
    let ghost garc = v.arc_map;
    let mut rd = BinaryReader { data, pos };
    let name = match rd.read_name() {
        Ok(x) => x,
        Err(e) => return Err(e),
    };
    let fc = match rd.read_u32() {
        Ok(x) => x,
        Err(e) => return Err(e),
    };
    let fields = match rd.read_fields(fc as usize) {
        Ok(x) => x,
        Err(e) => return Err(e),
    };
    let cc = match rd.read_u32() {
        Ok(x) => x,
        Err(e) => return Err(e),
    };
    let ghost i4 = rd.pos as int;
    proof {
        assert((pos as int) < i4 <= s.len());
        lemma_bp_nodes_len(s, i4, cc as int);
        match bp_nodes(s, i4, cc as int) {
            Ok((ts, j)) => {
                assert(ts.skip(0) =~= ts);
                assert(ts.take(0) =~= Seq::<TreeS>::empty());
                assert(trees_of(v.nodes@, Seq::<Handle>::empty(), v.nodes@.len() as int) =~= ts.take(0));
            },
            Err(_) => {},
        }
        assert(forest(v.nodes@, n00, n00, Seq::<Handle>::empty()));
        assert(bp_node(s, pos as int) == (match bp_nodes(s, i4, cc as int) {
            Ok((ts2, j2)) => Ok::<(TreeS, int), ErrS>(
                (TreeS { name: name@, fields: fields_view(fields@), children: ts2 }, j2),
            ),
            Err(e) => Err::<(TreeS, int), ErrS>(e),
        }));
    }
    let mut cur: usize = rd.pos;
    let mut children: Vec<Handle> = Vec::new();
    let mut t: u32 = 0;
    while t < cc
        invariant
            (pos as int) < i4,
            i4 <= cur as int <= s.len(),
            data@ == s,
            pos <= data@.len(),
            p00 == old(v).nodes@,
            groot == old(v).root,
            gcur == old(v).current_node,
            gread == old(v).reading,
            gflags == old(v).flags,
            grc == old(v).rc_map,
            garc == old(v).arc_map,
            v.nodes.wf(),
            full_pool(v.nodes@),
            v.nodes@.len() - n00 <= cur as int - i4,
            n00 == p00.len(),
            forall|k: int| 0 <= k < n00 ==> v.nodes@[k] == p00[k],
            v.root == groot,
            v.current_node == gcur,
            v.reading == gread,
            v.flags == gflags,
            v.rc_map == grc,
            v.arc_map == garc,
            n00 + (s.len() - i4) < u32::MAX,
            0 <= t <= cc,
            children@.len() == t,
            forall|j: int|
                0 <= j < children@.len() ==> n00 <= ((#[trigger] children@[j]).index as int)
                    < v.nodes@.len(),
            forest(v.nodes@, n00, v.nodes@.len() as int, children@),
            bp_node(s, pos as int) == (match bp_nodes(s, i4, cc as int) {
                Ok((ts2, j2)) => Ok::<(TreeS, int), ErrS>(
                    (TreeS { name: name@, fields: fields_view(fields@), children: ts2 }, j2),
                ),
                Err(e) => Err::<(TreeS, int), ErrS>(e),
            }),
            match bp_nodes(s, i4, cc as int) {
                Ok((ts, j)) => bp_nodes(s, cur as int, cc - t) == Ok::<(Seq<TreeS>, int), ErrS>(
                    (ts.skip(t as int), j),
                ) && trees_of(v.nodes@, children@, v.nodes@.len() as int) == ts.take(t as int)
                    && ts.len() == cc,
                Err(e) => bp_nodes(s, cur as int, cc - t) == Err::<(Seq<TreeS>, int), ErrS>(e),
            },
        decreases cc - t,
    {
        let ghost p_before = v.nodes@;
        let ghost len_before = v.nodes@.len() as int;
        let (h, cur2) = match read_node_inner(data, cur, v) {
            Ok(x) => x,
            Err(e) => return Err(e),
        };
        proof {
            lemma_bin_child_step(
                s,
                i4,
                cc as int,
                t as int,
                cur as int,
                cur2 as int,
                p_before,
                v.nodes@,
                children@,
                h,
                n00,
            );
        }
        children.push(h);
        cur = cur2;
        t = t + 1;
    }
    proof {
        match bp_nodes(s, i4, cc as int) {
            Ok((ts, j)) => {
                assert(ts.skip(cc as int) =~= Seq::<TreeS>::empty());
                assert(ts.take(cc as int) =~= ts);
            },
            Err(_) => {
                assert(false);
            },
        }
    }
    let ghost p_pre = v.nodes@;
    let h = attach_node(&mut v.nodes, name, fields, children, Ghost(n00));
    proof {
        match bp_node(s, pos as int) {
            Ok((tr, j)) => {
                assert(tree_of(v.nodes@, h.index as int) =~= tr);
            },
            Err(_) => {
                assert(false);
            },
        }
    }
    Ok((h, cur))
}

impl<'a> BinaryReader<'a> {
    /// One node and its whole subtree, decoded into the visitor's pool.
    pub fn read_node(&mut self, visitor: &mut Visitor) -> (r: Result<Handle, VisitError>)
        requires
            old(self).wf(),
            old(visitor).nodes.wf(),
            full_pool(old(visitor).nodes@),
            old(visitor).nodes@.len() + (old(self).data@.len() - old(self).pos) < u32::MAX,
        ensures
            final(self).wf(),
            final(self).data@ == old(self).data@,
            final(visitor).nodes.wf(),
            full_pool(final(visitor).nodes@),
            forall|k: int|
                0 <= k < old(visitor).nodes@.len() ==> final(visitor).nodes@[k] == old(
                    visitor,
                ).nodes@[k],
            final(visitor).root == old(visitor).root,
            final(visitor).current_node == old(visitor).current_node,
            final(visitor).reading == old(visitor).reading,
            final(visitor).flags == old(visitor).flags,
            final(visitor).rc_map == old(visitor).rc_map,
            final(visitor).arc_map == old(visitor).arc_map,
            match bp_node(old(self).data@, old(self).pos as int) {
                Ok((t, j)) => r matches Ok(h) && final(self).pos as int == j && forest(
                    final(visitor).nodes@,
                    old(visitor).nodes@.len() as int,
                    final(visitor).nodes@.len() as int,
                    seq![h],
                ) && h.index as int == final(visitor).nodes@.len() - 1 && tree_of(
                    final(visitor).nodes@,
                    h.index as int,
                ) == t,
                Err(e) => r matches Err(er) && er@ == e,
            },
    {
        match read_node_inner(self.data, self.pos, visitor) {
            Ok((h, p)) => {
                self.pos = p;
                Ok(h)
            },
            Err(e) => Err(e),
        }
    }

    /// A whole stream: the magic marker, then the root node. On success the
    /// returned visitor holds the decoded tree, with the root and the cursor
    /// at its root and empty shared-reference maps.
    pub fn read(&mut self) -> (r: Result<Visitor, VisitError>)
        requires
            old(self).wf(),
            old(self).data@.len() < u32::MAX,
        ensures
            final(self).wf(),
            final(self).data@ == old(self).data@,
            match bp_stream(old(self).data@) {
                Ok((t, j)) => r matches Ok(vis) && visitor_wf(vis) && visitor_tree(vis) == t
                    && vis.reading == true && vis.rc_map@ == Map::<u64, Handle>::empty()
                    && vis.arc_map@ == Map::<u64, Handle>::empty() && vis.flags.0 == 0
                    && final(self).pos as int == j,
                Err(e) => r matches Err(er) && er@ == e,
            },
    {
        let ghost s = self.data@;
        if self.data.len() < 4 {
            return Err(VisitError::EndOfStream);
        }
        if self.data[0] != 82 || self.data[1] != 71 || self.data[2] != 51 || self.data[3] != 68 {
            proof {
                let m = s.subrange(0, 4);
                if s[0] == 82 && s[1] == 71 && s[2] == 51 && s[3] == 68 {
                    assert(false);
                }
                assert(m[0] == s[0] && m[1] == s[1] && m[2] == s[2] && m[3] == s[3]);
                assert(m != magic_bytes());
            }
            return Err(VisitError::NotSupportedFormat);
        }
        proof {
            assert(s.subrange(0, 4) =~= magic_bytes());
        }
        self.pos = 4;
        let mut visitor = Visitor {
            nodes: Pool::new(),
            root: Handle::none(),
            current_node: Handle::none(),
            reading: true,
            rc_map: HashMap::new(),
            arc_map: HashMap::new(),
            flags: VisitorFlags::none(),
        };
        match read_node_inner(self.data, 4, &mut visitor) {
            Ok((h, p)) => {
                self.pos = p;
                visitor.root = h;
                visitor.current_node = h;
                Ok(visitor)
            },
            Err(e) => Err(e),
        }
    }
}

} // verus!
