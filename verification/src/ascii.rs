use vstd::prelude::*;

use crate::cursor::{lemma_sp_token_progress, sp_token, scan_until, ByteReader};
use crate::error::{ErrS, VisitError};
use crate::field::{
    f32_seq, F32Bits, F64Bits, Field, FieldKind, FieldKindS, FieldS, Matrix2, Matrix3, Matrix4,
    UnitComplexBits, UnitQuatBits, UuidBytes, Vector2, Vector3, Vector4,
};
use crate::numeric::{parse_i64_bytes, parse_signed, parse_u64_bytes, parse_unsigned};
use crate::trusted::{
    base64_decode, base64_decode_of, complex_norm_of, f32_of_text, f64_of_text, parse_f32,
    parse_f64, quat_norm_of, uuid_of_text, uuid_parse,
};
use crate::pool::{Handle, Pool};
use crate::visitor::{
    attach_node, core_eq, forest, full_pool, lemma_forest_frame, lemma_forest_union,
    lemma_trees_of_bound, lemma_trees_of_frame, lemma_trees_of_push, tree_of, trees_of,
    visitor_tree, visitor_wf, PoolV, TreeS, Visitor, VisitorFlags,
};
use crate::field::fields_view;
use std::collections::HashMap;
use vstd::utf8::{decode_utf8, encode_utf8, valid_utf8};

verus! {

/// An element type the text vector payloads are built from: it knows what
/// parsing one token of itself means, at the byte level.
pub trait AsciiNum: Sized + Copy {
    spec fn tok_el(t: Seq<u8>) -> Option<Self>;

    fn parse_el(s: &str) -> (r: Option<Self>)
        ensures
            r == Self::tok_el(encode_utf8(s@)),
    ;
}

impl AsciiNum for u8 {
    open spec fn tok_el(t: Seq<u8>) -> Option<u8> {
        match parse_unsigned(t) {
            Some(v) => if v <= u8::MAX {
                Some(v as u8)
            } else {
                None
            },
            None => None,
        }
    }

    fn parse_el(s: &str) -> (r: Option<u8>) {
        match parse_u64_bytes(s.as_bytes()) {
            Some(v) => if v <= 255 {
                Some(v as u8)
            } else {
                None
            },
            None => None,
        }
    }
}

impl AsciiNum for u16 {
    open spec fn tok_el(t: Seq<u8>) -> Option<u16> {
        match parse_unsigned(t) {
            Some(v) => if v <= u16::MAX {
                Some(v as u16)
            } else {
                None
            },
            None => None,
        }
    }

    fn parse_el(s: &str) -> (r: Option<u16>) {
        match parse_u64_bytes(s.as_bytes()) {
            Some(v) => if v <= 65535 {
                Some(v as u16)
            } else {
                None
            },
            None => None,
        }
    }
}

impl AsciiNum for u32 {
    open spec fn tok_el(t: Seq<u8>) -> Option<u32> {
        match parse_unsigned(t) {
            Some(v) => if v <= u32::MAX {
                Some(v as u32)
            } else {
                None
            },
            None => None,
        }
    }

    fn parse_el(s: &str) -> (r: Option<u32>) {
        match parse_u64_bytes(s.as_bytes()) {
            Some(v) => if v <= 4294967295 {
                Some(v as u32)
            } else {
                None
            },
            None => None,
        }
    }
}

impl AsciiNum for u64 {
    open spec fn tok_el(t: Seq<u8>) -> Option<u64> {
        match parse_unsigned(t) {
            Some(v) => if v <= u64::MAX {
                Some(v as u64)
            } else {
                None
            },
            None => None,
        }
    }

    fn parse_el(s: &str) -> (r: Option<u64>) {
        parse_u64_bytes(s.as_bytes())
    }
}

impl AsciiNum for usize {
    open spec fn tok_el(t: Seq<u8>) -> Option<usize> {
        match parse_unsigned(t) {
            Some(v) => if v <= usize::MAX {
                Some(v as usize)
            } else {
                None
            },
            None => None,
        }
    }

    fn parse_el(s: &str) -> (r: Option<usize>) {
        match parse_u64_bytes(s.as_bytes()) {
            Some(v) => if v <= usize::MAX as u64 {
                Some(v as usize)
            } else {
                None
            },
            None => None,
        }
    }
}

impl AsciiNum for i8 {
    open spec fn tok_el(t: Seq<u8>) -> Option<i8> {
        match parse_signed(t) {
            Some(v) => if i8::MIN <= v <= i8::MAX {
                Some(v as i8)
            } else {
                None
            },
            None => None,
        }
    }

    fn parse_el(s: &str) -> (r: Option<i8>) {
        match parse_i64_bytes(s.as_bytes()) {
            Some(v) => if -128 <= v && v <= 127 {
                Some(v as i8)
            } else {
                None
            },
            None => None,
        }
    }
}

impl AsciiNum for i16 {
    open spec fn tok_el(t: Seq<u8>) -> Option<i16> {
        match parse_signed(t) {
            Some(v) => if i16::MIN <= v <= i16::MAX {
                Some(v as i16)
            } else {
                None
            },
            None => None,
        }
    }

    fn parse_el(s: &str) -> (r: Option<i16>) {
        match parse_i64_bytes(s.as_bytes()) {
            Some(v) => if -32768 <= v && v <= 32767 {
                Some(v as i16)
            } else {
                None
            },
            None => None,
        }
    }
}

impl AsciiNum for i32 {
    open spec fn tok_el(t: Seq<u8>) -> Option<i32> {
        match parse_signed(t) {
            Some(v) => if i32::MIN <= v <= i32::MAX {
                Some(v as i32)
            } else {
                None
            },
            None => None,
        }
    }

    fn parse_el(s: &str) -> (r: Option<i32>) {
        match parse_i64_bytes(s.as_bytes()) {
            Some(v) => if -2147483648 <= v && v <= 2147483647 {
                Some(v as i32)
            } else {
                None
            },
            None => None,
        }
    }
}

impl AsciiNum for i64 {
    open spec fn tok_el(t: Seq<u8>) -> Option<i64> {
        match parse_signed(t) {
            Some(v) => if i64::MIN <= v <= i64::MAX {
                Some(v as i64)
            } else {
                None
            },
            None => None,
        }
    }

    fn parse_el(s: &str) -> (r: Option<i64>) {
        parse_i64_bytes(s.as_bytes())
    }
}

impl AsciiNum for F32Bits {
    open spec fn tok_el(t: Seq<u8>) -> Option<F32Bits> {
        match f32_of_text(t) {
            Some(b) => Some(F32Bits(b)),
            None => None,
        }
    }

    fn parse_el(s: &str) -> (r: Option<F32Bits>) {
        match parse_f32(s) {
            Some(b) => Some(F32Bits(b)),
            None => None,
        }
    }
}

impl AsciiNum for F64Bits {
    open spec fn tok_el(t: Seq<u8>) -> Option<F64Bits> {
        match f64_of_text(t) {
            Some(b) => Some(F64Bits(b)),
            None => None,
        }
    }

    fn parse_el(s: &str) -> (r: Option<F64Bits>) {
        match parse_f64(s) {
            Some(b) => Some(F64Bits(b)),
            None => None,
        }
    }
}

// ------------------------------------------------------------------
// The text wire format, as spec-level parsing functions. Byte 60 is '<',
// 58 ':', 62 '>', 59 ';', 91 '[', 93 ']', 123 '{'.
// ------------------------------------------------------------------
/// One numeric token ending at `stop`.
pub open spec fn ap_num<T: AsciiNum>(s: Seq<u8>, i: int, stop: u8) -> Result<(T, int), ErrS> {
    match sp_token(s, i, stop) {
        Err(e) => Err(e),
        Ok((tb, j)) => if !valid_utf8(tb) {
            Err(ErrS::InvalidUtf8)
        } else {
            match T::tok_el(tb) {
                Some(v) => Ok((v, j)),
                None => Err(ErrS::InvalidNumber),
            }
        },
    }
}

pub open spec fn ap_vec2<T: AsciiNum>(s: Seq<u8>, i: int) -> Result<(Vector2<T>, int), ErrS> {
    match ap_num::<T>(s, i, 59) {
        Err(e) => Err(e),
        Ok((x, i1)) => match ap_num::<T>(s, i1, 62) {
            Err(e) => Err(e),
            Ok((y, i2)) => Ok((Vector2 { x, y }, i2)),
        },
    }
}

pub open spec fn ap_vec3<T: AsciiNum>(s: Seq<u8>, i: int) -> Result<(Vector3<T>, int), ErrS> {
    match ap_num::<T>(s, i, 59) {
        Err(e) => Err(e),
        Ok((x, i1)) => match ap_num::<T>(s, i1, 59) {
            Err(e) => Err(e),
            Ok((y, i2)) => match ap_num::<T>(s, i2, 62) {
                Err(e) => Err(e),
                Ok((z, i3)) => Ok((Vector3 { x, y, z }, i3)),
            },
        },
    }
}

pub open spec fn ap_vec4<T: AsciiNum>(s: Seq<u8>, i: int) -> Result<(Vector4<T>, int), ErrS> {
    match ap_num::<T>(s, i, 59) {
        Err(e) => Err(e),
        Ok((x, i1)) => match ap_num::<T>(s, i1, 59) {
            Err(e) => Err(e),
            Ok((y, i2)) => match ap_num::<T>(s, i2, 59) {
                Err(e) => Err(e),
                Ok((z, i3)) => match ap_num::<T>(s, i3, 62) {
                    Err(e) => Err(e),
                    Ok((w, i4)) => Ok((Vector4 { x, y, z, w }, i4)),
                },
            },
        },
    }
}

/// `n` float tokens separated by ';', the last ended by '>', in the linear
/// (column-major) order the in-memory matrices use.
pub open spec fn ap_f32_run(s: Seq<u8>, i: int, n: int) -> Result<(Seq<u32>, int), ErrS>
    decreases n,
{
    if n <= 0 {
        Ok((Seq::empty(), i))
    } else {
        match ap_num::<F32Bits>(s, i, if n == 1 {
            62
        } else {
            59
        }) {
            Err(e) => Err(e),
            Ok((v, j)) => match ap_f32_run(s, j, n - 1) {
                Err(e) => Err(e),
                Ok((vs, j2)) => Ok((seq![v.0] + vs, j2)),
            },
        }
    }
}

/// One token decoded to characters, or the UTF-8 failure.
pub open spec fn ap_word(s: Seq<u8>, i: int, stop: u8) -> Result<(Seq<u8>, Seq<char>, int), ErrS> {
    match sp_token(s, i, stop) {
        Err(e) => Err(e),
        Ok((tb, j)) => if valid_utf8(tb) {
            Ok((tb, decode_utf8(tb), j))
        } else {
            Err(ErrS::InvalidUtf8)
        },
    }
}

/// The value of one field given its type keyword.
pub open spec fn ap_value(ty: Seq<char>, s: Seq<u8>, i: int) -> Result<(FieldKindS, int), ErrS> {
    if ty == "bool"@ {
        match ap_word(s, i, 62) {
            Err(e) => Err(e),
            Ok((tb, w, j)) => if w == "true"@ {
                Ok((FieldKindS::Bool(true), j))
            } else if w == "false"@ {
                Ok((FieldKindS::Bool(false), j))
            } else {
                Err(ErrS::User(w))
            },
        }
    } else if ty == "u8"@ {
        match ap_num::<u8>(s, i, 62) {
            Ok((v, j)) => Ok((FieldKindS::U8(v), j)),
            Err(e) => Err(e),
        }
    } else if ty == "i8"@ {
        match ap_num::<i8>(s, i, 62) {
            Ok((v, j)) => Ok((FieldKindS::I8(v), j)),
            Err(e) => Err(e),
        }
    } else if ty == "u16"@ {
        match ap_num::<u16>(s, i, 62) {
            Ok((v, j)) => Ok((FieldKindS::U16(v), j)),
            Err(e) => Err(e),
        }
    } else if ty == "i16"@ {
        match ap_num::<i16>(s, i, 62) {
            Ok((v, j)) => Ok((FieldKindS::I16(v), j)),
            Err(e) => Err(e),
        }
    } else if ty == "u32"@ {
        match ap_num::<u32>(s, i, 62) {
            Ok((v, j)) => Ok((FieldKindS::U32(v), j)),
            Err(e) => Err(e),
        }
    } else if ty == "i32"@ {
        match ap_num::<i32>(s, i, 62) {
            Ok((v, j)) => Ok((FieldKindS::I32(v), j)),
            Err(e) => Err(e),
        }
    } else if ty == "u64"@ {
        match ap_num::<u64>(s, i, 62) {
            Ok((v, j)) => Ok((FieldKindS::U64(v), j)),
            Err(e) => Err(e),
        }
    } else if ty == "i64"@ {
        match ap_num::<i64>(s, i, 62) {
            Ok((v, j)) => Ok((FieldKindS::I64(v), j)),
            Err(e) => Err(e),
        }
    } else if ty == "f32"@ {
        match ap_num::<F32Bits>(s, i, 62) {
            Ok((v, j)) => Ok((FieldKindS::F32(v.0), j)),
            Err(e) => Err(e),
        }
    } else if ty == "f64"@ {
        match ap_num::<F64Bits>(s, i, 62) {
            Ok((v, j)) => Ok((FieldKindS::F64(v.0), j)),
            Err(e) => Err(e),
        }
    } else {
        ap_value_vec(ty, s, i)
    }
}

/// The vector-typed keywords of the value grammar.
pub open spec fn ap_value_vec(ty: Seq<char>, s: Seq<u8>, i: int) -> Result<(FieldKindS, int), ErrS> {
    if ty == "vec2f32"@ {
        match ap_vec2::<F32Bits>(s, i) {
            Ok((v, j)) => Ok((FieldKindS::Vector2F32(v), j)),
            Err(e) => Err(e),
        }
    } else if ty == "vec3f32"@ {
        match ap_vec3::<F32Bits>(s, i) {
            Ok((v, j)) => Ok((FieldKindS::Vector3F32(v), j)),
            Err(e) => Err(e),
        }
    } else if ty == "vec4f32"@ {
        match ap_vec4::<F32Bits>(s, i) {
            Ok((v, j)) => Ok((FieldKindS::Vector4F32(v), j)),
            Err(e) => Err(e),
        }
    } else if ty == "vec2f64"@ {
        match ap_vec2::<F64Bits>(s, i) {
            Ok((v, j)) => Ok((FieldKindS::Vector2F64(v), j)),
            Err(e) => Err(e),
        }
    } else if ty == "vec3f64"@ {
        match ap_vec3::<F64Bits>(s, i) {
            Ok((v, j)) => Ok((FieldKindS::Vector3F64(v), j)),
            Err(e) => Err(e),
        }
    } else if ty == "vec4f64"@ {
        match ap_vec4::<F64Bits>(s, i) {
            Ok((v, j)) => Ok((FieldKindS::Vector4F64(v), j)),
            Err(e) => Err(e),
        }
    } else if ty == "vec2i8"@ {
        match ap_vec2::<i8>(s, i) {
            Ok((v, j)) => Ok((FieldKindS::Vector2I8(v), j)),
            Err(e) => Err(e),
        }
    } else if ty == "vec3i8"@ {
        match ap_vec3::<i8>(s, i) {
            Ok((v, j)) => Ok((FieldKindS::Vector3I8(v), j)),
            Err(e) => Err(e),
        }
    } else if ty == "vec4i8"@ {
        match ap_vec4::<i8>(s, i) {
            Ok((v, j)) => Ok((FieldKindS::Vector4I8(v), j)),
            Err(e) => Err(e),
        }
    } else if ty == "vec2u8"@ {
        match ap_vec2::<u8>(s, i) {
            Ok((v, j)) => Ok((FieldKindS::Vector2U8(v), j)),
            Err(e) => Err(e),
        }
    } else if ty == "vec3u8"@ {
        match ap_vec3::<u8>(s, i) {
            Ok((v, j)) => Ok((FieldKindS::Vector3U8(v), j)),
            Err(e) => Err(e),
        }
    } else if ty == "vec4u8"@ {
        match ap_vec4::<u8>(s, i) {
            Ok((v, j)) => Ok((FieldKindS::Vector4U8(v), j)),
            Err(e) => Err(e),
        }
    } else if ty == "vec2i16"@ {
        match ap_vec2::<i16>(s, i) {
            Ok((v, j)) => Ok((FieldKindS::Vector2I16(v), j)),
            Err(e) => Err(e),
        }
    } else if ty == "vec3i16"@ {
        match ap_vec3::<i16>(s, i) {
            Ok((v, j)) => Ok((FieldKindS::Vector3I16(v), j)),
            Err(e) => Err(e),
        }
    } else if ty == "vec4i16"@ {
        match ap_vec4::<i16>(s, i) {
            Ok((v, j)) => Ok((FieldKindS::Vector4I16(v), j)),
            Err(e) => Err(e),
        }
    } else if ty == "vec2u16"@ {
        match ap_vec2::<u16>(s, i) {
            Ok((v, j)) => Ok((FieldKindS::Vector2U16(v), j)),
            Err(e) => Err(e),
        }
    } else if ty == "vec3u16"@ {
        match ap_vec3::<u16>(s, i) {
            Ok((v, j)) => Ok((FieldKindS::Vector3U16(v), j)),
            Err(e) => Err(e),
        }
    } else if ty == "vec4u16"@ {
        match ap_vec4::<u16>(s, i) {
            Ok((v, j)) => Ok((FieldKindS::Vector4U16(v), j)),
            Err(e) => Err(e),
        }
    } else if ty == "vec2i32"@ {
        match ap_vec2::<i32>(s, i) {
            Ok((v, j)) => Ok((FieldKindS::Vector2I32(v), j)),
            Err(e) => Err(e),
        }
    } else if ty == "vec3i32"@ {
        match ap_vec3::<i32>(s, i) {
            Ok((v, j)) => Ok((FieldKindS::Vector3I32(v), j)),
            Err(e) => Err(e),
        }
    } else if ty == "vec4i32"@ {
        match ap_vec4::<i32>(s, i) {
            Ok((v, j)) => Ok((FieldKindS::Vector4I32(v), j)),
            Err(e) => Err(e),
        }
    } else if ty == "vec2u32"@ {
        match ap_vec2::<u32>(s, i) {
            Ok((v, j)) => Ok((FieldKindS::Vector2U32(v), j)),
            Err(e) => Err(e),
        }
    } else if ty == "vec3u32"@ {
        match ap_vec3::<u32>(s, i) {
            Ok((v, j)) => Ok((FieldKindS::Vector3U32(v), j)),
            Err(e) => Err(e),
        }
    } else if ty == "vec4u32"@ {
        match ap_vec4::<u32>(s, i) {
            Ok((v, j)) => Ok((FieldKindS::Vector4U32(v), j)),
            Err(e) => Err(e),
        }
    } else if ty == "vec2i64"@ {
        match ap_vec2::<i64>(s, i) {
            Ok((v, j)) => Ok((FieldKindS::Vector2I64(v), j)),
            Err(e) => Err(e),
        }
    } else if ty == "vec3i64"@ {
        match ap_vec3::<i64>(s, i) {
            Ok((v, j)) => Ok((FieldKindS::Vector3I64(v), j)),
            Err(e) => Err(e),
        }
    } else if ty == "vec4i64"@ {
        match ap_vec4::<i64>(s, i) {
            Ok((v, j)) => Ok((FieldKindS::Vector4I64(v), j)),
            Err(e) => Err(e),
        }
    } else if ty == "vec2u64"@ {
        match ap_vec2::<u64>(s, i) {
            Ok((v, j)) => Ok((FieldKindS::Vector2U64(v), j)),
            Err(e) => Err(e),
        }
    } else if ty == "vec3u64"@ {
        match ap_vec3::<u64>(s, i) {
            Ok((v, j)) => Ok((FieldKindS::Vector3U64(v), j)),
            Err(e) => Err(e),
        }
    } else if ty == "vec4u64"@ {
        match ap_vec4::<u64>(s, i) {
            Ok((v, j)) => Ok((FieldKindS::Vector4U64(v), j)),
            Err(e) => Err(e),
        }
    } else {
        ap_value_rest(ty, s, i)
    }
}

/// The remaining keywords of the value grammar.
pub open spec fn ap_value_rest(ty: Seq<char>, s: Seq<u8>, i: int) -> Result<(FieldKindS, int), ErrS> {
    if ty == "quat"@ {
        match ap_vec4::<F32Bits>(s, i) {
            Ok((v, j)) => Ok(
                (
                    FieldKindS::UnitQuaternion(
                        crate::binary::quat_bits(quat_norm_of(v.x.0, v.y.0, v.z.0, v.w.0)),
                    ),
                    j,
                ),
            ),
            Err(e) => Err(e),
        }
    } else if ty == "mat4"@ {
        match ap_f32_run(s, i, 16) {
            Ok((w, j)) => Ok((FieldKindS::Matrix4(w), j)),
            Err(e) => Err(e),
        }
    } else if ty == "data"@ {
        match ap_word(s, i, 62) {
            Err(e) => Err(e),
            Ok((tb, w, j)) => match base64_decode_of(tb) {
                Some(b) => Ok((FieldKindS::BinaryBlob(b), j)),
                None => Err(ErrS::InvalidBase64),
            },
        }
    } else if ty == "mat3"@ {
        match ap_f32_run(s, i, 9) {
            Ok((w, j)) => Ok((FieldKindS::Matrix3(w), j)),
            Err(e) => Err(e),
        }
    } else if ty == "uuid"@ {
        match ap_word(s, i, 62) {
            Err(e) => Err(e),
            Ok((tb, w, j)) => match uuid_of_text(tb) {
                Some(b) => Ok((FieldKindS::Uuid(b), j)),
                None => Err(ErrS::InvalidUuid),
            },
        }
    } else if ty == "complex"@ {
        match ap_vec2::<F32Bits>(s, i) {
            Ok((v, j)) => Ok(
                (
                    FieldKindS::UnitComplex(
                        crate::binary::complex_bits(complex_norm_of(v.x.0, v.y.0)),
                    ),
                    j,
                ),
            ),
            Err(e) => Err(e),
        }
    } else if ty == "podarray"@ {
        match ap_num::<u8>(s, i, 59) {
            Err(e) => Err(e),
            Ok((type_id, i1)) => match ap_num::<u32>(s, i1, 59) {
                Err(e) => Err(e),
                Ok((element_size, i2)) => match ap_word(s, i2, 62) {
                    Err(e) => Err(e),
                    Ok((tb, w, j)) => match base64_decode_of(tb) {
                        Some(b) => Ok(
                            (FieldKindS::PodArray { type_id, element_size, bytes: b }, j),
                        ),
                        None => Err(ErrS::InvalidBase64),
                    },
                },
            },
        }
    } else if ty == "mat2"@ {
        match ap_f32_run(s, i, 4) {
            Ok((w, j)) => Ok((FieldKindS::Matrix2(w), j)),
            Err(e) => Err(e),
        }
    } else {
        Err(ErrS::User(ty))
    }
}

/// One text field: `Name<type:value>`.
pub open spec fn ap_field(s: Seq<u8>, i: int) -> Result<(FieldS, int), ErrS> {
    match ap_word(s, i, 60) {
        Err(e) => Err(e),
        Ok((nb, name, i1)) => match ap_word(s, i1, 58) {
            Err(e) => Err(e),
            Ok((tb, ty, i2)) => match ap_value(ty, s, i2) {
                Err(e) => Err(e),
                Ok((kind, j)) => Ok((FieldS { name, kind }, j)),
            },
        },
    }
}

/// `n` consecutive text fields.
pub open spec fn ap_fields(s: Seq<u8>, i: int, n: int) -> Result<(Seq<FieldS>, int), ErrS>
    decreases n,
{
    if n <= 0 {
        Ok((Seq::empty(), i))
    } else {
        match ap_field(s, i) {
            Err(e) => Err(e),
            Ok((f, j)) => match ap_fields(s, j, n - 1) {
                Err(e) => Err(e),
                Ok((fs, j2)) => Ok((seq![f] + fs, j2)),
            },
        }
    }
}

/// One text node: `Name[fieldcount: fields] ... { childcount: children`,
/// where the field list's closing bracket and the children block's opening
/// brace are located by skipping, exactly as the reader does.
pub open spec fn ap_node(s: Seq<u8>, i: int) -> Result<(TreeS, int), ErrS>
    decreases s.len() - i, 0int, 0int,
{
    match ap_word(s, i, 91) {
        Err(e) => Err(e),
        Ok((nb, name, i1)) => match ap_num::<usize>(s, i1, 58) {
            Err(e) => Err(e),
            Ok((fc, i2)) => match ap_fields(s, i2, fc as int) {
                Err(e) => Err(e),
                Ok((fields, i3)) => match scan_until(s, i3, 93) {
                    Err(e) => Err(e),
                    Ok(i4) => match scan_until(s, i4 + 1, 123) {
                        Err(e) => Err(e),
                        Ok(i5) => match ap_num::<usize>(s, i5 + 1, 58) {
                            Err(e) => Err(e),
                            Ok((cc, i6)) => if i < i6 <= s.len() {
                                match ap_nodes(s, i6, cc as int) {
                                    Err(e) => Err(e),
                                    Ok((children, j)) => Ok((TreeS { name, fields, children }, j)),
                                }
                            } else {
                                Err(ErrS::EndOfStream)
                            },
                        },
                    },
                },
            },
        },
    }
}

/// `n` consecutive text nodes.
pub open spec fn ap_nodes(s: Seq<u8>, i: int, n: int) -> Result<(Seq<TreeS>, int), ErrS>
    decreases s.len() - i, 1int, n,
{
    if n <= 0 {
        Ok((Seq::empty(), i))
    } else if 0 <= i <= s.len() {
        match ap_node(s, i) {
            Err(e) => Err(e),
            Ok((t, j)) => if i <= j && j <= s.len() {
                match ap_nodes(s, j, n - 1) {
                    Err(e) => Err(e),
                    Ok((ts, j2)) => Ok((seq![t] + ts, j2)),
                }
            } else {
                Err(ErrS::EndOfStream)
            },
        }
    } else {
        Err(ErrS::EndOfStream)
    }
}

/// A whole text stream: the four magic bytes read one by one, then the root
/// node.
pub open spec fn ap_stream(s: Seq<u8>) -> Result<(TreeS, int), ErrS> {
    if s.len() < 4 {
        Err(ErrS::EndOfStream)
    } else if s.subrange(0, 4) != crate::binary::magic_bytes() {
        Err(ErrS::NotSupportedFormat)
    } else {
        ap_node(s, 4)
    }
}

proof fn lemma_ap_fields_len(s: Seq<u8>, i: int, n: int)
    ensures
        ap_fields(s, i, n) matches Ok((fs, j)) ==> fs.len() == (if n >= 0 {
            n
        } else {
            0
        }),
    decreases n,
{
    if n > 0 {
        match ap_field(s, i) {
            Ok((f, j)) => {
                lemma_ap_fields_len(s, j, n - 1);
            },
            Err(_) => {},
        }
    }
}

proof fn lemma_ap_nodes_len(s: Seq<u8>, i: int, n: int)
    ensures
        ap_nodes(s, i, n) matches Ok((ts, j)) ==> ts.len() == (if n >= 0 {
            n
        } else {
            0
        }),
    decreases n,
{
    if n > 0 && 0 <= i <= s.len() {
        match ap_node(s, i) {
            Ok((t, j)) => {
                if i <= j <= s.len() {
                    lemma_ap_nodes_len(s, j, n - 1);
                }
            },
            Err(_) => {},
        }
    }
}

/// String equality against a keyword.
fn streq(a: &String, b: &str) -> (r: bool)
    ensures
        r == (a@ == b@),
{
    let ob = b.to_owned();
    a.eq(&ob)
}

/// One numeric token ending at `stop`.
pub fn read_num_el<T: AsciiNum>(rd: &mut ByteReader<'_>, stop: u8) -> (r: Result<T, VisitError>)
    requires
        old(rd).wf(),
    ensures
        final(rd).wf(),
        final(rd).data@ == old(rd).data@,
        old(rd).pos <= final(rd).pos,
        match ap_num::<T>(old(rd).data@, old(rd).pos as int, stop) {
            Ok((v, j)) => r matches Ok(x) && x == v && final(rd).pos as int == j,
            Err(e) => r matches Err(er) && er@ == e,
        },
{
    let ghost s = old(rd).data@;
    let ghost i0 = old(rd).pos as int;
    let st = match rd.read_str_until_skip_ws(stop) {
        Ok(x) => x,
        Err(e) => return Err(e),
    };
    proof {
        match sp_token(s, i0, stop) {
            Ok((tb, j)) => {
                vstd::utf8::decode_utf8_encode_utf8(tb);
            },
            Err(_) => {
                assert(false);
            },
        }
    }
    match T::parse_el(st.as_str()) {
        Some(v) => Ok(v),
        None => Err(VisitError::InvalidNumber),
    }
}

fn read_vec2_el<T: AsciiNum>(rd: &mut ByteReader<'_>) -> (r: Result<Vector2<T>, VisitError>)
    requires
        old(rd).wf(),
    ensures
        final(rd).wf(),
        final(rd).data@ == old(rd).data@,
        old(rd).pos <= final(rd).pos,
        match ap_vec2::<T>(old(rd).data@, old(rd).pos as int) {
            Ok((v, j)) => r matches Ok(x) && x == v && final(rd).pos as int == j,
            Err(e) => r matches Err(er) && er@ == e,
        },
{
    let x = match read_num_el::<T>(rd, 59) {
        Ok(v) => v,
        Err(e) => return Err(e),
    };
    let y = match read_num_el::<T>(rd, 62) {
        Ok(v) => v,
        Err(e) => return Err(e),
    };
    Ok(Vector2 { x, y })
}

fn read_vec3_el<T: AsciiNum>(rd: &mut ByteReader<'_>) -> (r: Result<Vector3<T>, VisitError>)
    requires
        old(rd).wf(),
    ensures
        final(rd).wf(),
        final(rd).data@ == old(rd).data@,
        old(rd).pos <= final(rd).pos,
        match ap_vec3::<T>(old(rd).data@, old(rd).pos as int) {
            Ok((v, j)) => r matches Ok(x) && x == v && final(rd).pos as int == j,
            Err(e) => r matches Err(er) && er@ == e,
        },
{
    let x = match read_num_el::<T>(rd, 59) {
        Ok(v) => v,
        Err(e) => return Err(e),
    };
    let y = match read_num_el::<T>(rd, 59) {
        Ok(v) => v,
        Err(e) => return Err(e),
    };
    let z = match read_num_el::<T>(rd, 62) {
        Ok(v) => v,
        Err(e) => return Err(e),
    };
    Ok(Vector3 { x, y, z })
}

fn read_vec4_el<T: AsciiNum>(rd: &mut ByteReader<'_>) -> (r: Result<Vector4<T>, VisitError>)
    requires
        old(rd).wf(),
    ensures
        final(rd).wf(),
        final(rd).data@ == old(rd).data@,
        old(rd).pos <= final(rd).pos,
        match ap_vec4::<T>(old(rd).data@, old(rd).pos as int) {
            Ok((v, j)) => r matches Ok(x) && x == v && final(rd).pos as int == j,
            Err(e) => r matches Err(er) && er@ == e,
        },
{
    let x = match read_num_el::<T>(rd, 59) {
        Ok(v) => v,
        Err(e) => return Err(e),
    };
    let y = match read_num_el::<T>(rd, 59) {
        Ok(v) => v,
        Err(e) => return Err(e),
    };
    let z = match read_num_el::<T>(rd, 59) {
        Ok(v) => v,
        Err(e) => return Err(e),
    };
    let w = match read_num_el::<T>(rd, 62) {
        Ok(v) => v,
        Err(e) => return Err(e),
    };
    Ok(Vector4 { x, y, z, w })
}

/// `n` float tokens, ';'-separated, '>'-terminated.
fn read_f32_run(rd: &mut ByteReader<'_>, n: usize) -> (r: Result<Vec<u32>, VisitError>)
    requires
        old(rd).wf(),
    ensures
        final(rd).wf(),
        final(rd).data@ == old(rd).data@,
        old(rd).pos <= final(rd).pos,
        match ap_f32_run(old(rd).data@, old(rd).pos as int, n as int) {
            Ok((ws, j)) => r matches Ok(v) && v@ == ws && v@.len() == n && final(rd).pos as int
                == j,
            Err(e) => r matches Err(er) && er@ == e,
        },
{
    let ghost s = rd.data@;
    let ghost i0 = rd.pos as int;
    let mut acc: Vec<u32> = Vec::new();
    let mut t: usize = 0;
    proof {
        lemma_ap_f32_run_len(s, i0, n as int);
        match ap_f32_run(s, i0, n as int) {
            Ok((ws, j)) => {
                assert(ws.skip(0) =~= ws);
                assert(ws.take(0) =~= Seq::<u32>::empty());
            },
            Err(_) => {},
        }
    }
    while t < n
        invariant
            rd.wf(),
            rd.data@ == s,
            s == old(rd).data@,
            i0 == old(rd).pos as int,
            i0 <= rd.pos as int,
            0 <= t <= n,
            acc@.len() == t,
            match ap_f32_run(s, i0, n as int) {
                Ok((ws, j)) => ap_f32_run(s, rd.pos as int, n - t) == Ok::<
                    (Seq<u32>, int),
                    ErrS,
                >((ws.skip(t as int), j)) && acc@ == ws.take(t as int) && ws.len() == n,
                Err(e) => ap_f32_run(s, rd.pos as int, n - t) == Err::<(Seq<u32>, int), ErrS>(e),
            },
        decreases n - t,
    {
        let stop: u8 = if t == n - 1 {
            62
        } else {
            59
        };
        let v = match read_num_el::<F32Bits>(rd, stop) {
            Ok(v) => v,
            Err(e) => return Err(e),
        };
        acc.push(v.0);
        proof {
            match ap_f32_run(s, i0, n as int) {
                Ok((ws, j)) => {
                    let rest = ap_f32_run(s, rd.pos as int, n - t - 1);
                    assert(rest is Ok);
                    let (ws3, j3) = rest->Ok_0;
                    assert(seq![v.0] + ws3 == ws.skip(t as int));
                    assert((seq![v.0] + ws3)[0] == v.0);
                    assert((seq![v.0] + ws3).drop_first() =~= ws3);
                    assert(v.0 == ws[t as int]) by {
                        assert(ws.skip(t as int)[0] == ws[t as int]);
                    }
                    assert(ws3 =~= ws.skip(t as int + 1));
                    assert(acc@ =~= ws.take(t as int + 1));
                },
                Err(_) => {},
            }
        }
        t = t + 1;
    }
    proof {
        match ap_f32_run(s, i0, n as int) {
            Ok((ws, j)) => {
                assert(ws.skip(n as int) =~= Seq::<u32>::empty());
                assert(ws.take(n as int) =~= ws);
            },
            Err(_) => {
                assert(false);
            },
        }
    }
    Ok(acc)
}

proof fn lemma_ap_f32_run_len(s: Seq<u8>, i: int, n: int)
    ensures
        ap_f32_run(s, i, n) matches Ok((ws, j)) ==> ws.len() == (if n >= 0 {
            n
        } else {
            0
        }),
    decreases n,
{
    if n > 0 {
        match ap_num::<F32Bits>(s, i, if n == 1 {
            62
        } else {
            59
        }) {
            Ok((v, j)) => {
                lemma_ap_f32_run_len(s, j, n - 1);
            },
            Err(_) => {},
        }
    }
}

/// Decodes the text wire format from an in-memory byte source.
pub struct AsciiReader<'a> {
    pub src: ByteReader<'a>,
}

impl<'a> AsciiReader<'a> {
    pub fn new(src: &'a [u8]) -> (r: AsciiReader<'a>)
        ensures
            r.src.data@ == src@,
            r.src.pos == 0,
            r.src.wf(),
    {
        AsciiReader { src: ByteReader::new(src) }
    }

    /// One text field: `Name<type:value>`.
    #[verifier::rlimit(100)]
    pub fn read_field(&mut self) -> (r: Result<Field, VisitError>)
        requires
            old(self).src.wf(),
        ensures
            final(self).src.wf(),
            final(self).src.data@ == old(self).src.data@,
            old(self).src.pos <= final(self).src.pos,
            match ap_field(old(self).src.data@, old(self).src.pos as int) {
                Ok((f, j)) => r matches Ok(fv) && fv@ == f && final(self).src.pos as int == j,
                Err(e) => r matches Err(er) && er@ == e,
            },
    {
        let name = match self.src.read_str_until_skip_ws(60) {
            Ok(x) => x,
            Err(e) => return Err(e),
        };
        let ty = match self.src.read_str_until_skip_ws(58) {
            Ok(x) => x,
            Err(e) => return Err(e),
        };
        let kind = match read_value(&mut self.src, &ty) {
            Ok(k) => k,
            Err(e) => return Err(e),
        };
        Ok(Field { name, kind })
    }
}

/// The value of one field, chosen by its type keyword.
#[verifier::rlimit(100)]
fn read_value(src: &mut ByteReader<'_>, ty: &String) -> (r: Result<FieldKind, VisitError>)
    requires
        old(src).wf(),
    ensures
        final(src).wf(),
        final(src).data@ == old(src).data@,
        old(src).pos <= final(src).pos,
        match ap_value(ty@, old(src).data@, old(src).pos as int) {
            Ok((k, j)) => r matches Ok(fk) && fk@ == k && final(src).pos as int == j,
            Err(e) => r matches Err(er) && er@ == e,
        },
{
    let kind: FieldKind = if streq(ty, "bool") {
        let w = match src.read_str_until_skip_ws(62) {
            Ok(x) => x,
            Err(e) => return Err(e),
        };
        if streq(&w, "true") {
            FieldKind::Bool(true)
        } else if streq(&w, "false") {
            FieldKind::Bool(false)
        } else {
            return Err(VisitError::User(w));
        }
    } else if streq(ty, "u8") {
        match read_num_el::<u8>(src, 62) {
            Ok(v) => FieldKind::U8(v),
            Err(e) => return Err(e),
        }
    } else if streq(ty, "i8") {
        match read_num_el::<i8>(src, 62) {
            Ok(v) => FieldKind::I8(v),
            Err(e) => return Err(e),
        }
    } else if streq(ty, "u16") {
        match read_num_el::<u16>(src, 62) {
            Ok(v) => FieldKind::U16(v),
            Err(e) => return Err(e),
        }
    } else if streq(ty, "i16") {
        match read_num_el::<i16>(src, 62) {
            Ok(v) => FieldKind::I16(v),
            Err(e) => return Err(e),
        }
    } else if streq(ty, "u32") {
        match read_num_el::<u32>(src, 62) {
            Ok(v) => FieldKind::U32(v),
            Err(e) => return Err(e),
        }
    } else if streq(ty, "i32") {
        match read_num_el::<i32>(src, 62) {
            Ok(v) => FieldKind::I32(v),
            Err(e) => return Err(e),
        }
    } else if streq(ty, "u64") {
        match read_num_el::<u64>(src, 62) {
            Ok(v) => FieldKind::U64(v),
            Err(e) => return Err(e),
        }
    } else if streq(ty, "i64") {
        match read_num_el::<i64>(src, 62) {
            Ok(v) => FieldKind::I64(v),
            Err(e) => return Err(e),
        }
    } else if streq(ty, "f32") {
        match read_num_el::<F32Bits>(src, 62) {
            Ok(v) => FieldKind::F32(v),
            Err(e) => return Err(e),
        }
    } else if streq(ty, "f64") {
        match read_num_el::<F64Bits>(src, 62) {
            Ok(v) => FieldKind::F64(v),
            Err(e) => return Err(e),
        }
    } else {
        match read_value_vec(src, ty) {
            Ok(k) => k,
            Err(e) => return Err(e),
        }
    };
    Ok(kind)
}

/// The vector-typed keywords.
#[verifier::rlimit(100)]
fn read_value_vec(src: &mut ByteReader<'_>, ty: &String) -> (r: Result<FieldKind, VisitError>)
    requires
        old(src).wf(),
    ensures
        final(src).wf(),
        final(src).data@ == old(src).data@,
        old(src).pos <= final(src).pos,
        match ap_value_vec(ty@, old(src).data@, old(src).pos as int) {
            Ok((k, j)) => r matches Ok(fk) && fk@ == k && final(src).pos as int == j,
            Err(e) => r matches Err(er) && er@ == e,
        },
{
    let kind: FieldKind =     if streq(ty, "vec2f32") {
        match read_vec2_el::<F32Bits>(src) {
            Ok(v) => FieldKind::Vector2F32(v),
            Err(e) => return Err(e),
        }
    } else if streq(ty, "vec3f32") {
        match read_vec3_el::<F32Bits>(src) {
            Ok(v) => FieldKind::Vector3F32(v),
            Err(e) => return Err(e),
        }
    } else if streq(ty, "vec4f32") {
        match read_vec4_el::<F32Bits>(src) {
            Ok(v) => FieldKind::Vector4F32(v),
            Err(e) => return Err(e),
        }
    } else if streq(ty, "vec2f64") {
        match read_vec2_el::<F64Bits>(src) {
            Ok(v) => FieldKind::Vector2F64(v),
            Err(e) => return Err(e),
        }
    } else if streq(ty, "vec3f64") {
        match read_vec3_el::<F64Bits>(src) {
            Ok(v) => FieldKind::Vector3F64(v),
            Err(e) => return Err(e),
        }
    } else if streq(ty, "vec4f64") {
        match read_vec4_el::<F64Bits>(src) {
            Ok(v) => FieldKind::Vector4F64(v),
            Err(e) => return Err(e),
        }
    } else if streq(ty, "vec2i8") {
        match read_vec2_el::<i8>(src) {
            Ok(v) => FieldKind::Vector2I8(v),
            Err(e) => return Err(e),
        }
    } else if streq(ty, "vec3i8") {
        match read_vec3_el::<i8>(src) {
            Ok(v) => FieldKind::Vector3I8(v),
            Err(e) => return Err(e),
        }
    } else if streq(ty, "vec4i8") {
        match read_vec4_el::<i8>(src) {
            Ok(v) => FieldKind::Vector4I8(v),
            Err(e) => return Err(e),
        }
    } else if streq(ty, "vec2u8") {
        match read_vec2_el::<u8>(src) {
            Ok(v) => FieldKind::Vector2U8(v),
            Err(e) => return Err(e),
        }
    } else if streq(ty, "vec3u8") {
        match read_vec3_el::<u8>(src) {
            Ok(v) => FieldKind::Vector3U8(v),
            Err(e) => return Err(e),
        }
    } else if streq(ty, "vec4u8") {
        match read_vec4_el::<u8>(src) {
            Ok(v) => FieldKind::Vector4U8(v),
            Err(e) => return Err(e),
        }
    } else if streq(ty, "vec2i16") {
        match read_vec2_el::<i16>(src) {
            Ok(v) => FieldKind::Vector2I16(v),
            Err(e) => return Err(e),
        }
    } else if streq(ty, "vec3i16") {
        match read_vec3_el::<i16>(src) {
            Ok(v) => FieldKind::Vector3I16(v),
            Err(e) => return Err(e),
        }
    } else if streq(ty, "vec4i16") {
        match read_vec4_el::<i16>(src) {
            Ok(v) => FieldKind::Vector4I16(v),
            Err(e) => return Err(e),
        }
    } else if streq(ty, "vec2u16") {
        match read_vec2_el::<u16>(src) {
            Ok(v) => FieldKind::Vector2U16(v),
            Err(e) => return Err(e),
        }
    } else if streq(ty, "vec3u16") {
        match read_vec3_el::<u16>(src) {
            Ok(v) => FieldKind::Vector3U16(v),
            Err(e) => return Err(e),
        }
    } else if streq(ty, "vec4u16") {
        match read_vec4_el::<u16>(src) {
            Ok(v) => FieldKind::Vector4U16(v),
            Err(e) => return Err(e),
        }
    } else if streq(ty, "vec2i32") {
        match read_vec2_el::<i32>(src) {
            Ok(v) => FieldKind::Vector2I32(v),
            Err(e) => return Err(e),
        }
    } else if streq(ty, "vec3i32") {
        match read_vec3_el::<i32>(src) {
            Ok(v) => FieldKind::Vector3I32(v),
            Err(e) => return Err(e),
        }
    } else if streq(ty, "vec4i32") {
        match read_vec4_el::<i32>(src) {
            Ok(v) => FieldKind::Vector4I32(v),
            Err(e) => return Err(e),
        }
    } else if streq(ty, "vec2u32") {
        match read_vec2_el::<u32>(src) {
            Ok(v) => FieldKind::Vector2U32(v),
            Err(e) => return Err(e),
        }
    } else if streq(ty, "vec3u32") {
        match read_vec3_el::<u32>(src) {
            Ok(v) => FieldKind::Vector3U32(v),
            Err(e) => return Err(e),
        }
    } else if streq(ty, "vec4u32") {
        match read_vec4_el::<u32>(src) {
            Ok(v) => FieldKind::Vector4U32(v),
            Err(e) => return Err(e),
        }
    } else if streq(ty, "vec2i64") {
        match read_vec2_el::<i64>(src) {
            Ok(v) => FieldKind::Vector2I64(v),
            Err(e) => return Err(e),
        }
    } else if streq(ty, "vec3i64") {
        match read_vec3_el::<i64>(src) {
            Ok(v) => FieldKind::Vector3I64(v),
            Err(e) => return Err(e),
        }
    } else if streq(ty, "vec4i64") {
        match read_vec4_el::<i64>(src) {
            Ok(v) => FieldKind::Vector4I64(v),
            Err(e) => return Err(e),
        }
    } else if streq(ty, "vec2u64") {
        match read_vec2_el::<u64>(src) {
            Ok(v) => FieldKind::Vector2U64(v),
            Err(e) => return Err(e),
        }
    } else if streq(ty, "vec3u64") {
        match read_vec3_el::<u64>(src) {
            Ok(v) => FieldKind::Vector3U64(v),
            Err(e) => return Err(e),
        }
    } else if streq(ty, "vec4u64") {
        match read_vec4_el::<u64>(src) {
            Ok(v) => FieldKind::Vector4U64(v),
            Err(e) => return Err(e),
        }
    } else {
        match read_value_rest(src, ty) {
            Ok(k) => k,
            Err(e) => return Err(e),
        }
    };
    Ok(kind)
}

/// The remaining keywords.
#[verifier::rlimit(100)]
fn read_value_rest(src: &mut ByteReader<'_>, ty: &String) -> (r: Result<FieldKind, VisitError>)
    requires
        old(src).wf(),
    ensures
        final(src).wf(),
        final(src).data@ == old(src).data@,
        old(src).pos <= final(src).pos,
        match ap_value_rest(ty@, old(src).data@, old(src).pos as int) {
            Ok((k, j)) => r matches Ok(fk) && fk@ == k && final(src).pos as int == j,
            Err(e) => r matches Err(er) && er@ == e,
        },
{
    let kind: FieldKind = if streq(ty, "quat") {
        match read_vec4_el::<F32Bits>(src) {
            Ok(v) => {
                let (x, y, z, w) = crate::trusted::normalize_quat(v.x.0, v.y.0, v.z.0, v.w.0);
                FieldKind::UnitQuaternion(
                    UnitQuatBits { x: F32Bits(x), y: F32Bits(y), z: F32Bits(z), w: F32Bits(w) },
                )
            },
            Err(e) => return Err(e),
        }
    } else if streq(ty, "mat4") {
        match read_f32_run(src, 16) {
            Ok(w) => {
                let m = Matrix4 {
                    m: [
                            F32Bits(w[0]),
                            F32Bits(w[1]),
                            F32Bits(w[2]),
                            F32Bits(w[3]),
                            F32Bits(w[4]),
                            F32Bits(w[5]),
                            F32Bits(w[6]),
                            F32Bits(w[7]),
                            F32Bits(w[8]),
                            F32Bits(w[9]),
                            F32Bits(w[10]),
                            F32Bits(w[11]),
                            F32Bits(w[12]),
                            F32Bits(w[13]),
                            F32Bits(w[14]),
                            F32Bits(w[15]),
                    ],
                };
                proof {
                    assert(f32_seq(m.m@) =~= w@);
                }
                FieldKind::Matrix4(m)
            },
            Err(e) => return Err(e),
        }
    } else if streq(ty, "data") {
        match read_b64(src) {
            Ok(b) => FieldKind::BinaryBlob(b),
            Err(e) => return Err(e),
        }
    } else if streq(ty, "mat3") {
        match read_f32_run(src, 9) {
            Ok(w) => {
                let m = Matrix3 {
                    m: [
                            F32Bits(w[0]),
                            F32Bits(w[1]),
                            F32Bits(w[2]),
                            F32Bits(w[3]),
                            F32Bits(w[4]),
                            F32Bits(w[5]),
                            F32Bits(w[6]),
                            F32Bits(w[7]),
                            F32Bits(w[8]),
                    ],
                };
                proof {
                    assert(f32_seq(m.m@) =~= w@);
                }
                FieldKind::Matrix3(m)
            },
            Err(e) => return Err(e),
        }
    } else if streq(ty, "uuid") {
        match read_uuid_tok(src) {
            Ok(u) => FieldKind::Uuid(u),
            Err(e) => return Err(e),
        }
    } else if streq(ty, "complex") {
        match read_vec2_el::<F32Bits>(src) {
            Ok(v) => {
                let (re, im) = crate::trusted::normalize_complex(v.x.0, v.y.0);
                FieldKind::UnitComplex(UnitComplexBits { re: F32Bits(re), im: F32Bits(im) })
            },
            Err(e) => return Err(e),
        }
    } else if streq(ty, "podarray") {
        let type_id = match read_num_el::<u8>(src, 59) {
            Ok(v) => v,
            Err(e) => return Err(e),
        };
        let element_size = match read_num_el::<u32>(src, 59) {
            Ok(v) => v,
            Err(e) => return Err(e),
        };
        match read_b64(src) {
            Ok(bytes) => FieldKind::PodArray { type_id, element_size, bytes },
            Err(e) => return Err(e),
        }
    } else if streq(ty, "mat2") {
        match read_f32_run(src, 4) {
            Ok(w) => {
                let m = Matrix2 {
                    m: [
                            F32Bits(w[0]),
                            F32Bits(w[1]),
                            F32Bits(w[2]),
                            F32Bits(w[3]),
                    ],
                };
                proof {
                    assert(f32_seq(m.m@) =~= w@);
                }
                FieldKind::Matrix2(m)
            },
            Err(e) => return Err(e),
        }
    } else {
        return Err(VisitError::User(ty.clone()));
    };
    Ok(kind)
}

/// One base64 token ending at '>', decoded to its payload.
fn read_b64(src: &mut ByteReader<'_>) -> (r: Result<Vec<u8>, VisitError>)
    requires
        old(src).wf(),
    ensures
        final(src).wf(),
        final(src).data@ == old(src).data@,
        old(src).pos <= final(src).pos,
        match sp_token(old(src).data@, old(src).pos as int, 62) {
            Err(e) => r matches Err(er) && er@ == e,
            Ok((tb, j)) => if !valid_utf8(tb) {
                r == Err::<Vec<u8>, VisitError>(VisitError::InvalidUtf8)
            } else {
                match base64_decode_of(tb) {
                    Some(b) => r matches Ok(v) && v@ == b && final(src).pos as int == j,
                    None => r == Err::<Vec<u8>, VisitError>(VisitError::InvalidBase64),
                }
            },
        },
{
    let ghost s = old(src).data@;
    let ghost i0 = old(src).pos as int;
    let w = match src.read_str_until_skip_ws(62) {
        Ok(x) => x,
        Err(e) => return Err(e),
    };
    proof {
        match sp_token(s, i0, 62) {
            Ok((tb, j)) => {
                vstd::utf8::decode_utf8_encode_utf8(tb);
            },
            Err(_) => {
                assert(false);
            },
        }
    }
    match data_blob(&w) {
        Some(b) => Ok(b),
        None => Err(VisitError::InvalidBase64),
    }
}

/// One UUID token ending at '>', parsed to its sixteen bytes.
fn read_uuid_tok(src: &mut ByteReader<'_>) -> (r: Result<UuidBytes, VisitError>)
    requires
        old(src).wf(),
    ensures
        final(src).wf(),
        final(src).data@ == old(src).data@,
        old(src).pos <= final(src).pos,
        match sp_token(old(src).data@, old(src).pos as int, 62) {
            Err(e) => r matches Err(er) && er@ == e,
            Ok((tb, j)) => if !valid_utf8(tb) {
                r == Err::<UuidBytes, VisitError>(VisitError::InvalidUtf8)
            } else {
                match uuid_of_text(tb) {
                    Some(b) => r matches Ok(u) && u.b@ == b && final(src).pos as int == j,
                    None => r == Err::<UuidBytes, VisitError>(VisitError::InvalidUuid),
                }
            },
        },
{
    let ghost s = old(src).data@;
    let ghost i0 = old(src).pos as int;
    let w = match src.read_str_until_skip_ws(62) {
        Ok(x) => x,
        Err(e) => return Err(e),
    };
    proof {
        match sp_token(s, i0, 62) {
            Ok((tb, j)) => {
                vstd::utf8::decode_utf8_encode_utf8(tb);
            },
            Err(_) => {
                assert(false);
            },
        }
    }
    match uuid_value(&w) {
        Some(u) => Ok(u),
        None => Err(VisitError::InvalidUuid),
    }
}

/// Decode a base64 token string to its payload.
fn data_blob(w: &String) -> (r: Option<Vec<u8>>)
    ensures
        match r {
            Some(v) => base64_decode_of(encode_utf8(w@)) == Some(v@),
            None => base64_decode_of(encode_utf8(w@)) is None,
        },
{
    base64_decode(w.as_str())
}

/// Parse a UUID token string to its sixteen bytes.
fn uuid_value(w: &String) -> (r: Option<UuidBytes>)
    ensures
        match r {
            Some(u) => uuid_of_text(encode_utf8(w@)) == Some(u.b@),
            None => uuid_of_text(encode_utf8(w@)) is None,
        },
{
    match uuid_parse(w.as_str()) {
        Some(arr) => Some(UuidBytes { b: arr }),
        None => None,
    }
}

/// One step of the text child loop, mirroring the binary one.
proof fn lemma_ascii_child_step(
    s: Seq<u8>,
    i4: int,
    cc: int,
    t: int,
    cur: int,
    cur2: int,
    p_before: PoolV,
    p_after: PoolV,
    children: Seq<Handle>,
    h: Handle,
    n00: int,
)
    requires
        0 <= t < cc,
        0 <= i4 <= cur <= s.len(),
        forest(p_before, n00, p_before.len() as int, children),
        children.len() == t,
        forall|j: int|
            0 <= j < children.len() ==> n00 <= ((#[trigger] children[j]).index as int)
                < p_before.len(),
        match ap_nodes(s, i4, cc) {
            Ok((ts, j)) => ap_nodes(s, cur, cc - t) == Ok::<(Seq<TreeS>, int), ErrS>(
                (ts.skip(t), j),
            ) && trees_of(p_before, children, p_before.len() as int) == ts.take(t) && ts.len()
                == cc,
            Err(e) => ap_nodes(s, cur, cc - t) == Err::<(Seq<TreeS>, int), ErrS>(e),
        },
        ap_node(s, cur) is Ok,
        ap_node(s, cur)->Ok_0.1 == cur2,
        cur <= cur2 <= s.len(),
        p_after.len() >= p_before.len(),
        forall|k: int| 0 <= k < p_before.len() ==> #[trigger] p_after[k] == p_before[k],
        forest(p_after, p_before.len() as int, p_after.len() as int, seq![h]),
        h.index as int == p_after.len() - 1,
        tree_of(p_after, h.index as int) == ap_node(s, cur)->Ok_0.0,
    ensures
        forest(p_after, n00, p_after.len() as int, children.push(h)),
        forall|j: int|
            0 <= j < children.push(h).len() ==> n00 <= ((#[trigger] children.push(h)[j]).index
                as int) < p_after.len(),
        match ap_nodes(s, i4, cc) {
            Ok((ts, j)) => ap_nodes(s, cur2, cc - (t + 1)) == Ok::<(Seq<TreeS>, int), ErrS>(
                (ts.skip(t + 1), j),
            ) && trees_of(p_after, children.push(h), p_after.len() as int) == ts.take(t + 1)
                && ts.len() == cc,
            Err(e) => ap_nodes(s, cur2, cc - (t + 1)) == Err::<(Seq<TreeS>, int), ErrS>(e),
        },
{
    let len_before = p_before.len() as int;
    let len_after = p_after.len() as int;
    let t0 = ap_node(s, cur)->Ok_0.0;
    assert(h.index as int >= len_before && (h.index as int) < len_after) by {
        assert(forest(p_after, len_before, len_after, seq![h]));
        assert(seq![h][0] == h);
    }
    lemma_forest_frame(p_before, p_after, n00, len_before, children);
    lemma_forest_union(p_after, n00, len_before, len_after, children, seq![h]);
    assert(children.push(h) =~= children + seq![h]);
    assert forall|k: int| 0 <= k < len_before implies core_eq(
        #[trigger] p_before[k],
        p_after[k],
    ) by {
        assert(p_after[k] == p_before[k]);
    }
    lemma_trees_of_frame(p_before, p_after, children, len_before);
    lemma_trees_of_bound(p_after, children, len_before, len_after);
    lemma_trees_of_push(p_after, children, h, len_after);
    assert forall|j: int|
        0 <= j < children.push(h).len() implies n00 <= ((#[trigger] children.push(h)[j]).index
            as int) < p_after.len() by {
        if j < children.len() {
            assert(children.push(h)[j] == children[j]);
        } else {
            assert(children.push(h)[j] == h);
        }
    }
    match ap_nodes(s, i4, cc) {
        Ok((ts, j)) => {
            let rest = ap_nodes(s, cur2, cc - t - 1);
            assert(rest is Ok);
            let (ts3, j3) = rest->Ok_0;
            assert(seq![t0] + ts3 == ts.skip(t));
            assert((seq![t0] + ts3)[0] == t0);
            assert((seq![t0] + ts3).drop_first() =~= ts3);
            assert(t0 == ts[t]) by {
                assert(ts.skip(t)[0] == ts[t]);
            }
            assert(ts3 =~= ts.skip(t + 1));
            assert(tree_of(p_after, h.index as int) == t0);
            assert(trees_of(p_after, children, len_after) == ts.take(t));
            assert(trees_of(p_after, children.push(h), len_after) =~= ts.take(t + 1));
        },
        Err(e) => {
            assert(ap_nodes(s, cur, cc - t) == Err::<(Seq<TreeS>, int), ErrS>(e));
            assert(ap_nodes(s, cur2, cc - (t + 1)) == Err::<(Seq<TreeS>, int), ErrS>(e));
        },
    }
}

/// `n` consecutive text fields.
fn read_fields_ascii(rd: &mut ByteReader<'_>, n: usize) -> (r: Result<Vec<Field>, VisitError>)
    requires
        old(rd).wf(),
    ensures
        final(rd).wf(),
        final(rd).data@ == old(rd).data@,
        old(rd).pos <= final(rd).pos,
        match ap_fields(old(rd).data@, old(rd).pos as int, n as int) {
            Ok((fs, j)) => r matches Ok(v) && fields_view(v@) == fs && v@.len() == n
                && final(rd).pos as int == j,
            Err(e) => r matches Err(er) && er@ == e,
        },
{
    let ghost s = rd.data@;
    let ghost i0 = rd.pos as int;
    let mut acc: Vec<Field> = Vec::new();
    let mut t: usize = 0;
    proof {
        lemma_ap_fields_len(s, i0, n as int);
        match ap_fields(s, i0, n as int) {
            Ok((fs, j)) => {
                assert(fs.skip(0) =~= fs);
                assert(fields_view(acc@) =~= fs.take(0));
            },
            Err(_) => {},
        }
    }
    while t < n
        invariant
            rd.wf(),
            rd.data@ == s,
            s == old(rd).data@,
            i0 == old(rd).pos as int,
            i0 <= rd.pos as int,
            0 <= t <= n,
            acc@.len() == t,
            match ap_fields(s, i0, n as int) {
                Ok((fs, j)) => ap_fields(s, rd.pos as int, n - t) == Ok::<
                    (Seq<FieldS>, int),
                    ErrS,
                >((fs.skip(t as int), j)) && fields_view(acc@) == fs.take(t as int) && fs.len()
                    == n,
                Err(e) => ap_fields(s, rd.pos as int, n - t) == Err::<(Seq<FieldS>, int), ErrS>(
                    e,
                ),
            },
        decreases n - t,
    {
        let mut sub = AsciiReader { src: ByteReader { data: rd.data, pos: rd.pos } };
        let f = match sub.read_field() {
            Ok(f) => f,
            Err(e) => return Err(e),
        };
        rd.pos = sub.src.pos;
        acc.push(f);
        proof {
            match ap_fields(s, i0, n as int) {
                Ok((fs, j)) => {
                    let rest = ap_fields(s, rd.pos as int, n - t - 1);
                    assert(rest is Ok);
                    let (fs2, j2) = rest->Ok_0;
                    assert(seq![f@] + fs2 == fs.skip(t as int));
                    assert((seq![f@] + fs2)[0] == f@);
                    assert((seq![f@] + fs2).drop_first() =~= fs2);
                    assert(f@ == fs[t as int]) by {
                        assert(fs.skip(t as int)[0] == fs[t as int]);
                    }
                    assert(fs2 =~= fs.skip(t as int + 1));
                    assert(fields_view(acc@) =~= fs.take(t as int + 1));
                },
                Err(_) => {},
            }
        }
        t = t + 1;
    }
    proof {
        match ap_fields(s, i0, n as int) {
            Ok((fs, j)) => {
                assert(fs.skip(n as int) =~= Seq::<FieldS>::empty());
                assert(fs.take(n as int) =~= fs);
            },
            Err(_) => {
                assert(false);
            },
        }
    }
    Ok(acc)
}

/// One text node, decoded recursively into the visitor's pool.
#[verifier::rlimit(100)]
fn read_node_inner_ascii(data: &[u8], pos: usize, v: &mut Visitor) -> (r: Result<
    (Handle, usize),
    VisitError,
>)
    requires
        pos <= data@.len(),
        old(v).nodes.wf(),
        full_pool(old(v).nodes@),
        old(v).nodes@.len() + (data@.len() - pos) < u32::MAX,
    ensures
        final(v).nodes.wf(),
        full_pool(final(v).nodes@),
        final(v).nodes@.len() >= old(v).nodes@.len(),
        forall|k: int| 0 <= k < old(v).nodes@.len() ==> final(v).nodes@[k] == old(v).nodes@[k],
        final(v).root == old(v).root,
        final(v).current_node == old(v).current_node,
        final(v).reading == old(v).reading,
        final(v).flags == old(v).flags,
        final(v).rc_map == old(v).rc_map,
        final(v).arc_map == old(v).arc_map,
        match ap_node(data@, pos as int) {
            Ok((t, j)) => r matches Ok(hp) && hp.1 as int == j && pos <= hp.1 && hp.1
                <= data@.len() && final(v).nodes@.len() - old(v).nodes@.len() <= j - pos && forest(
                final(v).nodes@,
                old(v).nodes@.len() as int,
                final(v).nodes@.len() as int,
                seq![hp.0],
            ) && hp.0.index as int == final(v).nodes@.len() - 1 && tree_of(
                final(v).nodes@,
                hp.0.index as int,
            ) == t,
            Err(e) => r matches Err(er) && er@ == e,
        },
    decreases data@.len() - pos,
{
    let ghost s = data@;
    let ghost n00 = v.nodes@.len() as int;
    let ghost p00 = v.nodes@;
    let mut rd = ByteReader { data, pos };
    proof {
        lemma_sp_token_progress(s, pos as int, 91);
    }
    let name = match rd.read_str_until_skip_ws(91) {
        Ok(x) => x,
        Err(e) => return Err(e),
    };
    let fc = match read_num_el::<usize>(&mut rd, 58) {
        Ok(x) => x,
        Err(e) => return Err(e),
    };
    let fields = match read_fields_ascii(&mut rd, fc) {
        Ok(x) => x,
        Err(e) => return Err(e),
    };
    match rd.skip_to_past(93) {
        Ok(_) => (),
        Err(e) => return Err(e),
    }
    match rd.skip_to_past(123) {
        Ok(_) => (),
        Err(e) => return Err(e),
    }
    let cc = match read_num_el::<usize>(&mut rd, 58) {
        Ok(x) => x,
        Err(e) => return Err(e),
    };
    let ghost i4 = rd.pos as int;
    proof {
        assert((pos as int) < i4 <= s.len());
        lemma_ap_nodes_len(s, i4, cc as int);
        match ap_nodes(s, i4, cc as int) {
            Ok((ts, j)) => {
                assert(ts.skip(0) =~= ts);
                assert(ts.take(0) =~= Seq::<TreeS>::empty());
                assert(trees_of(v.nodes@, Seq::<Handle>::empty(), v.nodes@.len() as int) =~= ts.take(0));
            },
            Err(_) => {},
        }
        assert(forest(v.nodes@, n00, n00, Seq::<Handle>::empty()));
        assert(ap_node(s, pos as int) == (match ap_nodes(s, i4, cc as int) {
            Ok((ts2, j2)) => Ok::<(TreeS, int), ErrS>(
                (TreeS { name: name@, fields: fields_view(fields@), children: ts2 }, j2),
            ),
            Err(e) => Err::<(TreeS, int), ErrS>(e),
        }));
    }
    let mut cur: usize = rd.pos;
    let mut children: Vec<Handle> = Vec::new();
    let mut t: usize = 0;
    while t < cc
        invariant
            (pos as int) < i4,
            i4 <= cur as int <= s.len(),
            data@ == s,
            pos <= data@.len(),
            p00 == old(v).nodes@,
            v.nodes.wf(),
            full_pool(v.nodes@),
            v.nodes@.len() - n00 <= cur as int - i4,
            n00 == p00.len(),
            forall|k: int| 0 <= k < n00 ==> v.nodes@[k] == p00[k],
            v.root == old(v).root,
            v.current_node == old(v).current_node,
            v.reading == old(v).reading,
            v.flags == old(v).flags,
            v.rc_map == old(v).rc_map,
            v.arc_map == old(v).arc_map,
            n00 + (s.len() - i4) < u32::MAX,
            0 <= t <= cc,
            children@.len() == t,
            forall|j: int|
                0 <= j < children@.len() ==> n00 <= ((#[trigger] children@[j]).index as int)
                    < v.nodes@.len(),
            forest(v.nodes@, n00, v.nodes@.len() as int, children@),
            ap_node(s, pos as int) == (match ap_nodes(s, i4, cc as int) {
                Ok((ts2, j2)) => Ok::<(TreeS, int), ErrS>(
                    (TreeS { name: name@, fields: fields_view(fields@), children: ts2 }, j2),
                ),
                Err(e) => Err::<(TreeS, int), ErrS>(e),
            }),
            match ap_nodes(s, i4, cc as int) {
                Ok((ts, j)) => ap_nodes(s, cur as int, cc - t) == Ok::<(Seq<TreeS>, int), ErrS>(
                    (ts.skip(t as int), j),
                ) && trees_of(v.nodes@, children@, v.nodes@.len() as int) == ts.take(t as int)
                    && ts.len() == cc,
                Err(e) => ap_nodes(s, cur as int, cc - t) == Err::<(Seq<TreeS>, int), ErrS>(e),
            },
        decreases cc - t,
    {
        let ghost p_before = v.nodes@;
        let (h, cur2) = match read_node_inner_ascii(data, cur, v) {
            Ok(x) => x,
            Err(e) => return Err(e),
        };
        proof {
            lemma_ascii_child_step(
                s,
                i4,
                cc as int,
                t as int,
                cur as int,
                cur2 as int,
                p_before,
                v.nodes@,
                children@,
                h,
                n00,
            );
        }
        children.push(h);
        cur = cur2;
        t = t + 1;
    }
    proof {
        match ap_nodes(s, i4, cc as int) {
            Ok((ts, j)) => {
                assert(ts.skip(cc as int) =~= Seq::<TreeS>::empty());
                assert(ts.take(cc as int) =~= ts);
            },
            Err(_) => {
                assert(false);
            },
        }
    }
    let h = attach_node(&mut v.nodes, name, fields, children, Ghost(n00));
    proof {
        match ap_node(s, pos as int) {
            Ok((tr, j)) => {
                assert(tree_of(v.nodes@, h.index as int) =~= tr);
            },
            Err(_) => {
                assert(false);
            },
        }
    }
    Ok((h, cur))
}

impl<'a> AsciiReader<'a> {
    /// One node and its whole subtree, decoded into the visitor's pool.
    pub fn read_node(&mut self, visitor: &mut Visitor) -> (r: Result<Handle, VisitError>)
        requires
            old(self).src.wf(),
            old(visitor).nodes.wf(),
            full_pool(old(visitor).nodes@),
            old(visitor).nodes@.len() + (old(self).src.data@.len() - old(self).src.pos)
                < u32::MAX,
        ensures
            final(self).src.wf(),
            final(self).src.data@ == old(self).src.data@,
            final(visitor).nodes.wf(),
            full_pool(final(visitor).nodes@),
            forall|k: int|
                0 <= k < old(visitor).nodes@.len() ==> final(visitor).nodes@[k] == old(
                    visitor,
                ).nodes@[k],
            final(visitor).root == old(visitor).root,
            final(visitor).current_node == old(visitor).current_node,
            final(visitor).reading == old(visitor).reading,
            final(visitor).flags == old(visitor).flags,
            final(visitor).rc_map == old(visitor).rc_map,
            final(visitor).arc_map == old(visitor).arc_map,
            match ap_node(old(self).src.data@, old(self).src.pos as int) {
                Ok((t, j)) => r matches Ok(h) && final(self).src.pos as int == j && forest(
                    final(visitor).nodes@,
                    old(visitor).nodes@.len() as int,
                    final(visitor).nodes@.len() as int,
                    seq![h],
                ) && h.index as int == final(visitor).nodes@.len() - 1 && tree_of(
                    final(visitor).nodes@,
                    h.index as int,
                ) == t,
                Err(e) => r matches Err(er) && er@ == e,
            },
    {
        match read_node_inner_ascii(self.src.data, self.src.pos, visitor) {
            Ok((h, p)) => {
                self.src.pos = p;
                Ok(h)
            },
            Err(e) => Err(e),
        }
    }

    /// A whole text stream: the magic marker read byte by byte, then the
    /// root node. On success the returned visitor holds the decoded tree.
    pub fn read(&mut self) -> (r: Result<Visitor, VisitError>)
        requires
            old(self).src.wf(),
            old(self).src.data@.len() < u32::MAX,
        ensures
            final(self).src.wf(),
            final(self).src.data@ == old(self).src.data@,
            match ap_stream(old(self).src.data@) {
                Ok((t, j)) => r matches Ok(vis) && visitor_wf(vis) && visitor_tree(vis) == t
                    && vis.reading == true && vis.rc_map@ == Map::<u64, Handle>::empty()
                    && vis.arc_map@ == Map::<u64, Handle>::empty() && vis.flags.0 == 0
                    && final(self).src.pos as int == j,
                Err(e) => r matches Err(er) && er@ == e,
            },
    {
        let ghost s = self.src.data@;
        if self.src.data.len() < 4 {
            return Err(VisitError::EndOfStream);
        }
        if self.src.data[0] != 82 || self.src.data[1] != 71 || self.src.data[2] != 51
            || self.src.data[3] != 68 {
            proof {
                let m = s.subrange(0, 4);
                assert(m[0] == s[0] && m[1] == s[1] && m[2] == s[2] && m[3] == s[3]);
                assert(m != crate::binary::magic_bytes());
            }
            return Err(VisitError::NotSupportedFormat);
        }
        self.src.pos = 4;
        proof {
            assert(s.subrange(0, 4) =~= crate::binary::magic_bytes());
        }
        let mut visitor = Visitor {
            nodes: Pool::new(),
            root: Handle::none(),
            current_node: Handle::none(),
            reading: true,
            rc_map: HashMap::new(),
            arc_map: HashMap::new(),
            flags: VisitorFlags::none(),
        };
        match read_node_inner_ascii(self.src.data, 4, &mut visitor) {
            Ok((h, p)) => {
                self.src.pos = p;
                visitor.root = h;
                visitor.current_node = h;
                Ok(visitor)
            },
            Err(e) => Err(e),
        }
    }
}

} // verus!
