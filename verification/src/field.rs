use vstd::prelude::*;

verus! {

/// An IEEE-754 binary32 value, held as its raw bit pattern. The library
/// never does arithmetic on floating-point values; it only moves their bits
/// between the wire and memory, so the bit pattern is the honest model.
#[derive(Clone, Copy, PartialEq, Eq, Debug, Structural)]
pub struct F32Bits(pub u32);

/// An IEEE-754 binary64 value, held as its raw bit pattern.
#[derive(Clone, Copy, PartialEq, Eq, Debug, Structural)]
pub struct F64Bits(pub u64);

/// A fixed two-component vector.
#[derive(Clone, Copy, PartialEq, Eq, Debug)]
pub struct Vector2<T> {
    pub x: T,
    pub y: T,
}

/// A fixed three-component vector.
#[derive(Clone, Copy, PartialEq, Eq, Debug)]
pub struct Vector3<T> {
    pub x: T,
    pub y: T,
    pub z: T,
}

/// A fixed four-component vector.
#[derive(Clone, Copy, PartialEq, Eq, Debug)]
pub struct Vector4<T> {
    pub x: T,
    pub y: T,
    pub z: T,
    pub w: T,
}

impl<T> Vector2<T> {
    pub fn new(x: T, y: T) -> (v: Vector2<T>)
        ensures
            v == (Vector2 { x, y }),
    {
        Vector2 { x, y }
    }
}

impl<T> Vector3<T> {
    pub fn new(x: T, y: T, z: T) -> (v: Vector3<T>)
        ensures
            v == (Vector3 { x, y, z }),
    {
        Vector3 { x, y, z }
    }
}

impl<T> Vector4<T> {
    pub fn new(x: T, y: T, z: T, w: T) -> (v: Vector4<T>)
        ensures
            v == (Vector4 { x, y, z, w }),
    {
        Vector4 { x, y, z, w }
    }
}

/// A 2x2 matrix of binary32 values, flattened in column-major order.
#[derive(Clone, Copy, PartialEq, Eq, Debug)]
pub struct Matrix2 {
    pub m: [F32Bits; 4],
}

/// A 3x3 matrix of binary32 values, flattened in column-major order.
#[derive(Clone, Copy, PartialEq, Eq, Debug)]
pub struct Matrix3 {
    pub m: [F32Bits; 9],
}

/// A 4x4 matrix of binary32 values, flattened in column-major order.
#[derive(Clone, Copy, PartialEq, Eq, Debug)]
pub struct Matrix4 {
    pub m: [F32Bits; 16],
}

/// A unit quaternion, as the bit patterns of its four components in
/// (x, y, z, w) order. Decoding renormalizes, so a value of this type always
/// holds what the renormalization of some stored quaternion produced.
#[derive(Clone, Copy, PartialEq, Eq, Debug, Structural)]
pub struct UnitQuatBits {
    pub x: F32Bits,
    pub y: F32Bits,
    pub z: F32Bits,
    pub w: F32Bits,
}

/// A unit complex number (a 2D rotation), as the bit patterns of its real
/// and imaginary parts. Decoding renormalizes.
#[derive(Clone, Copy, PartialEq, Eq, Debug, Structural)]
pub struct UnitComplexBits {
    pub re: F32Bits,
    pub im: F32Bits,
}

/// A UUID: sixteen raw bytes.
#[derive(Clone, Copy, PartialEq, Eq, Debug)]
pub struct UuidBytes {
    pub b: [u8; 16],
}

/// The closed union of every serializable field payload. Each variant's wire
/// tag (1 through 49) is a stored-format contract and never changes; see
/// [`tag_of`](crate::field::FieldKindS::tag_of) for the table.
#[derive(Clone, PartialEq, Debug)]
pub enum FieldKind {
    U8(u8),
    I8(i8),
    U16(u16),
    I16(i16),
    U32(u32),
    I32(i32),
    U64(u64),
    I64(i64),
    F32(F32Bits),
    F64(F64Bits),
    Vector3F32(Vector3<F32Bits>),
    UnitQuaternion(UnitQuatBits),
    Matrix4(Matrix4),
    BinaryBlob(Vec<u8>),
    Bool(bool),
    Matrix3(Matrix3),
    Vector2F32(Vector2<F32Bits>),
    Vector4F32(Vector4<F32Bits>),
    Uuid(UuidBytes),
    UnitComplex(UnitComplexBits),
    PodArray { type_id: u8, element_size: u32, bytes: Vec<u8> },
    Matrix2(Matrix2),
    Vector2F64(Vector2<F64Bits>),
    Vector3F64(Vector3<F64Bits>),
    Vector4F64(Vector4<F64Bits>),
    Vector2I8(Vector2<i8>),
    Vector3I8(Vector3<i8>),
    Vector4I8(Vector4<i8>),
    Vector2U8(Vector2<u8>),
    Vector3U8(Vector3<u8>),
    Vector4U8(Vector4<u8>),
    Vector2I16(Vector2<i16>),
    Vector3I16(Vector3<i16>),
    Vector4I16(Vector4<i16>),
    Vector2U16(Vector2<u16>),
    Vector3U16(Vector3<u16>),
    Vector4U16(Vector4<u16>),
    Vector2I32(Vector2<i32>),
    Vector3I32(Vector3<i32>),
    Vector4I32(Vector4<i32>),
    Vector2U32(Vector2<u32>),
    Vector3U32(Vector3<u32>),
    Vector4U32(Vector4<u32>),
    Vector2I64(Vector2<i64>),
    Vector3I64(Vector3<i64>),
    Vector4I64(Vector4<i64>),
    Vector2U64(Vector2<u64>),
    Vector3U64(Vector3<u64>),
    Vector4U64(Vector4<u64>),
}

/// One named field of a node.
#[derive(Clone, PartialEq, Debug)]
pub struct Field {
    pub name: String,
    pub kind: FieldKind,
}

impl Field {
    pub fn new(name: &str, kind: FieldKind) -> (f: Field)
        ensures
            f@.name == name@,
            f@.kind == kind@,
    {
        Field { name: name.to_owned(), kind }
    }
}

/// The bit patterns of a sequence of binary32 values.
pub open spec fn f32_seq(s: Seq<F32Bits>) -> Seq<u32> {
    s.map_values(|b: F32Bits| b.0)
}

/// The mathematical value of a [`FieldKind`]: the same union, with byte
/// payloads as sequences and matrices as their column-major bit sequences.
pub enum FieldKindS {
    U8(u8),
    I8(i8),
    U16(u16),
    I16(i16),
    U32(u32),
    I32(i32),
    U64(u64),
    I64(i64),
    F32(u32),
    F64(u64),
    Vector3F32(Vector3<F32Bits>),
    UnitQuaternion(UnitQuatBits),
    Matrix4(Seq<u32>),
    BinaryBlob(Seq<u8>),
    Bool(bool),
    Matrix3(Seq<u32>),
    Vector2F32(Vector2<F32Bits>),
    Vector4F32(Vector4<F32Bits>),
    Uuid(Seq<u8>),
    UnitComplex(UnitComplexBits),
    PodArray { type_id: u8, element_size: u32, bytes: Seq<u8> },
    Matrix2(Seq<u32>),
    Vector2F64(Vector2<F64Bits>),
    Vector3F64(Vector3<F64Bits>),
    Vector4F64(Vector4<F64Bits>),
    Vector2I8(Vector2<i8>),
    Vector3I8(Vector3<i8>),
    Vector4I8(Vector4<i8>),
    Vector2U8(Vector2<u8>),
    Vector3U8(Vector3<u8>),
    Vector4U8(Vector4<u8>),
    Vector2I16(Vector2<i16>),
    Vector3I16(Vector3<i16>),
    Vector4I16(Vector4<i16>),
    Vector2U16(Vector2<u16>),
    Vector3U16(Vector3<u16>),
    Vector4U16(Vector4<u16>),
    Vector2I32(Vector2<i32>),
    Vector3I32(Vector3<i32>),
    Vector4I32(Vector4<i32>),
    Vector2U32(Vector2<u32>),
    Vector3U32(Vector3<u32>),
    Vector4U32(Vector4<u32>),
    Vector2I64(Vector2<i64>),
    Vector3I64(Vector3<i64>),
    Vector4I64(Vector4<i64>),
    Vector2U64(Vector2<u64>),
    Vector3U64(Vector3<u64>),
    Vector4U64(Vector4<u64>),
}

impl View for FieldKind {
    type V = FieldKindS;

    open spec fn view(&self) -> FieldKindS {
        match self {
            FieldKind::U8(v) => FieldKindS::U8(*v),
            FieldKind::I8(v) => FieldKindS::I8(*v),
            FieldKind::U16(v) => FieldKindS::U16(*v),
            FieldKind::I16(v) => FieldKindS::I16(*v),
            FieldKind::U32(v) => FieldKindS::U32(*v),
            FieldKind::I32(v) => FieldKindS::I32(*v),
            FieldKind::U64(v) => FieldKindS::U64(*v),
            FieldKind::I64(v) => FieldKindS::I64(*v),
            FieldKind::F32(v) => FieldKindS::F32(v.0),
            FieldKind::F64(v) => FieldKindS::F64(v.0),
            FieldKind::Vector3F32(v) => FieldKindS::Vector3F32(*v),
            FieldKind::UnitQuaternion(v) => FieldKindS::UnitQuaternion(*v),
            FieldKind::Matrix4(v) => FieldKindS::Matrix4(f32_seq(v.m@)),
            FieldKind::BinaryBlob(v) => FieldKindS::BinaryBlob(v@),
            FieldKind::Bool(v) => FieldKindS::Bool(*v),
            FieldKind::Matrix3(v) => FieldKindS::Matrix3(f32_seq(v.m@)),
            FieldKind::Vector2F32(v) => FieldKindS::Vector2F32(*v),
            FieldKind::Vector4F32(v) => FieldKindS::Vector4F32(*v),
            FieldKind::Uuid(v) => FieldKindS::Uuid(v.b@),
            FieldKind::UnitComplex(v) => FieldKindS::UnitComplex(*v),
            FieldKind::PodArray { type_id, element_size, bytes } => FieldKindS::PodArray {
                type_id: *type_id,
                element_size: *element_size,
                bytes: bytes@,
            },
            FieldKind::Matrix2(v) => FieldKindS::Matrix2(f32_seq(v.m@)),
            FieldKind::Vector2F64(v) => FieldKindS::Vector2F64(*v),
            FieldKind::Vector3F64(v) => FieldKindS::Vector3F64(*v),
            FieldKind::Vector4F64(v) => FieldKindS::Vector4F64(*v),
            FieldKind::Vector2I8(v) => FieldKindS::Vector2I8(*v),
            FieldKind::Vector3I8(v) => FieldKindS::Vector3I8(*v),
            FieldKind::Vector4I8(v) => FieldKindS::Vector4I8(*v),
            FieldKind::Vector2U8(v) => FieldKindS::Vector2U8(*v),
            FieldKind::Vector3U8(v) => FieldKindS::Vector3U8(*v),
            FieldKind::Vector4U8(v) => FieldKindS::Vector4U8(*v),
            FieldKind::Vector2I16(v) => FieldKindS::Vector2I16(*v),
            FieldKind::Vector3I16(v) => FieldKindS::Vector3I16(*v),
            FieldKind::Vector4I16(v) => FieldKindS::Vector4I16(*v),
            FieldKind::Vector2U16(v) => FieldKindS::Vector2U16(*v),
            FieldKind::Vector3U16(v) => FieldKindS::Vector3U16(*v),
            FieldKind::Vector4U16(v) => FieldKindS::Vector4U16(*v),
            FieldKind::Vector2I32(v) => FieldKindS::Vector2I32(*v),
            FieldKind::Vector3I32(v) => FieldKindS::Vector3I32(*v),
            FieldKind::Vector4I32(v) => FieldKindS::Vector4I32(*v),
            FieldKind::Vector2U32(v) => FieldKindS::Vector2U32(*v),
            FieldKind::Vector3U32(v) => FieldKindS::Vector3U32(*v),
            FieldKind::Vector4U32(v) => FieldKindS::Vector4U32(*v),
            FieldKind::Vector2I64(v) => FieldKindS::Vector2I64(*v),
            FieldKind::Vector3I64(v) => FieldKindS::Vector3I64(*v),
            FieldKind::Vector4I64(v) => FieldKindS::Vector4I64(*v),
            FieldKind::Vector2U64(v) => FieldKindS::Vector2U64(*v),
            FieldKind::Vector3U64(v) => FieldKindS::Vector3U64(*v),
            FieldKind::Vector4U64(v) => FieldKindS::Vector4U64(*v),
        }
    }
}

/// The mathematical value of a [`Field`].
pub struct FieldS {
    pub name: Seq<char>,
    pub kind: FieldKindS,
}

impl View for Field {
    type V = FieldS;

    open spec fn view(&self) -> FieldS {
        FieldS { name: self.name@, kind: self.kind@ }
    }
}

/// The views of a sequence of fields.
pub open spec fn fields_view(s: Seq<Field>) -> Seq<FieldS> {
    s.map_values(|f: Field| f@)
}

impl FieldKindS {
    /// The wire tag table: the single source of truth shared by both
    /// encodings (tags 1 through 49).
    pub open spec fn tag_of(self) -> u8 {
        match self {
            FieldKindS::U8(_) => 1,
            FieldKindS::I8(_) => 2,
            FieldKindS::U16(_) => 3,
            FieldKindS::I16(_) => 4,
            FieldKindS::U32(_) => 5,
            FieldKindS::I32(_) => 6,
            FieldKindS::U64(_) => 7,
            FieldKindS::I64(_) => 8,
            FieldKindS::F32(_) => 9,
            FieldKindS::F64(_) => 10,
            FieldKindS::Vector3F32(_) => 11,
            FieldKindS::UnitQuaternion(_) => 12,
            FieldKindS::Matrix4(_) => 13,
            FieldKindS::BinaryBlob(_) => 14,
            FieldKindS::Bool(_) => 15,
            FieldKindS::Matrix3(_) => 16,
            FieldKindS::Vector2F32(_) => 17,
            FieldKindS::Vector4F32(_) => 18,
            FieldKindS::Uuid(_) => 19,
            FieldKindS::UnitComplex(_) => 20,
            FieldKindS::PodArray { .. } => 21,
            FieldKindS::Matrix2(_) => 22,
            FieldKindS::Vector2F64(_) => 23,
            FieldKindS::Vector3F64(_) => 24,
            FieldKindS::Vector4F64(_) => 25,
            FieldKindS::Vector2I8(_) => 26,
            FieldKindS::Vector3I8(_) => 27,
            FieldKindS::Vector4I8(_) => 28,
            FieldKindS::Vector2U8(_) => 29,
            FieldKindS::Vector3U8(_) => 30,
            FieldKindS::Vector4U8(_) => 31,
            FieldKindS::Vector2I16(_) => 32,
            FieldKindS::Vector3I16(_) => 33,
            FieldKindS::Vector4I16(_) => 34,
            FieldKindS::Vector2U16(_) => 35,
            FieldKindS::Vector3U16(_) => 36,
            FieldKindS::Vector4U16(_) => 37,
            FieldKindS::Vector2I32(_) => 38,
            FieldKindS::Vector3I32(_) => 39,
            FieldKindS::Vector4I32(_) => 40,
            FieldKindS::Vector2U32(_) => 41,
            FieldKindS::Vector3U32(_) => 42,
            FieldKindS::Vector4U32(_) => 43,
            FieldKindS::Vector2I64(_) => 44,
            FieldKindS::Vector3I64(_) => 45,
            FieldKindS::Vector4I64(_) => 46,
            FieldKindS::Vector2U64(_) => 47,
            FieldKindS::Vector3U64(_) => 48,
            FieldKindS::Vector4U64(_) => 49,
        }
    }
}

} // verus!
