//! The encode-side mirror of the binary format, as a contract: spec
//! functions saying exactly which bytes a conforming encoder emits for a
//! value or a tree, and proofs that the reader decodes them back.

use vstd::prelude::*;

use crate::binary::{
    bp_bytes, bp_f32_seq, bp_field, bp_fields, bp_name, bp_node, bp_nodes, bp_payload, bp_stream,
    bp_u16, bp_u32, bp_u64, bp_u8, bp_vec2, bp_vec3, bp_vec4, magic_bytes, transpose2, transpose3,
    transpose4, WireElem,
};
use crate::error::ErrS;
use crate::field::{FieldKindS, FieldS, Vector2, Vector3, Vector4};
use crate::trusted::{complex_norm_of, quat_norm_of};
use crate::visitor::TreeS;
use vstd::bytes::{
    lemma_auto_spec_u16_to_from_le_bytes, lemma_auto_spec_u32_to_from_le_bytes,
    lemma_auto_spec_u64_to_from_le_bytes, spec_u16_to_le_bytes, spec_u32_to_le_bytes,
    spec_u64_to_le_bytes,
};
use vstd::utf8::{encode_utf8, encode_utf8_decode_utf8, encode_utf8_valid_utf8};

verus! {

/// A length-prefixed UTF-8 name on the binary wire.
pub open spec fn be_name(name: Seq<char>) -> Seq<u8> {
    spec_u32_to_le_bytes(encode_utf8(name).len() as u32) + encode_utf8(name)
}

/// The name's UTF-8 form fits the 32-bit length prefix.
pub open spec fn name_encodable(name: Seq<char>) -> bool {
    encode_utf8(name).len() < 0x1_0000_0000
}

pub open spec fn be_vec2<T: WireElem>(v: Vector2<T>) -> Seq<u8> {
    v.x.be_el() + v.y.be_el()
}

pub open spec fn be_vec3<T: WireElem>(v: Vector3<T>) -> Seq<u8> {
    v.x.be_el() + v.y.be_el() + v.z.be_el()
}

pub open spec fn be_vec4<T: WireElem>(v: Vector4<T>) -> Seq<u8> {
    v.x.be_el() + v.y.be_el() + v.z.be_el() + v.w.be_el()
}

/// Consecutive binary32 bit patterns.
pub open spec fn be_f32_seq(ws: Seq<u32>) -> Seq<u8>
    decreases ws.len(),
{
    if ws.len() == 0 {
        Seq::empty()
    } else {
        spec_u32_to_le_bytes(ws[0]) + be_f32_seq(ws.drop_first())
    }
}

/// The tag-specific payload a conforming binary encoder emits.
pub open spec fn be_payload(k: FieldKindS) -> Seq<u8> {
    match k {
        FieldKindS::U8(v) => seq![v],
        FieldKindS::I8(v) => seq![v as u8],
        FieldKindS::U16(v) => spec_u16_to_le_bytes(v),
        FieldKindS::I16(v) => spec_u16_to_le_bytes(v as u16),
        FieldKindS::U32(v) => spec_u32_to_le_bytes(v),
        FieldKindS::I32(v) => spec_u32_to_le_bytes(v as u32),
        FieldKindS::U64(v) => spec_u64_to_le_bytes(v),
        FieldKindS::I64(v) => spec_u64_to_le_bytes(v as u64),
        FieldKindS::F32(b) => spec_u32_to_le_bytes(b),
        FieldKindS::F64(b) => spec_u64_to_le_bytes(b),
        FieldKindS::Vector3F32(v) => be_vec3(v),
        FieldKindS::UnitQuaternion(q) => be_f32_seq(seq![q.x.0, q.y.0, q.z.0, q.w.0]),
        FieldKindS::Matrix4(m) => be_f32_seq(transpose4(m)),
        FieldKindS::BinaryBlob(b) => spec_u32_to_le_bytes(b.len() as u32) + b,
        FieldKindS::Bool(v) => seq![
            if v {
                1u8
            } else {
                0u8
            },
        ],
        FieldKindS::Matrix3(m) => be_f32_seq(transpose3(m)),
        FieldKindS::Vector2F32(v) => be_vec2(v),
        FieldKindS::Vector4F32(v) => be_vec4(v),
        FieldKindS::Uuid(b) => b,
        FieldKindS::UnitComplex(c) => be_f32_seq(seq![c.re.0, c.im.0]),
        FieldKindS::PodArray { type_id, element_size, bytes } => seq![type_id]
            + spec_u32_to_le_bytes(element_size) + spec_u64_to_le_bytes(bytes.len() as u64)
            + bytes,
        FieldKindS::Matrix2(m) => be_f32_seq(transpose2(m)),
        FieldKindS::Vector2F64(v) => be_vec2(v),
        FieldKindS::Vector3F64(v) => be_vec3(v),
        FieldKindS::Vector4F64(v) => be_vec4(v),
        FieldKindS::Vector2I8(v) => be_vec2(v),
        FieldKindS::Vector3I8(v) => be_vec3(v),
        FieldKindS::Vector4I8(v) => be_vec4(v),
        FieldKindS::Vector2U8(v) => be_vec2(v),
        FieldKindS::Vector3U8(v) => be_vec3(v),
        FieldKindS::Vector4U8(v) => be_vec4(v),
        FieldKindS::Vector2I16(v) => be_vec2(v),
        FieldKindS::Vector3I16(v) => be_vec3(v),
        FieldKindS::Vector4I16(v) => be_vec4(v),
        FieldKindS::Vector2U16(v) => be_vec2(v),
        FieldKindS::Vector3U16(v) => be_vec3(v),
        FieldKindS::Vector4U16(v) => be_vec4(v),
        FieldKindS::Vector2I32(v) => be_vec2(v),
        FieldKindS::Vector3I32(v) => be_vec3(v),
        FieldKindS::Vector4I32(v) => be_vec4(v),
        FieldKindS::Vector2U32(v) => be_vec2(v),
        FieldKindS::Vector3U32(v) => be_vec3(v),
        FieldKindS::Vector4U32(v) => be_vec4(v),
        FieldKindS::Vector2I64(v) => be_vec2(v),
        FieldKindS::Vector3I64(v) => be_vec3(v),
        FieldKindS::Vector4I64(v) => be_vec4(v),
        FieldKindS::Vector2U64(v) => be_vec2(v),
        FieldKindS::Vector3U64(v) => be_vec3(v),
        FieldKindS::Vector4U64(v) => be_vec4(v),
    }
}

/// The payload's variable parts fit their length prefixes and the fixed
/// shapes have their fixed sizes.
pub open spec fn kind_encodable(k: FieldKindS) -> bool {
    match k {
        FieldKindS::BinaryBlob(b) => b.len() < 0x1_0000_0000,
        FieldKindS::PodArray { bytes, .. } => bytes.len() < 0x1_0000_0000_0000_0000,
        FieldKindS::Uuid(b) => b.len() == 16,
        FieldKindS::Matrix4(m) => m.len() == 16,
        FieldKindS::Matrix3(m) => m.len() == 9,
        FieldKindS::Matrix2(m) => m.len() == 4,
        _ => true,
    }
}

/// Rotations hold exactly what renormalization produces: decoding
/// renormalizes, so only such values survive a round trip bit for bit.
pub open spec fn kind_normalized(k: FieldKindS) -> bool {
    match k {
        FieldKindS::UnitQuaternion(q) => quat_norm_of(q.x.0, q.y.0, q.z.0, q.w.0) == (
            q.x.0,
            q.y.0,
            q.z.0,
            q.w.0,
        ),
        FieldKindS::UnitComplex(c) => complex_norm_of(c.re.0, c.im.0) == (c.re.0, c.im.0),
        _ => true,
    }
}

/// One binary field as a conforming encoder emits it.
pub open spec fn be_field(f: FieldS) -> Seq<u8> {
    be_name(f.name) + seq![f.kind.tag_of()] + be_payload(f.kind)
}

pub open spec fn field_encodable(f: FieldS) -> bool {
    name_encodable(f.name) && kind_encodable(f.kind)
}

pub open spec fn field_normalized(f: FieldS) -> bool {
    kind_normalized(f.kind)
}

/// The fields of one node, from index `k` on.
pub open spec fn be_fields(fs: Seq<FieldS>, k: int) -> Seq<u8>
    decreases fs.len() - k,
{
    if k < 0 || k >= fs.len() {
        Seq::empty()
    } else {
        be_field(fs[k]) + be_fields(fs, k + 1)
    }
}

/// One binary node and its whole subtree.
pub open spec fn be_node(t: TreeS) -> Seq<u8>
    decreases t, 0int,
{
    be_name(t.name) + spec_u32_to_le_bytes(t.fields.len() as u32) + be_fields(t.fields, 0)
        + spec_u32_to_le_bytes(t.children.len() as u32) + be_nodes(t.children, 0)
}

/// The subtrees of one node, from index `k` on.
pub open spec fn be_nodes(ts: Seq<TreeS>, k: int) -> Seq<u8>
    decreases ts, ts.len() - k,
{
    if k < 0 || k >= ts.len() {
        Seq::empty()
    } else {
        be_node(ts[k]) + be_nodes(ts, k + 1)
    }
}

/// A whole binary stream.
pub open spec fn be_stream(t: TreeS) -> Seq<u8> {
    magic_bytes() + be_node(t)
}

/// Every count and payload in the tree fits its wire-format prefix.
pub open spec fn tree_encodable(t: TreeS) -> bool
    decreases t, 0int,
{
    &&& name_encodable(t.name)
    &&& t.fields.len() < 0x1_0000_0000
    &&& forall|k: int| 0 <= k < t.fields.len() ==> field_encodable(#[trigger] t.fields[k])
    &&& t.children.len() < 0x1_0000_0000
    &&& trees_encodable(t.children, 0)
}

pub open spec fn trees_encodable(ts: Seq<TreeS>, k: int) -> bool
    decreases ts, ts.len() - k,
{
    if k < 0 || k >= ts.len() {
        true
    } else {
        tree_encodable(ts[k]) && trees_encodable(ts, k + 1)
    }
}

/// Every rotation in the tree holds what renormalization produces.
pub open spec fn tree_normalized(t: TreeS) -> bool
    decreases t, 0int,
{
    &&& forall|k: int| 0 <= k < t.fields.len() ==> field_normalized(#[trigger] t.fields[k])
    &&& trees_normalized(t.children, 0)
}

pub open spec fn trees_normalized(ts: Seq<TreeS>, k: int) -> bool
    decreases ts, ts.len() - k,
{
    if k < 0 || k >= ts.len() {
        true
    } else {
        tree_normalized(ts[k]) && trees_normalized(ts, k + 1)
    }
}

// ------------------------------------------------------------------
// Decoding inverts encoding.
// ------------------------------------------------------------------
/// Splitting a window that holds a concatenation.
proof fn lemma_split(s: Seq<u8>, i: int, a: Seq<u8>, b: Seq<u8>)
    requires
        0 <= i,
        i + a.len() + b.len() <= s.len(),
        s.subrange(i, i + a.len() + b.len()) == a + b,
    ensures
        s.subrange(i, i + a.len() as int) == a,
        s.subrange(i + a.len() as int, i + a.len() + b.len()) == b,
{
    assert forall|k: int| 0 <= k < a.len() implies s.subrange(i, i + a.len() as int)[k]
        == a[k] by {
        assert(s.subrange(i, i + a.len() + b.len())[k] == (a + b)[k]);
    }
    assert(s.subrange(i, i + a.len() as int) =~= a);
    assert forall|k: int| 0 <= k < b.len() implies s.subrange(
        i + a.len() as int,
        i + a.len() + b.len(),
    )[k] == b[k] by {
        assert(s.subrange(i, i + a.len() + b.len())[a.len() + k] == (a + b)[a.len() + k]);
        assert((a + b)[a.len() + k] == b[k]);
        assert(s.subrange(i + a.len() as int, i + a.len() + b.len())[k] == s[i + a.len() + k]);
        assert(s.subrange(i, i + a.len() + b.len())[a.len() + k] == s[i + a.len() + k]);
    }
    assert(s.subrange(i + a.len() as int, i + a.len() + b.len()) =~= b);
}

proof fn lemma_rt_u8(s: Seq<u8>, i: int, v: u8)
    requires
        0 <= i,
        i + 1 <= s.len(),
        s.subrange(i, i + 1) == seq![v],
    ensures
        bp_u8(s, i) == Ok::<(u8, int), ErrS>((v, i + 1)),
{
    assert(s[i] == s.subrange(i, i + 1)[0]);
}

proof fn lemma_rt_u16(s: Seq<u8>, i: int, v: u16)
    requires
        0 <= i,
        i + spec_u16_to_le_bytes(v).len() <= s.len(),
        s.subrange(i, i + spec_u16_to_le_bytes(v).len() as int) == spec_u16_to_le_bytes(v),
    ensures
        bp_u16(s, i) == Ok::<(u16, int), ErrS>((v, i + 2)),
{
    lemma_auto_spec_u16_to_from_le_bytes();
}

proof fn lemma_rt_u32(s: Seq<u8>, i: int, v: u32)
    requires
        0 <= i,
        i + spec_u32_to_le_bytes(v).len() <= s.len(),
        s.subrange(i, i + spec_u32_to_le_bytes(v).len() as int) == spec_u32_to_le_bytes(v),
    ensures
        bp_u32(s, i) == Ok::<(u32, int), ErrS>((v, i + 4)),
{
    lemma_auto_spec_u32_to_from_le_bytes();
}

proof fn lemma_rt_u64(s: Seq<u8>, i: int, v: u64)
    requires
        0 <= i,
        i + spec_u64_to_le_bytes(v).len() <= s.len(),
        s.subrange(i, i + spec_u64_to_le_bytes(v).len() as int) == spec_u64_to_le_bytes(v),
    ensures
        bp_u64(s, i) == Ok::<(u64, int), ErrS>((v, i + 8)),
{
    lemma_auto_spec_u64_to_from_le_bytes();
}

proof fn lemma_rt_name(s: Seq<u8>, i: int, name: Seq<char>)
    requires
        0 <= i,
        name_encodable(name),
        i + be_name(name).len() <= s.len(),
        s.subrange(i, i + be_name(name).len() as int) == be_name(name),
    ensures
        bp_name(s, i) == Ok::<(Seq<char>, int), ErrS>((name, i + be_name(name).len())),
{
    let nb = encode_utf8(name);
    let lenb = spec_u32_to_le_bytes(nb.len() as u32);
    lemma_auto_spec_u32_to_from_le_bytes();
    lemma_split(s, i, lenb, nb);
    lemma_rt_u32(s, i, nb.len() as u32);
    assert(bp_bytes(s, i + 4, nb.len() as int) == Ok::<(Seq<u8>, int), ErrS>(
        (nb, i + 4 + nb.len()),
    ));
    encode_utf8_valid_utf8(name);
    encode_utf8_decode_utf8(name);
}

proof fn lemma_rt_vec2<T: WireElem>(s: Seq<u8>, i: int, v: Vector2<T>)
    requires
        0 <= i,
        i + be_vec2(v).len() <= s.len(),
        s.subrange(i, i + be_vec2(v).len() as int) == be_vec2(v),
    ensures
        bp_vec2::<T>(s, i) == Ok::<(Vector2<T>, int), ErrS>((v, i + be_vec2(v).len())),
{
    lemma_split(s, i, v.x.be_el(), v.y.be_el());
    v.x.lemma_el_rt(s, i);
    v.y.lemma_el_rt(s, i + v.x.be_el().len() as int);
}

proof fn lemma_rt_vec3<T: WireElem>(s: Seq<u8>, i: int, v: Vector3<T>)
    requires
        0 <= i,
        i + be_vec3(v).len() <= s.len(),
        s.subrange(i, i + be_vec3(v).len() as int) == be_vec3(v),
    ensures
        bp_vec3::<T>(s, i) == Ok::<(Vector3<T>, int), ErrS>((v, i + be_vec3(v).len())),
{
    assert(be_vec3(v) =~= v.x.be_el() + (v.y.be_el() + v.z.be_el()));
    lemma_split(s, i, v.x.be_el(), v.y.be_el() + v.z.be_el());
    v.x.lemma_el_rt(s, i);
    let i1 = i + v.x.be_el().len() as int;
    lemma_split(s, i1, v.y.be_el(), v.z.be_el());
    v.y.lemma_el_rt(s, i1);
    v.z.lemma_el_rt(s, i1 + v.y.be_el().len() as int);
}

proof fn lemma_rt_vec4<T: WireElem>(s: Seq<u8>, i: int, v: Vector4<T>)
    requires
        0 <= i,
        i + be_vec4(v).len() <= s.len(),
        s.subrange(i, i + be_vec4(v).len() as int) == be_vec4(v),
    ensures
        bp_vec4::<T>(s, i) == Ok::<(Vector4<T>, int), ErrS>((v, i + be_vec4(v).len())),
{
    assert(be_vec4(v) =~= v.x.be_el() + (v.y.be_el() + (v.z.be_el() + v.w.be_el())));
    lemma_split(s, i, v.x.be_el(), v.y.be_el() + (v.z.be_el() + v.w.be_el()));
    v.x.lemma_el_rt(s, i);
    let i1 = i + v.x.be_el().len() as int;
    lemma_split(s, i1, v.y.be_el(), v.z.be_el() + v.w.be_el());
    v.y.lemma_el_rt(s, i1);
    let i2 = i1 + v.y.be_el().len() as int;
    lemma_split(s, i2, v.z.be_el(), v.w.be_el());
    v.z.lemma_el_rt(s, i2);
    v.w.lemma_el_rt(s, i2 + v.z.be_el().len() as int);
}

proof fn lemma_be_f32_seq_len(ws: Seq<u32>)
    ensures
        be_f32_seq(ws).len() == 4 * ws.len(),
    decreases ws.len(),
{
    if ws.len() > 0 {
        lemma_auto_spec_u32_to_from_le_bytes();
        lemma_be_f32_seq_len(ws.drop_first());
    }
}

proof fn lemma_rt_f32_seq(s: Seq<u8>, i: int, ws: Seq<u32>)
    requires
        0 <= i,
        i + be_f32_seq(ws).len() <= s.len(),
        s.subrange(i, i + be_f32_seq(ws).len() as int) == be_f32_seq(ws),
    ensures
        bp_f32_seq(s, i, ws.len() as int) == Ok::<(Seq<u32>, int), ErrS>(
            (ws, i + be_f32_seq(ws).len()),
        ),
    decreases ws.len(),
{
    if ws.len() == 0 {
        assert(bp_f32_seq(s, i, 0) == Ok::<(Seq<u32>, int), ErrS>((Seq::empty(), i)));
        assert(ws =~= Seq::<u32>::empty());
    } else {
        let head = spec_u32_to_le_bytes(ws[0]);
        let tail = be_f32_seq(ws.drop_first());
        lemma_auto_spec_u32_to_from_le_bytes();
        lemma_split(s, i, head, tail);
        lemma_rt_u32(s, i, ws[0]);
        lemma_rt_f32_seq(s, i + 4, ws.drop_first());
        assert(seq![ws[0]] + ws.drop_first() =~= ws);
        lemma_be_f32_seq_len(ws);
    }
}

proof fn lemma_transpose4_involutes(m: Seq<u32>)
    requires
        m.len() == 16,
    ensures
        transpose4(transpose4(m)) == m,
{
    assert(transpose4(transpose4(m)) =~= m);
}

proof fn lemma_transpose3_involutes(m: Seq<u32>)
    requires
        m.len() == 9,
    ensures
        transpose3(transpose3(m)) == m,
{
    assert(transpose3(transpose3(m)) =~= m);
}

proof fn lemma_transpose2_involutes(m: Seq<u32>)
    requires
        m.len() == 4,
    ensures
        transpose2(transpose2(m)) == m,
{
    assert(transpose2(transpose2(m)) =~= m);
}

/// Reading an encoded payload back yields the value.
#[verifier::rlimit(100)]
proof fn lemma_rt_payload(k: FieldKindS, s: Seq<u8>, i: int)
    requires
        kind_encodable(k),
        kind_normalized(k),
        0 <= i,
        i + be_payload(k).len() <= s.len(),
        s.subrange(i, i + be_payload(k).len() as int) == be_payload(k),
    ensures
        bp_payload(k.tag_of(), s, i) == Ok::<(FieldKindS, int), ErrS>(
            (k, i + be_payload(k).len()),
        ),
{
    lemma_auto_spec_u16_to_from_le_bytes();
    lemma_auto_spec_u32_to_from_le_bytes();
    lemma_auto_spec_u64_to_from_le_bytes();
    match k {
        FieldKindS::U8(v) => {
            lemma_rt_u8(s, i, v);
        },
        FieldKindS::I8(v) => {
            lemma_rt_u8(s, i, v as u8);
            assert((v as u8) as i8 == v) by (bit_vector);
        },
        FieldKindS::U16(v) => {
            lemma_rt_u16(s, i, v);
        },
        FieldKindS::I16(v) => {
            lemma_rt_u16(s, i, v as u16);
            assert((v as u16) as i16 == v) by (bit_vector);
        },
        FieldKindS::U32(v) => {
            lemma_rt_u32(s, i, v);
        },
        FieldKindS::I32(v) => {
            lemma_rt_u32(s, i, v as u32);
            assert((v as u32) as i32 == v) by (bit_vector);
        },
        FieldKindS::U64(v) => {
            lemma_rt_u64(s, i, v);
        },
        FieldKindS::I64(v) => {
            lemma_rt_u64(s, i, v as u64);
            assert((v as u64) as i64 == v) by (bit_vector);
        },
        FieldKindS::F32(b) => {
            lemma_rt_u32(s, i, b);
        },
        FieldKindS::F64(b) => {
            lemma_rt_u64(s, i, b);
        },
        FieldKindS::Bool(v) => {
            lemma_rt_u8(
                s,
                i,
                if v {
                    1u8
                } else {
                    0u8
                },
            );
        },
        FieldKindS::Vector3F32(v) => {
            lemma_rt_vec3(s, i, v);
        },
        FieldKindS::UnitQuaternion(q) => {
            let ws = seq![q.x.0, q.y.0, q.z.0, q.w.0];
            lemma_rt_f32_seq(s, i, ws);
        },
        FieldKindS::Matrix4(m) => {
            lemma_rt_f32_seq(s, i, transpose4(m));
            lemma_transpose4_involutes(m);
        },
        FieldKindS::BinaryBlob(b) => {
            lemma_split(s, i, spec_u32_to_le_bytes(b.len() as u32), b);
            lemma_rt_u32(s, i, b.len() as u32);
        },
        FieldKindS::Matrix3(m) => {
            lemma_rt_f32_seq(s, i, transpose3(m));
            lemma_transpose3_involutes(m);
        },
        FieldKindS::Vector2F32(v) => {
            lemma_rt_vec2(s, i, v);
        },
        FieldKindS::Vector4F32(v) => {
            lemma_rt_vec4(s, i, v);
        },
        FieldKindS::Uuid(b) => {
            assert(bp_bytes(s, i, 16) == Ok::<(Seq<u8>, int), ErrS>((b, i + 16)));
        },
        FieldKindS::UnitComplex(c) => {
            let ws = seq![c.re.0, c.im.0];
            lemma_rt_f32_seq(s, i, ws);
        },
        FieldKindS::PodArray { type_id, element_size, bytes } => {
            let a0 = seq![type_id];
            let a1 = spec_u32_to_le_bytes(element_size);
            let a2 = spec_u64_to_le_bytes(bytes.len() as u64);
            assert(be_payload(k) =~= a0 + (a1 + (a2 + bytes)));
            lemma_split(s, i, a0, a1 + (a2 + bytes));
            lemma_rt_u8(s, i, type_id);
            lemma_split(s, i + 1, a1, a2 + bytes);
            lemma_rt_u32(s, i + 1, element_size);
            lemma_split(s, i + 5, a2, bytes);
            lemma_rt_u64(s, i + 5, bytes.len() as u64);
        },
        FieldKindS::Matrix2(m) => {
            lemma_rt_f32_seq(s, i, transpose2(m));
            lemma_transpose2_involutes(m);
        },
        FieldKindS::Vector2F64(v) => {
            lemma_rt_vec2(s, i, v);
        },
        FieldKindS::Vector3F64(v) => {
            lemma_rt_vec3(s, i, v);
        },
        FieldKindS::Vector4F64(v) => {
            lemma_rt_vec4(s, i, v);
        },
        FieldKindS::Vector2I8(v) => {
            lemma_rt_vec2(s, i, v);
        },
        FieldKindS::Vector3I8(v) => {
            lemma_rt_vec3(s, i, v);
        },
        FieldKindS::Vector4I8(v) => {
            lemma_rt_vec4(s, i, v);
        },
        FieldKindS::Vector2U8(v) => {
            lemma_rt_vec2(s, i, v);
        },
        FieldKindS::Vector3U8(v) => {
            lemma_rt_vec3(s, i, v);
        },
        FieldKindS::Vector4U8(v) => {
            lemma_rt_vec4(s, i, v);
        },
        FieldKindS::Vector2I16(v) => {
            lemma_rt_vec2(s, i, v);
        },
        FieldKindS::Vector3I16(v) => {
            lemma_rt_vec3(s, i, v);
        },
        FieldKindS::Vector4I16(v) => {
            lemma_rt_vec4(s, i, v);
        },
        FieldKindS::Vector2U16(v) => {
            lemma_rt_vec2(s, i, v);
        },
        FieldKindS::Vector3U16(v) => {
            lemma_rt_vec3(s, i, v);
        },
        FieldKindS::Vector4U16(v) => {
            lemma_rt_vec4(s, i, v);
        },
        FieldKindS::Vector2I32(v) => {
            lemma_rt_vec2(s, i, v);
        },
        FieldKindS::Vector3I32(v) => {
            lemma_rt_vec3(s, i, v);
        },
        FieldKindS::Vector4I32(v) => {
            lemma_rt_vec4(s, i, v);
        },
        FieldKindS::Vector2U32(v) => {
            lemma_rt_vec2(s, i, v);
        },
        FieldKindS::Vector3U32(v) => {
            lemma_rt_vec3(s, i, v);
        },
        FieldKindS::Vector4U32(v) => {
            lemma_rt_vec4(s, i, v);
        },
        FieldKindS::Vector2I64(v) => {
            lemma_rt_vec2(s, i, v);
        },
        FieldKindS::Vector3I64(v) => {
            lemma_rt_vec3(s, i, v);
        },
        FieldKindS::Vector4I64(v) => {
            lemma_rt_vec4(s, i, v);
        },
        FieldKindS::Vector2U64(v) => {
            lemma_rt_vec2(s, i, v);
        },
        FieldKindS::Vector3U64(v) => {
            lemma_rt_vec3(s, i, v);
        },
        FieldKindS::Vector4U64(v) => {
            lemma_rt_vec4(s, i, v);
        },
    }
}

/// Reading an encoded field back yields the field.
proof fn lemma_rt_field(s: Seq<u8>, i: int, f: FieldS)
    requires
        field_encodable(f),
        field_normalized(f),
        0 <= i,
        i + be_field(f).len() <= s.len(),
        s.subrange(i, i + be_field(f).len() as int) == be_field(f),
    ensures
        bp_field(s, i) == Ok::<(FieldS, int), ErrS>((f, i + be_field(f).len())),
{
    let nb = be_name(f.name);
    let tagb = seq![f.kind.tag_of()];
    let pb = be_payload(f.kind);
    assert(be_field(f) =~= nb + (tagb + pb));
    lemma_split(s, i, nb, tagb + pb);
    lemma_rt_name(s, i, f.name);
    let i1 = i + nb.len() as int;
    lemma_split(s, i1, tagb, pb);
    lemma_rt_u8(s, i1, f.kind.tag_of());
    lemma_rt_payload(f.kind, s, i1 + 1);
    assert(f =~= (FieldS { name: f.name, kind: f.kind }));
}

/// Reading `fs.len() - k` encoded fields back yields exactly them.
proof fn lemma_rt_fields(s: Seq<u8>, i: int, fs: Seq<FieldS>, k: int)
    requires
        0 <= k <= fs.len(),
        forall|j: int| 0 <= j < fs.len() ==> field_encodable(#[trigger] fs[j]),
        forall|j: int| 0 <= j < fs.len() ==> field_normalized(#[trigger] fs[j]),
        0 <= i,
        i + be_fields(fs, k).len() <= s.len(),
        s.subrange(i, i + be_fields(fs, k).len() as int) == be_fields(fs, k),
    ensures
        bp_fields(s, i, fs.len() - k) == Ok::<(Seq<FieldS>, int), ErrS>(
            (fs.skip(k), i + be_fields(fs, k).len()),
        ),
    decreases fs.len() - k,
{
    if k == fs.len() {
        assert(fs.skip(k) =~= Seq::<FieldS>::empty());
    } else {
        let head = be_field(fs[k]);
        let tail = be_fields(fs, k + 1);
        lemma_split(s, i, head, tail);
        lemma_rt_field(s, i, fs[k]);
        lemma_rt_fields(s, i + head.len() as int, fs, k + 1);
        assert(seq![fs[k]] + fs.skip(k + 1) =~= fs.skip(k));
    }
}

/// Reading an encoded node back yields its tree.
#[verifier::rlimit(100)]
proof fn lemma_rt_node(s: Seq<u8>, i: int, t: TreeS)
    requires
        tree_encodable(t),
        tree_normalized(t),
        0 <= i,
        i + be_node(t).len() <= s.len(),
        s.subrange(i, i + be_node(t).len() as int) == be_node(t),
    ensures
        bp_node(s, i) == Ok::<(TreeS, int), ErrS>((t, i + be_node(t).len())),
    decreases t, 0int,
{
    let nb = be_name(t.name);
    let fcb = spec_u32_to_le_bytes(t.fields.len() as u32);
    let fsb = be_fields(t.fields, 0);
    let ccb = spec_u32_to_le_bytes(t.children.len() as u32);
    let tsb = be_nodes(t.children, 0);
    lemma_auto_spec_u32_to_from_le_bytes();
    assert(be_node(t) =~= nb + (fcb + (fsb + (ccb + tsb))));
    lemma_split(s, i, nb, fcb + (fsb + (ccb + tsb)));
    lemma_rt_name(s, i, t.name);
    let i1 = i + nb.len() as int;
    lemma_split(s, i1, fcb, fsb + (ccb + tsb));
    lemma_rt_u32(s, i1, t.fields.len() as u32);
    let i2 = i1 + 4;
    lemma_split(s, i2, fsb, ccb + tsb);
    lemma_rt_fields(s, i2, t.fields, 0);
    assert(t.fields.skip(0) =~= t.fields);
    let i3 = i2 + fsb.len() as int;
    lemma_split(s, i3, ccb, tsb);
    lemma_rt_u32(s, i3, t.children.len() as u32);
    let i4 = i3 + 4;
    lemma_rt_nodes(s, i4, t.children, 0);
    assert(t.children.skip(0) =~= t.children);
    assert(t =~= (TreeS { name: t.name, fields: t.fields, children: t.children }));
}

/// Reading `ts.len() - k` encoded subtrees back yields exactly them.
proof fn lemma_rt_nodes(s: Seq<u8>, i: int, ts: Seq<TreeS>, k: int)
    requires
        0 <= k <= ts.len(),
        trees_encodable(ts, k),
        trees_normalized(ts, k),
        0 <= i,
        i + be_nodes(ts, k).len() <= s.len(),
        s.subrange(i, i + be_nodes(ts, k).len() as int) == be_nodes(ts, k),
    ensures
        bp_nodes(s, i, ts.len() - k) == Ok::<(Seq<TreeS>, int), ErrS>(
            (ts.skip(k), i + be_nodes(ts, k).len()),
        ),
    decreases ts, ts.len() - k,
{
    if k == ts.len() {
        assert(ts.skip(k) =~= Seq::<TreeS>::empty());
    } else {
        let head = be_node(ts[k]);
        let tail = be_nodes(ts, k + 1);
        lemma_split(s, i, head, tail);
        lemma_rt_node(s, i, ts[k]);
        lemma_rt_nodes(s, i + head.len() as int, ts, k + 1);
        assert(seq![ts[k]] + ts.skip(k + 1) =~= ts.skip(k));
    }
}

/// Decoding inverts encoding, field by field: a field that fits the wire
/// format and whose rotations hold renormalized values decodes back to
/// itself from its own encoding.
pub proof fn lemma_binary_field_round_trip(f: FieldS)
    requires
        field_encodable(f),
        field_normalized(f),
    ensures
        bp_field(be_field(f), 0) == Ok::<(FieldS, int), ErrS>((f, be_field(f).len() as int)),
{
    let s = be_field(f);
    assert(s.subrange(0, s.len() as int) =~= s);
    lemma_rt_field(s, 0, f);
}

/// Decoding inverts encoding for whole streams: any tree that fits the wire
/// format, with renormalized rotations, is reproduced exactly — names,
/// field sequences and child structure — by decoding its own encoding.
/// Together with the readers' contracts, the visitor built from such a
/// stream holds this very tree, its root parentless and every child's
/// parent pointing back at its node.
pub proof fn lemma_binary_stream_round_trip(t: TreeS)
    requires
        tree_encodable(t),
        tree_normalized(t),
    ensures
        bp_stream(be_stream(t)) == Ok::<(TreeS, int), ErrS>((t, be_stream(t).len() as int)),
{
    let s = be_stream(t);
    assert(s.subrange(0, s.len() as int) =~= s);
    lemma_split(s, 0, magic_bytes(), be_node(t));
    assert(s.len() >= 4);
    assert(s.subrange(0, 4) == magic_bytes());
    lemma_rt_node(s, 4, t);
}

} // verus!
