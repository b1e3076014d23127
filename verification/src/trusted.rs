//! The crate's trusted boundary: every call into an outside crate, and into
//! the few std functions vstd gives no specification, lives here behind a
//! wrapper whose contract Verus believes.

use vstd::prelude::*;

use base64::Engine;
use byteorder::{ByteOrder, LittleEndian};
use vstd::utf8::{decode_utf8, encode_utf8, valid_utf8};

verus! {

/// Relies on `String::from_utf8`: it succeeds exactly on valid UTF-8 and
/// decodes it; vstd's `valid_utf8`/`decode_utf8` are its specification.
#[verifier::external_body]
pub(crate) fn string_from_utf8(bytes: Vec<u8>) -> (r: Option<String>)
    ensures
        match r {
            Some(s) => valid_utf8(bytes@) && s@ == decode_utf8(bytes@),
            None => !valid_utf8(bytes@),
        },
{
    String::from_utf8(bytes).ok()
}

/// What base64's standard-alphabet decoder returns for a text, given as the
/// text's bytes: the decoded payload, or nothing when the text is not valid
/// base64. A function of the text alone.
pub uninterp spec fn base64_decode_of(t: Seq<u8>) -> Option<Seq<u8>>;


/// Relies on base64's `STANDARD` engine `decode`: deterministic in the text.
#[verifier::external_body]
pub(crate) fn base64_decode(s: &str) -> (r: Option<Vec<u8>>)
    ensures
        match r {
            Some(v) => base64_decode_of(encode_utf8(s@)) == Some(v@),
            None => base64_decode_of(encode_utf8(s@)) is None,
        },
{
    base64::engine::general_purpose::STANDARD.decode(s).ok()
}


/// What uuid's parser returns for a text, given as the text's bytes: the
/// sixteen UUID bytes, or nothing when the text is not a UUID.
pub uninterp spec fn uuid_of_text(t: Seq<u8>) -> Option<Seq<u8>>;


/// Relies on `uuid::Uuid::try_parse` (what its `FromStr` uses): deterministic
/// in the text; a successful parse yields the sixteen bytes.
#[verifier::external_body]
pub(crate) fn uuid_parse(s: &str) -> (r: Option<[u8; 16]>)
    ensures
        match r {
            Some(b) => uuid_of_text(encode_utf8(s@)) == Some(b@),
            None => uuid_of_text(encode_utf8(s@)) is None,
        },
{
    uuid::Uuid::try_parse(s).ok().map(|u| u.into_bytes())
}


/// What `str::parse` to binary32 returns for a text, given as the text's
/// bytes: the parsed value's bit pattern, or nothing on a parse failure.
pub uninterp spec fn f32_of_text(t: Seq<u8>) -> Option<u32>;

/// What `str::parse` to binary64 returns for a text, given as the text's
/// bytes.
pub uninterp spec fn f64_of_text(t: Seq<u8>) -> Option<u64>;


/// Relies on `str::parse` to binary32: deterministic in the text.
#[verifier::external_body]
pub(crate) fn parse_f32(s: &str) -> (r: Option<u32>)
    ensures
        match r {
            Some(b) => f32_of_text(encode_utf8(s@)) == Some(b),
            None => f32_of_text(encode_utf8(s@)) is None,
        },
{
    let mut v = LittleEndian::read_f32(&[0u8; 4]);
    v = match s.parse() {
        Ok(x) => x,
        Err(_) => return None,
    };
    let mut buf = [0u8; 4];
    LittleEndian::write_f32(&mut buf, v);
    Some(u32::from_le_bytes(buf))
}

/// Relies on `str::parse` to binary64: deterministic in the text.
#[verifier::external_body]
pub(crate) fn parse_f64(s: &str) -> (r: Option<u64>)
    ensures
        match r {
            Some(b) => f64_of_text(encode_utf8(s@)) == Some(b),
            None => f64_of_text(encode_utf8(s@)) is None,
        },
{
    let mut v = LittleEndian::read_f64(&[0u8; 8]);
    v = match s.parse() {
        Ok(x) => x,
        Err(_) => return None,
    };
    let mut buf = [0u8; 8];
    LittleEndian::write_f64(&mut buf, v);
    Some(u64::from_le_bytes(buf))
}


/// What renormalizing a quaternion returns: the component bit patterns of
/// the unit quaternion nalgebra computes from the stored (x, y, z, w)
/// components. A function of the four bit patterns alone.
pub uninterp spec fn quat_norm_of(x: u32, y: u32, z: u32, w: u32) -> (u32, u32, u32, u32);

/// Relies on nalgebra's `UnitQuaternion::new_normalize`: deterministic in
/// the four component values. Verus holds no floating point, so components
/// travel as bit patterns through byteorder's byte-level reads.
#[verifier::external_body]
pub(crate) fn normalize_quat(x: u32, y: u32, z: u32, w: u32) -> (r: (u32, u32, u32, u32))
    ensures
        r == quat_norm_of(x, y, z, w),
{
    let mut i = [0u8; 16];
    LittleEndian::write_u32_into(&[x, y, z, w], &mut i);
    let q = nalgebra::UnitQuaternion::new_normalize(nalgebra::Quaternion::new(
        LittleEndian::read_f32(&i[12..]),
        LittleEndian::read_f32(&i[..4]),
        LittleEndian::read_f32(&i[4..8]),
        LittleEndian::read_f32(&i[8..12]),
    ));
    let c = q.into_inner().coords;
    let mut o = [0u8; 16];
    LittleEndian::write_f32_into(&[c.x, c.y, c.z, c.w], &mut o);
    let mut r = [0u32; 4];
    LittleEndian::read_u32_into(&o, &mut r);
    (r[0], r[1], r[2], r[3])
}

/// What renormalizing a complex rotation returns: the bit patterns of the
/// unit complex number nalgebra computes from the stored (re, im) parts.
pub uninterp spec fn complex_norm_of(re: u32, im: u32) -> (u32, u32);

/// Relies on nalgebra's `UnitComplex::from_complex`: deterministic in the
/// two part values.
#[verifier::external_body]
pub(crate) fn normalize_complex(re: u32, im: u32) -> (r: (u32, u32))
    ensures
        r == complex_norm_of(re, im),
{
    let mut i = [0u8; 8];
    LittleEndian::write_u32_into(&[re, im], &mut i);
    let c = nalgebra::UnitComplex::from_complex(nalgebra::Complex::new(
        LittleEndian::read_f32(&i[..4]),
        LittleEndian::read_f32(&i[4..]),
    )).into_inner();
    let mut o = [0u8; 8];
    LittleEndian::write_f32_into(&[c.re, c.im], &mut o);
    let mut r = [0u32; 2];
    LittleEndian::read_u32_into(&o, &mut r);
    (r[0], r[1])
}

} // verus!
