//! Text helpers: the UTF-8 bytes of strings, and strings built from bytes.

use vstd::prelude::*;
use vstd::utf8::{
    encode_utf8, is_char_boundary_iff_not_is_continuation_byte, valid_utf8, valid_utf8_split,
};

verus! {

#[verifier::external_type_specification]
#[verifier::external_body]
pub struct ExUtf8Error(core::str::Utf8Error);

/// `core::str::from_utf8`: succeeds exactly when `v` is valid UTF-8, and
/// then returns the string whose UTF-8 encoding is `v`.
#[verifier::external_body]
fn str_from_utf8(v: &[u8]) -> (r: Result<&str, core::str::Utf8Error>)
    ensures
        r is Ok <==> valid_utf8(v@),
        r matches Ok(s) ==> encode_utf8(s@) == v@,
{
    core::str::from_utf8(v)
}

/// Whether `v` is valid UTF-8.
pub fn is_valid_utf8(v: &[u8]) -> (r: bool)
    ensures
        r == valid_utf8(v@),
{
    str_from_utf8(v).is_ok()
}

/// The string whose UTF-8 encoding is `v`.
pub fn string_from_utf8(v: &[u8]) -> (r: String)
    requires
        valid_utf8(v@),
    ensures
        encode_utf8(r@) == v@,
{
    match str_from_utf8(v) {
        Ok(s) => s.to_owned(),
        Err(_) => String::new(),
    }
}

/// The UTF-8 bytes of a string.
pub fn string_bytes(s: &String) -> (r: &[u8])
    ensures
        r@ == encode_utf8(s@),
{
    s.as_str().as_bytes()
}

/// The UTF-8 bytes of a string slice.
pub fn str_bytes(s: &str) -> (r: &[u8])
    ensures
        r@ == encode_utf8(s@),
{
    s.as_bytes()
}

/// Cutting valid UTF-8 around an ASCII byte leaves valid UTF-8 on both
/// sides.
pub proof fn lemma_valid_utf8_cut_at_ascii(b: Seq<u8>, k: int)
    requires
        valid_utf8(b),
        0 <= k < b.len(),
        b[k] < 0x80,
    ensures
        valid_utf8(b.subrange(0, k)),
        valid_utf8(b.subrange(k + 1, b.len() as int)),
{
    is_char_boundary_iff_not_is_continuation_byte(b, k);
    valid_utf8_split(b, k);
    let r = b.subrange(k, b.len() as int);
    assert(r[0] == b[k]);
    assert(r.len() > 0);
    assert(vstd::utf8::pop_first_scalar(r) =~= b.subrange(k + 1, b.len() as int));
}

} // verus!
