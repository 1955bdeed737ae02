//! Byte-wise string comparison.
use vstd::prelude::*;
use crate::cpu_features::const_slice_eq;
use vstd::string::StringSliceAdditionalSpecFns;

verus! {

/// Two strings with the same UTF-8 encoding are the same string.
pub proof fn lemma_bytes_eq_iff_chars_eq(a: &str, b: &str)
    ensures
        (a.spec_bytes() == b.spec_bytes()) == (a@ == b@),
{
    vstd::utf8::encode_utf8_decode_utf8(a@);
    vstd::utf8::encode_utf8_decode_utf8(b@);
}

/// Compares two strings by their bytes.
pub fn eq(a: &str, b: &str) -> (r: bool)
    ensures
        r == (a@ == b@),
{
    let r = const_slice_eq(a.as_bytes(), b.as_bytes());
    proof {
        lemma_bytes_eq_iff_chars_eq(a, b);
    }
    r
}

} // verus!
