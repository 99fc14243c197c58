//! Encryption helpers: the verified halves of the two key-wrapping calls a
//! scenario uses to prepare encrypted key material.
//!
//! The primitives themselves (RSA-OAEP and AES key wrap) are outside
//! collaborators reached over a raw interface the verifier refuses; the
//! caller of this module runs them.  What is verified here is everything
//! around a primitive call: the output buffer each primitive fills, sized by
//! its rule, and the classification of the primitive's status code into the
//! caller's result.

use vstd::prelude::*;

verus! {

/// Size in bytes of an RSA-OAEP ciphertext for the fixed 2048-bit keys.
pub const RSA_OAEP_CIPHERTEXT_LEN: usize = 256;

/// Size in bytes of the wrapped key for a secret key of `key_length_bits`
/// bits: the key plus the 8-byte integrity block, for the two supported key
/// sizes — 24 bytes for a 128-bit key, 40 bytes for a 256-bit key.
pub open spec fn kw_wrapped_len(key_length_bits: u32) -> nat {
    if key_length_bits == 256 {
        40
    } else {
        24
    }
}

/// Is `key_length_bits` one of the two key sizes the key wrap supports?
pub open spec fn kw_supported(key_length_bits: u32) -> bool {
    key_length_bits == 128 || key_length_bits == 256
}

/// A zeroed output buffer for the RSA-OAEP primitive to fill.
pub fn rsa_oaep_buffer() -> (r: Vec<u8>)
    ensures
        r@.len() == RSA_OAEP_CIPHERTEXT_LEN,
        forall|i: int| 0 <= i < r@.len() ==> r@[i] == 0u8,
{
    zeroed(RSA_OAEP_CIPHERTEXT_LEN)
}

/// A zeroed output buffer for the key-wrap primitive wrapping a secret key
/// of `key_length_bits` bits.
pub fn kw_buffer(key_length_bits: u32) -> (r: Vec<u8>)
    requires
        kw_supported(key_length_bits),
    ensures
        r@.len() == kw_wrapped_len(key_length_bits),
        forall|i: int| 0 <= i < r@.len() ==> r@[i] == 0u8,
{
    if key_length_bits == 256 {
        zeroed(40)
    } else {
        zeroed(24)
    }
}

/// The result of the RSA-OAEP wrap: the filled 256-byte ciphertext when the
/// primitive reported success (status zero), a generic failure otherwise.
pub fn rsa_oaep_encrypt(encbuf: Vec<u8>, status: i32) -> (r: Result<Vec<u8>, &'static str>)
    requires
        encbuf@.len() == RSA_OAEP_CIPHERTEXT_LEN,
    ensures
        status == 0 <==> r is Ok,
        (r matches Ok(c) ==> c@ == encbuf@ && c@.len() == RSA_OAEP_CIPHERTEXT_LEN),
        (r matches Err(m) ==> m@ == "Failed to encrypt buffer"@),
{
    if status == 0 {
        Ok(encbuf)
    } else {
        Err("Failed to encrypt buffer")
    }
}

/// The result of the AES key wrap of a `key_length_bits`-bit secret key:
/// the filled wrapped key — 24 bytes for a 128-bit key, 40 bytes for a
/// 256-bit key — when the primitive reported success (status zero), a
/// generic failure otherwise.
pub fn kw_encrypt(key_length_bits: u32, encbuf: Vec<u8>, status: i32) -> (r: Result<
    Vec<u8>,
    &'static str,
>)
    requires
        kw_supported(key_length_bits),
        encbuf@.len() == kw_wrapped_len(key_length_bits),
    ensures
        status == 0 <==> r is Ok,
        (r matches Ok(c) ==> c@ == encbuf@ && c@.len() == kw_wrapped_len(key_length_bits)),
        (r matches Err(m) ==> m@ == "Failed to encrypt buffer"@),
{
    if status == 0 {
        Ok(encbuf)
    } else {
        Err("Failed to encrypt buffer")
    }
}

/// A vector of `n` zero bytes.
fn zeroed(n: usize) -> (r: Vec<u8>)
    ensures
        r@.len() == n,
        forall|i: int| 0 <= i < r@.len() ==> r@[i] == 0u8,
{
    let mut r: Vec<u8> = Vec::new();
    while r.len() < n
        invariant
            r@.len() <= n,
            forall|i: int| 0 <= i < r@.len() ==> r@[i] == 0u8,
        decreases n - r@.len(),
    {
        r.push(0u8);
    }
    r
}

} // verus!
