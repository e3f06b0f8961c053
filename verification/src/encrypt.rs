//! Encryption of secret messages before they are embedded, under one fixed
//! key.

use magic_crypt::MagicCryptTrait;
use vstd::prelude::*;

verus! {

/// The base64 ciphertext of a message under the fixed key. It is computed by
/// an outside crate; the library states only that it is a function of the
/// message alone.
pub uninterp spec fn cipher_of(msg: Seq<char>) -> Seq<char>;

/// What decryption makes of a string under the fixed key: the recovered
/// message, or nothing where the string is not well-formed ciphertext. A
/// function of the string alone.
pub uninterp spec fn deciphered_of(msg: Seq<char>) -> Option<Seq<char>>;

/// Relies on magic_crypt's MagicCrypt256::encrypt_str_to_base64 (AES-256,
/// key and derived IV fixed): the ciphertext is a function of the message
/// alone.
#[verifier::external_body]
pub fn encrypt(msg: String) -> (r: String)
    ensures
        r@ == cipher_of(msg@),
{
    let mc = magic_crypt::MagicCrypt256::new("grassfed_butter", None::<String>);
    mc.encrypt_str_to_base64(msg)
}

/// Relies on magic_crypt's MagicCrypt256::decrypt_base64_to_string with the
/// same fixed key: the result is a function of the input alone, and
/// decryption recovers what encryption produced.
#[verifier::external_body]
fn decrypt_base64(msg: &String) -> (r: Option<String>)
    ensures
        r is Some <==> deciphered_of(msg@) is Some,
        r is Some ==> r->Some_0@ == deciphered_of(msg@)->Some_0,
        forall|p: Seq<char>| msg@ == cipher_of(p) ==> r is Some && r->Some_0@ == p,
{
    let mc = magic_crypt::MagicCrypt256::new("grassfed_butter", None::<String>);
    mc.decrypt_base64_to_string(&msg).ok()
}

/// Decrypts a base64 ciphertext under the fixed key; whatever `encrypt`
/// produced comes back as the original message, and strings that are not
/// well-formed ciphertext yield nothing.
pub fn decrypt(msg: String) -> (r: Option<String>)
    ensures
        r is Some <==> deciphered_of(msg@) is Some,
        r is Some ==> r->Some_0@ == deciphered_of(msg@)->Some_0,
        forall|p: Seq<char>| msg@ == cipher_of(p) ==> r is Some && r->Some_0@ == p,
{
    decrypt_base64(&msg)
}

} // verus!
