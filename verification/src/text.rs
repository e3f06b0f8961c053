//! Decoding payload bytes as UTF-8 text.

use vstd::prelude::*;
use vstd::utf8::*;

verus! {

/// Relies on std's String::from_utf8: it succeeds exactly on valid UTF-8 and
/// returns the decoded characters.
#[verifier::external_body]
pub(crate) fn utf8_to_string(bytes: &Vec<u8>) -> (r: Option<String>)
    ensures
        r is Some <==> valid_utf8(bytes@),
        r is Some ==> r->Some_0@ == decode_utf8(bytes@),
{
    String::from_utf8(bytes.clone()).ok()
}

/// A sequence of bytes below 128 is valid UTF-8 and decodes to the matching
/// characters.
pub proof fn lemma_ascii_bytes_decode(bytes: Seq<u8>)
    requires
        forall|i: int| 0 <= i < bytes.len() ==> #[trigger] bytes[i] < 128,
    ensures
        valid_utf8(bytes),
        decode_utf8(bytes) =~= bytes.map_values(|b: u8| b as char),
    decreases bytes.len(),
{
    if bytes.len() != 0 {
        let b = bytes[0];
        assert(is_leading_byte_width_1(b));
        assert(b & 0x7f == b) by (bit_vector)
            requires
                b < 128,
        ;
        assert(decode_first_codepoint(bytes) == b as u32);
        assert(valid_first_scalar(bytes));
        let rest = bytes.drop_first();
        assert(pop_first_scalar(bytes) =~= rest);
        assert(forall|i: int| 0 <= i < rest.len() ==> #[trigger] rest[i] < 128);
        lemma_ascii_bytes_decode(rest);
        char_u32_cast(b as char, b as u32);
        assert(decode_utf8(bytes) == seq![b as char] + decode_utf8(rest));
    }
}

} // verus!
