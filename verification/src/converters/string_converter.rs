use vstd::prelude::*;
use vstd::slice::slice_to_vec;
use vstd::utf8::{valid_utf8, decode_utf8, encode_utf8, encode_utf8_valid_utf8, encode_utf8_decode_utf8};
use crate::allocator::Allocator;
use crate::converter::Converter;
use crate::error::Error;

verus! {

/// Relies on `String::from_utf8`: it succeeds exactly on valid UTF-8
/// input and returns the string those bytes spell, as vstd's UTF-8
/// model states it.
#[verifier::external_body]
fn string_from_utf8(bytes: Vec<u8>) -> (r: Option<String>)
    ensures
        r is Some <==> valid_utf8(bytes@),
        r is Some ==> r->0@ == decode_utf8(bytes@),
{
    match String::from_utf8(bytes) {
        Ok(s) => Some(s),
        Err(_) => None,
    }
}

/// The codec for text: the string's UTF-8 bytes, with no prefix of its
/// own (variable-length, so callers bracket it with a length prefix).
pub struct StringConverter;

impl StringConverter {
    /// Creates the codec; it carries no state.
    pub fn new() -> Self {
        StringConverter
    }
}

impl crate::interface::Converter for StringConverter {
    open spec fn spec_length(&self) -> usize {
        0
    }

    open spec fn spec_generic_argument(&self) -> u64 {
        9
    }

    fn length(&self) -> usize {
        0
    }

    fn generic_argument(&self) -> u64 {
        9
    }
}

impl Converter<String> for StringConverter {
    open spec fn enc(&self, v: Seq<char>) -> Seq<u8> {
        encode_utf8(v)
    }

    open spec fn dec(&self, bytes: Seq<u8>) -> Option<Seq<char>> {
        if valid_utf8(bytes) {
            Some(decode_utf8(bytes))
        } else {
            None
        }
    }

    open spec fn dec_err(&self, bytes: Seq<u8>) -> Error {
        Error::InvalidEncoding
    }

    open spec fn encodable(&self, len: int, lim: int, v: Seq<char>) -> bool {
        encode_utf8(v).len() == 0 || len + encode_utf8(v).len() <= lim
    }

    proof fn lemma_enc_width(&self, v: Seq<char>) {
    }

    proof fn lemma_round_trip(&self, v: Seq<char>) {
        encode_utf8_valid_utf8(v);
        encode_utf8_decode_utf8(v);
    }

    fn encode(&self, allocator: &mut Allocator, item: &String) -> (r: Result<(), Error>) {
        let bytes = item.as_str().as_bytes();
        let r = allocator.append(bytes);
        proof {
            if r is Err {
                assert(old(allocator)@.is_prefix_of(allocator@));
            }
        }
        r
    }

    fn decode(&self, span: &&[u8]) -> (r: Result<String, Error>) {
        let bytes = slice_to_vec(*span);
        match string_from_utf8(bytes) {
            Some(s) => Ok(s),
            None => Err(Error::InvalidEncoding),
        }
    }
}

} // verus!
