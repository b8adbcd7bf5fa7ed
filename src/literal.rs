use crate::cipher::{lemma_xor_involution, xor, xor_spec};
use crate::hex_codec::{
    bytes_of_hex, decode_hex, encode_hex, hex_of, is_hex_text, lemma_hex_round_trip,
};
use vstd::prelude::*;
use vstd::slice::slice_to_vec;
use vstd::string::StrSliceExecFns;
use vstd::utf8::{decode_utf8, encode_utf8, encode_utf8_decode_utf8, encode_utf8_valid_utf8, valid_utf8};

verus! {

/// The text value of a string literal written as `raw` (escapes resolved), or
/// `None` when `raw` is no string literal.
pub uninterp spec fn string_literal_value_of(raw: Seq<char>) -> Option<Seq<char>>;

/// The value of an integer literal written as `raw`, or `None` when `raw` is
/// no integer literal or its value does not fit in `usize`.
pub uninterp spec fn integer_literal_value_of(raw: Seq<char>) -> Option<usize>;

/// `raw` is empty or ends in an ASCII character: the string literal parser
/// cuts the text one byte before its end, which must fall on a character
/// boundary.
pub open spec fn ends_in_ascii(raw: Seq<char>) -> bool {
    raw.len() == 0 || (raw.last() as u32) < 128
}

/// The value of a string literal written as `raw`, where the parser can be
/// asked; text that ends in a non-ASCII character is no string literal.
pub open spec fn string_value(raw: Seq<char>) -> Option<Seq<char>> {
    if ends_in_ascii(raw) {
        string_literal_value_of(raw)
    } else {
        None
    }
}

/// Relies on litrs::StringLit::parse and its `value`: the unescaped value of a
/// (raw) string literal. The parser only accepts text that starts with `"` or `r`.
/// It slices the text up to one byte before its end when it meets an escape,
/// so text ending in a multi-byte character is kept out.
#[verifier::external_body]
fn string_literal_value(raw: &str) -> (r: Option<String>)
    requires
        ends_in_ascii(raw@),
    ensures
        r matches Some(v) ==> string_literal_value_of(raw@) == Some(v@),
        r is None ==> string_literal_value_of(raw@) is None,
        r is Some ==> raw@.len() > 0 && (raw@[0] == '"' || raw@[0] == 'r'),
{
    match litrs::StringLit::parse(raw) {
        Ok(l) => Some(l.value().to_string()),
        Err(_) => None,
    }
}

/// Relies on litrs::IntegerLit::parse and `value::<usize>`: the value of an
/// integer literal that fits in `usize`. The parser only accepts text that
/// starts with a decimal digit.
#[verifier::external_body]
pub(crate) fn integer_literal_value(raw: &str) -> (r: Option<usize>)
    ensures
        r == integer_literal_value_of(raw@),
        r is Some ==> raw@.len() > 0 && '0' <= raw@[0] && raw@[0] <= '9',
{
    match litrs::IntegerLit::parse(raw) {
        Ok(l) => l.value::<usize>(),
        Err(_) => None,
    }
}

/// Relies on quote's `ToTokens` for `str` (a `proc_macro2::Literal::string`):
/// the source text of a string literal that holds `s`, which the string
/// literal parser reads back as `s`.
#[verifier::external_body]
pub(crate) fn string_literal_text(s: &str) -> (r: String)
    ensures
        string_literal_value_of(r@) == Some(s@),
{
    quote::ToTokens::to_token_stream(s).to_string()
}

/// Relies on String::from_utf8: it succeeds exactly on valid UTF-8.
#[verifier::external_body]
fn string_from_utf8(v: Vec<u8>) -> (r: Option<String>)
    ensures
        r is Some <==> valid_utf8(v@),
        r matches Some(s) ==> s@ == decode_utf8(v@),
{
    String::from_utf8(v).ok()
}

/// The value of the string literal written as `raw`, or `None` when `raw` is
/// no string literal or ends in a non-ASCII character.
pub fn literal_value(raw: &str) -> (r: Option<String>)
    ensures
        r matches Some(v) ==> string_value(raw@) == Some(v@),
        r is None ==> string_value(raw@) is None,
{
    let n = raw.unicode_len();
    if n > 0 && raw.get_char(n - 1) as u32 >= 128 {
        return None;
    }
    string_literal_value(raw)
}

/// The hex text that stands for `text` once its UTF-8 bytes went through the
/// cipher with `key`.
pub open spec fn encoded_spec(text: Seq<char>, key: Seq<u8>) -> Seq<char> {
    hex_of(xor_spec(encode_utf8(text), key))
}

/// What the run-time decoding of `hex` against the key written as `key_hex`
/// gives: both are hex decoded, the cipher is applied, and the bytes are read
/// as UTF-8.
pub open spec fn decoded_spec(hex: Seq<char>, key_hex: Seq<char>) -> Option<Seq<char>> {
    if is_hex_text(hex) && is_hex_text(key_hex) {
        let b = xor_spec(bytes_of_hex(hex), bytes_of_hex(key_hex));
        if valid_utf8(b) {
            Some(decode_utf8(b))
        } else {
            None
        }
    } else {
        None
    }
}

/// The hex text of `text` after the cipher with `key`.
pub fn encoded_literal(text: &str, key: &[u8]) -> (r: String)
    ensures
        r@ == encoded_spec(text@, key@),
{
    let mut bytes = slice_to_vec(text.as_bytes());
    xor(bytes.as_mut_slice(), key);
    encode_hex(bytes.as_slice())
}

/// Rebuilds a text from its hex form and the hex form of the key; `None` when
/// either is no hex text or the result is not valid UTF-8.
pub fn decode_literal(hex: &str, key_hex: &str) -> (r: Option<String>)
    ensures
        r matches Some(s) ==> decoded_spec(hex@, key_hex@) == Some(s@),
        r is None ==> decoded_spec(hex@, key_hex@) is None,
{
    let key = match decode_hex(key_hex) {
        Some(k) => k,
        None => return None,
    };
    let mut bytes = match decode_hex(hex) {
        Some(b) => b,
        None => return None,
    };
    xor(bytes.as_mut_slice(), key.as_slice());
    string_from_utf8(bytes)
}

/// Decoding the encoded form of a text against the hex form of the same key
/// gives the text back, whatever the lengths of text and key.
pub proof fn lemma_round_trip(text: Seq<char>, key: Seq<u8>)
    ensures
        decoded_spec(encoded_spec(text, key), hex_of(key)) == Some(text),
{
    let b = encode_utf8(text);
    lemma_hex_round_trip(xor_spec(b, key));
    lemma_hex_round_trip(key);
    lemma_xor_involution(b, key);
    encode_utf8_valid_utf8(text);
    encode_utf8_decode_utf8(text);
}

} // verus!
