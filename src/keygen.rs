use crate::hex_codec::{encode_hex, hex_of};
use crate::literal::{integer_literal_value, integer_literal_value_of};
use crate::rewrite::quoted;
use crate::token::{trees, Token, TokenTree};
use vstd::prelude::*;
use vstd::string::StringExecFns;

verus! {

/// The key length used when the invocation names none.
pub const DEFAULT_KEY_LENGTH: usize = 128;

/// The key length that an invocation asks for: the value of its first token
/// when that is an integer literal that fits in `usize`, else the default.
pub open spec fn key_length_spec(tokens: Seq<TokenTree>) -> usize {
    if tokens.len() > 0 && tokens[0] is Literal {
        match integer_literal_value_of(tokens[0]->Literal_0) {
            Some(n) => n,
            None => DEFAULT_KEY_LENGTH,
        }
    } else {
        DEFAULT_KEY_LENGTH
    }
}

/// Relies on rand's `thread_rng` and `RngCore::fill_bytes`: the buffer is
/// overwritten in place and keeps its length. Nothing is known of the bytes.
#[verifier::external_body]
fn fill_random(buf: &mut Vec<u8>)
    ensures
        final(buf)@.len() == old(buf)@.len(),
{
    rand::RngCore::fill_bytes(&mut rand::thread_rng(), buf.as_mut_slice())
}

/// The requested key length of an invocation.
pub fn key_length(tokens: &Vec<Token>) -> (r: usize)
    ensures
        r == key_length_spec(trees(tokens@)),
{
    proof {
        crate::token::lemma_trees_index(tokens@);
    }
    if tokens.len() > 0 {
        match &tokens[0] {
            Token::Literal(raw) => match integer_literal_value(raw.as_str()) {
                Some(n) => n,
                None => DEFAULT_KEY_LENGTH,
            },
            _ => DEFAULT_KEY_LENGTH,
        }
    } else {
        DEFAULT_KEY_LENGTH
    }
}

/// A fresh buffer of `len` random bytes.
pub fn random_key(len: usize) -> (r: Vec<u8>)
    ensures
        r@.len() == len,
{
    let mut buf: Vec<u8> = Vec::new();
    let mut i: usize = 0;
    while i < len
        invariant
            i <= len,
            buf@.len() == i,
        decreases len - i,
    {
        buf.push(0);
        i += 1;
    }
    fill_random(&mut buf);
    buf
}

/// The string literal that embeds `key` in the build: its hex text in quotes.
pub fn key_literal(key: &[u8]) -> (r: Token)
    ensures
        r.tree() == TokenTree::Literal(quoted(hex_of(key@))),
{
    let hex = encode_hex(key);
    let mut lit = String::from_str("\"");
    lit.append(hex.as_str());
    lit.append("\"");
    Token::Literal(lit)
}

/// Makes the build's key: as many random bytes as the invocation asks for
/// (the default when it names no usable length), as a hex string literal.
pub fn generate_key(tokens: &Vec<Token>) -> (r: Token)
    ensures
        exists|b: Seq<u8>|
            b.len() == key_length_spec(trees(tokens@)) && #[trigger] r.tree()
                == TokenTree::Literal(quoted(hex_of(b))),
{
    let len = key_length(tokens);
    let key = random_key(len);
    key_literal(key.as_slice())
}

} // verus!
