//! Compile-time string obfuscation: a token-scope rewriter that replaces string
//! literals by expressions which rebuild them at run time from a hex constant
//! and a per-build key.

pub mod cipher;
pub mod hex_codec;
pub mod literal;
pub mod segment;
pub mod token;
pub mod rewrite;
pub mod keygen;

pub use cipher::{xor, Key};
pub use keygen::generate_key;
pub use literal::{decode_literal, encoded_literal};
pub use rewrite::{e, encrypt_all_strings, encrypt_strings, MacroError};
pub use segment::{segment, Segment};
pub use token::{Delimiter, Token};
