//! Capability keys: opaque 128-bit identifiers in the ULID scheme,
//! generated at creation time and carried as 26-character Crockford
//! base32 text on the wire.

use vstd::prelude::*;

use crate::error::Error;
use crate::text::{is_digit, is_upper};

verus! {

/// What ULID text parsing yields on a byte string: the 128-bit key,
/// or nothing when the text is not 26 Crockford base32 characters.
/// The result is a function of the input alone.
pub uninterp spec fn ulid_parse_spec(s: Seq<u8>) -> Option<u128>;

/// The canonical 26-character text of a 128-bit key.
pub uninterp spec fn ulid_text_spec(k: u128) -> Seq<u8>;

/// A byte that canonical key text is made of: an ASCII digit or
/// upper-case letter.
pub open spec fn is_key_text_byte(b: u8) -> bool {
    is_digit(b) || is_upper(b)
}

/// An opaque, unguessable 128-bit identifier.  A record's key doubles
/// as the sole authorization token for editing or deleting it.
#[derive(Clone, Copy, Debug, PartialEq, Eq, Structural)]
pub struct Key(pub u128);

/// Relies on ulid's `Ulid::from_string`: accepts exactly 26
/// Crockford base32 characters, and the result depends on the input
/// text alone.
#[verifier::external_body]
fn ulid_parse(s: &[u8]) -> (r: Option<u128>)
    ensures
        r == ulid_parse_spec(s@),
{
    match core::str::from_utf8(s) {
        Ok(t) => match ulid::Ulid::from_string(t) {
            Ok(u) => Some(u.0),
            Err(_) => None,
        },
        Err(_) => None,
    }
}

/// Relies on ulid's `to_string`: 26 characters from the Crockford
/// base32 alphabet (digits and upper-case letters) that
/// `from_string` reads back to the same key.
#[verifier::external_body]
fn ulid_text(k: u128) -> (r: Vec<u8>)
    ensures
        r@ == ulid_text_spec(k),
        r@.len() == 26,
        forall|i: int| 0 <= i < r@.len() ==> is_key_text_byte(r@[i]),
        ulid_parse_spec(r@) == Some(k),
{
    ulid::Ulid(k).to_string().into_bytes()
}

/// Relies on ulid's `Ulid::generate`: a fresh key from the current
/// time and a random source.  Nothing is promised of the value.
#[verifier::external_body]
fn ulid_generate() -> u128 {
    ulid::Ulid::generate().0
}

impl Key {
    /// Reads a key from its wire text.
    pub fn parse_text(s: &[u8]) -> (r: Result<Key, Error>)
        ensures
            match r {
                Ok(k) => ulid_parse_spec(s@) == Some(k.0),
                Err(e) => ulid_parse_spec(s@) == None::<u128> && e == Error::InvalidKey,
            },
    {
        match ulid_parse(s) {
            Some(k) => Ok(Key(k)),
            None => Err(Error::InvalidKey),
        }
    }

    /// The canonical 26-character wire text of the key.
    pub fn text(&self) -> (r: Vec<u8>)
        ensures
            r@ == ulid_text_spec(self.0),
            r@.len() == 26,
            forall|i: int| 0 <= i < r@.len() ==> is_key_text_byte(r@[i]),
            ulid_parse_spec(r@) == Some(self.0),
    {
        ulid_text(self.0)
    }

    /// A fresh key for a newly created record.
    pub fn generate() -> Key {
        Key(ulid_generate())
    }
}

} // verus!
