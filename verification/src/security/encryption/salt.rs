//! Secure salt generation for password hashing: the canonical salt source.

use argon2::password_hash::rand_core::OsRng;
use argon2::password_hash::SaltString;
use vstd::prelude::*;

use crate::text::alphanumeric;

verus! {

/// A character of the unpadded Base64 alphabet that PHC strings use.
pub open spec fn b64_char(c: char) -> bool {
    alphanumeric(c) || c == '+' || c == '/'
}

/// Whether a text is sixteen bytes in unpadded Base64: twenty-two characters, the last
/// of which carries two bits.
pub open spec fn sixteen_bytes_b64(s: Seq<char>) -> bool {
    &&& s.len() == 22
    &&& forall|i: int| 0 <= i < 22 ==> b64_char(#[trigger] s[i])
    &&& s[21] == 'A' || s[21] == 'Q' || s[21] == 'g' || s[21] == 'w'
}

/// Generate a fresh random PHC salt from the OS CSPRNG, with
/// `argon2::password_hash::SaltString::generate`: sixteen random bytes in Base64.
/// Nothing more is promised of which bytes they are.
#[verifier::external_body]
pub fn generate() -> (r: String)
    ensures
        sixteen_bytes_b64(r@),
{
    SaltString::generate(&mut OsRng).as_str().to_string()
}

} // verus!
