use vstd::prelude::*;

verus! {

/// What `syn` decodes from the source text of a string literal, as UTF-8
/// bytes; `None` when the text is no string literal.
pub uninterp spec fn str_literal_bytes(repr: Seq<char>) -> Option<Seq<u8>>;

/// What `syn` decodes from the source text of a byte-string literal.
pub uninterp spec fn byte_str_literal_bytes(repr: Seq<char>) -> Option<Seq<u8>>;

/// What `syn` decodes from the source text of a byte literal.
pub uninterp spec fn byte_literal_value(repr: Seq<char>) -> Option<u8>;

/// The value of an integer literal read as a base-10 `u8` by `syn`; `None`
/// when the text is no integer literal or its value does not fit.
pub uninterp spec fn int_literal_u8(repr: Seq<char>) -> Option<u8>;

/// The SHA3-256 digest of a byte sequence.
pub uninterp spec fn sha3_256_of(b: Seq<u8>) -> Seq<u8>;

/// The SHA3-512 digest of a byte sequence.
pub uninterp spec fn sha3_512_of(b: Seq<u8>) -> Seq<u8>;

pub open spec fn opt_bytes(v: Option<Vec<u8>>) -> Option<Seq<u8>> {
    match v {
        Some(b) => Some(b@),
        None => None,
    }
}

/// Relies on `syn::LitStr` (parsed by `syn::parse_str`) and `LitStr::value`:
/// the decoded text of one string literal.
#[verifier::external_body]
pub(crate) fn read_str_literal(repr: &String) -> (r: Option<Vec<u8>>)
    ensures
        opt_bytes(r) == str_literal_bytes(repr@),
{
    match syn::parse_str::<syn::LitStr>(repr) {
        Ok(l) => Some(l.value().into_bytes()),
        Err(_) => None,
    }
}

/// Relies on `syn::LitByteStr` (parsed by `syn::parse_str`) and
/// `LitByteStr::value`: the bytes of one byte-string literal.
#[verifier::external_body]
pub(crate) fn read_byte_str_literal(repr: &String) -> (r: Option<Vec<u8>>)
    ensures
        opt_bytes(r) == byte_str_literal_bytes(repr@),
{
    match syn::parse_str::<syn::LitByteStr>(repr) {
        Ok(l) => Some(l.value()),
        Err(_) => None,
    }
}

/// Relies on `syn::LitByte` (parsed by `syn::parse_str`) and `LitByte::value`:
/// the value of one byte literal.
#[verifier::external_body]
pub(crate) fn read_byte_literal(repr: &String) -> (r: Option<u8>)
    ensures
        r == byte_literal_value(repr@),
{
    match syn::parse_str::<syn::LitByte>(repr) {
        Ok(l) => Some(l.value()),
        Err(_) => None,
    }
}

/// Relies on `syn::LitInt` (parsed by `syn::parse_str`) and
/// `LitInt::base10_parse::<u8>`: the value of an integer literal that fits
/// in a byte.
#[verifier::external_body]
pub(crate) fn read_int_literal(repr: &String) -> (r: Option<u8>)
    ensures
        r == int_literal_u8(repr@),
{
    match syn::parse_str::<syn::LitInt>(repr) {
        Ok(l) => l.base10_parse::<u8>().ok(),
        Err(_) => None,
    }
}

/// Relies on `digest::Digest::digest` for `sha3::Sha3_256`: a 32-byte digest
/// of the input.
#[verifier::external_body]
pub(crate) fn sha3_256(b: &Vec<u8>) -> (r: Vec<u8>)
    ensures
        r@ == sha3_256_of(b@),
        r@.len() == 32,
{
    <sha3::Sha3_256 as digest::Digest>::digest(b.as_slice()).to_vec()
}

/// Relies on `digest::Digest::digest` for `sha3::Sha3_512`: a 64-byte digest
/// of the input.
#[verifier::external_body]
pub(crate) fn sha3_512(b: &Vec<u8>) -> (r: Vec<u8>)
    ensures
        r@ == sha3_512_of(b@),
        r@.len() == 64,
{
    <sha3::Sha3_512 as digest::Digest>::digest(b.as_slice()).to_vec()
}

/// The lowercase hexadecimal digit of a value below 16.
pub open spec fn hex_digit(n: u8) -> char {
    if n < 10 {
        (n + 48) as char
    } else {
        (n + 87) as char
    }
}

/// Lowercase hexadecimal text of a byte sequence: two digits per byte, the
/// high half first.
pub open spec fn hex_lower(b: Seq<u8>) -> Seq<char>
    decreases b.len(),
{
    if b.len() == 0 {
        Seq::empty()
    } else {
        hex_lower(b.drop_last()) + seq![hex_digit(b.last() / 16), hex_digit(b.last() % 16)]
    }
}

/// Relies on `hex::encode`: each byte becomes two lowercase hexadecimal
/// digits, the high half first.
#[verifier::external_body]
pub(crate) fn hex_encode(b: &Vec<u8>) -> (r: String)
    ensures
        r@ == hex_lower(b@),
{
    hex::encode(b)
}

/// Relies on `String::push`: appends one character.
#[verifier::external_body]
pub(crate) fn push_char(s: &mut String, c: char)
    ensures
        final(s)@ == old(s)@.push(c),
{
    s.push(c)
}

} // verus!
