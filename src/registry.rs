use vstd::prelude::*;

use crate::outside::{hex_encode, hex_lower, sha3_256, sha3_256_of, sha3_512, sha3_512_of};
use crate::token::Tok;

verus! {

/// A digest algorithm.
#[derive(Clone, Copy, Debug, PartialEq, Eq, Structural)]
pub enum Algorithm {
    Sha3_256,
    Sha3_512,
}

/// What a named nested invocation does with the bytes of its body.
#[derive(Clone, Copy, Debug, PartialEq, Eq, Structural)]
pub enum Transform {
    /// The raw digest.
    Digest(Algorithm),
    /// The lowercase hexadecimal text of the digest, as bytes.
    HexDigest(Algorithm),
}

/// One entry of a handler registry: a name and what it does.
#[derive(Debug)]
pub struct Handler {
    pub name: String,
    pub transform: Transform,
}

pub open spec fn digest_of(alg: Algorithm, b: Seq<u8>) -> Seq<u8> {
    match alg {
        Algorithm::Sha3_256 => sha3_256_of(b),
        Algorithm::Sha3_512 => sha3_512_of(b),
    }
}

/// The output size of an algorithm, in bytes.
pub open spec fn digest_len(alg: Algorithm) -> nat {
    match alg {
        Algorithm::Sha3_256 => 32,
        Algorithm::Sha3_512 => 64,
    }
}

/// The bytes a transform makes of its input.
pub open spec fn transform_spec(t: Transform, b: Seq<u8>) -> Seq<u8> {
    match t {
        Transform::Digest(a) => digest_of(a, b),
        Transform::HexDigest(a) => vstd::utf8::encode_utf8(hex_lower(digest_of(a, b))),
    }
}

/// The first entry at or after `i` whose name is `name`.
pub open spec fn lookup_from(hs: Seq<Handler>, name: Seq<char>, i: int) -> Option<Transform>
    decreases hs.len() - i,
{
    if i < 0 || i >= hs.len() {
        None
    } else if hs[i].name@ == name {
        Some(hs[i].transform)
    } else {
        lookup_from(hs, name, i + 1)
    }
}

/// The transform of the first entry named `name`, if any.
pub open spec fn lookup_spec(hs: Seq<Handler>, name: Seq<char>) -> Option<Transform> {
    lookup_from(hs, name, 0)
}

/// Finds the first handler with the given name (exact, case-sensitive).
pub fn lookup(hs: &Vec<Handler>, name: &String) -> (r: Option<Transform>)
    ensures
        r == lookup_spec(hs@, name@),
{
    let mut i: usize = 0;
    while i < hs.len()
        invariant
            i <= hs.len(),
            lookup_from(hs@, name@, 0) == lookup_from(hs@, name@, i as int),
        decreases hs.len() - i,
    {
        if hs[i].name == *name {
            return Some(hs[i].transform);
        }
        i = i + 1;
    }
    None
}

/// The digest of `b` under `alg`.
pub fn digest(alg: Algorithm, b: &Vec<u8>) -> (r: Vec<u8>)
    ensures
        r@ == digest_of(alg, b@),
        r@.len() == digest_len(alg),
{
    match alg {
        Algorithm::Sha3_256 => sha3_256(b),
        Algorithm::Sha3_512 => sha3_512(b),
    }
}

/// Applies a transform to resolved bytes.
pub fn apply(t: Transform, b: &Vec<u8>) -> (r: Vec<u8>)
    ensures
        r@ == transform_spec(t, b@),
        t matches Transform::Digest(a) ==> r@.len() == digest_len(a),
{
    match t {
        Transform::Digest(a) => digest(a, b),
        Transform::HexDigest(a) => {
            let d = digest(a, b);
            let h = hex_encode(&d);
            vstd::slice::slice_to_vec(h.as_str().as_bytes())
        },
    }
}

/// How an include form reads its file.
#[derive(Clone, Copy, Debug, PartialEq, Eq, Structural)]
pub enum IncludeMode {
    /// `include_bytes!`: the raw bytes.
    Bytes,
    /// `include_str!`: the bytes of a file that must hold valid text.
    Text,
    /// `include!`: the file's text, read again as a literal expression.
    Source,
}

/// What reading a file gave.
#[derive(Debug)]
pub enum FileData {
    /// The raw contents, for `Bytes`.
    Bytes(Vec<u8>),
    /// The contents decoded as text, for `Text`.
    Text(String),
    /// The contents split into tokens, for `Source`.
    Tokens(Vec<Tok>),
    /// The read failed; the message says why.
    Failed(String),
}

/// One file read on behalf of an include form.
#[derive(Debug)]
pub struct FileEntry {
    /// The path, as UTF-8 bytes.
    pub path: Vec<u8>,
    pub mode: IncludeMode,
    pub data: FileData,
}

/// The index of the first entry at or after `i` for `path` and `mode`.
pub open spec fn find_from(files: Seq<FileEntry>, path: Seq<u8>, mode: IncludeMode, i: int) -> Option<int>
    decreases files.len() - i,
{
    if i < 0 || i >= files.len() {
        None
    } else if files[i].path@ == path && files[i].mode == mode {
        Some(i)
    } else {
        find_from(files, path, mode, i + 1)
    }
}

pub open spec fn find_spec(files: Seq<FileEntry>, path: Seq<u8>, mode: IncludeMode) -> Option<int> {
    find_from(files, path, mode, 0)
}

fn same_bytes(a: &Vec<u8>, b: &Vec<u8>) -> (r: bool)
    ensures
        r == (a@ == b@),
{
    if a.len() != b.len() {
        return false;
    }
    let mut i: usize = 0;
    while i < a.len()
        invariant
            i <= a.len() == b.len(),
            a@.subrange(0, i as int) == b@.subrange(0, i as int),
        decreases a.len() - i,
    {
        if a[i] != b[i] {
            assert(a@[i as int] != b@[i as int]);
            return false;
        }
        i = i + 1;
        assert(a@.subrange(0, i as int) =~= b@.subrange(0, i as int));
    }
    assert(a@ =~= a@.subrange(0, i as int));
    assert(b@ =~= b@.subrange(0, i as int));
    true
}

/// Finds the first entry read for `path` in `mode`.
pub fn find_file(files: &Vec<FileEntry>, path: &Vec<u8>, mode: IncludeMode) -> (r: Option<usize>)
    ensures
        match r {
            Some(i) => find_spec(files@, path@, mode) == Some(i as int) && i < files@.len(),
            None => find_spec(files@, path@, mode) is None,
        },
{
    let mut i: usize = 0;
    while i < files.len()
        invariant
            i <= files.len(),
            find_from(files@, path@, mode, 0) == find_from(files@, path@, mode, i as int),
        decreases files.len() - i,
    {
        if files[i].mode == mode && same_bytes(&files[i].path, path) {
            return Some(i);
        }
        i = i + 1;
    }
    None
}

} // verus!
