use vstd::prelude::*;

use crate::error::ParseError;
use crate::literal::{literal_spec, Continuation, HashLiteral};
use crate::registry::{digest, digest_len, digest_of, Algorithm, FileEntry, Handler, Transform};
use crate::outside::{hex_encode, hex_lower, push_char};
use crate::span::Span;
use crate::literal::continuation_at;
use crate::token::{Delim, Tok};

verus! {

pub open spec fn digit_char(d: nat) -> char {
    (d + 48) as char
}

/// The decimal digits of `n`.
pub open spec fn dec_chars(n: nat) -> Seq<char>
    decreases n,
{
    if n < 10 {
        seq![digit_char(n)]
    } else {
        dec_chars(n / 10).push(digit_char(n % 10))
    }
}

/// The source text of a `u8`-suffixed literal: `12u8`.
pub open spec fn byte_repr(b: u8) -> Seq<char> {
    dec_chars(b as nat) + seq!['u', '8']
}

/// Hex text has two digits per byte.
pub proof fn lemma_hex_lower_len(d: Seq<u8>)
    ensures
        hex_lower(d).len() == 2 * d.len(),
    decreases d.len(),
{
    if d.len() > 0 {
        lemma_hex_lower_len(d.drop_last());
    }
}

/// The source text of a string literal holding the hex text of `d`.
pub open spec fn hex_repr(d: Seq<u8>) -> Seq<char> {
    seq!['"'] + hex_lower(d) + seq!['"']
}

pub open spec fn lit_is(t: Tok, repr: Seq<char>, span: Span) -> bool {
    t matches Tok::Lit { repr: r, span: s } && r@ == repr && s == span
}

pub open spec fn comma(span: Span) -> Tok {
    Tok::Punct { ch: ',', joint: false, span }
}

/// `items` lists the bytes of `d` as `u8` literals separated by commas.
pub open spec fn byte_items(items: Seq<Tok>, d: Seq<u8>, span: Span) -> bool {
    &&& items.len() == if d.len() == 0 {
        0
    } else {
        2 * d.len() - 1
    }
    &&& forall|i: int| 0 <= i < d.len() ==> lit_is(#[trigger] items[2 * i], byte_repr(d[i]), span)
    &&& forall|i: int| 0 <= i < d.len() - 1 ==> #[trigger] items[2 * i + 1] == comma(span)
}

/// `t` is the array literal `[b0, b1, ...]` of `d`, spanned with `span`.
pub open spec fn raw_token(t: Tok, d: Seq<u8>, span: Span) -> bool {
    t matches Tok::Group { delim, body, span: s } && delim == Delim::Bracket && s == span
        && byte_items(body@, d, span)
}

/// `t` is the string literal of the hex text of `d`, spanned with `span`.
pub open spec fn hex_token(t: Tok, d: Seq<u8>, span: Span) -> bool {
    lit_is(t, hex_repr(d), span)
}

/// The arguments of a continuation after the literal is put first: a comma
/// when arguments follow, then those arguments as written.
pub open spec fn after_first(tokens: Seq<Tok>, span: Span) -> Seq<Tok> {
    if tokens.len() == 0 {
        seq![]
    } else {
        seq![comma(span)] + tokens
    }
}

/// `out` is `lit` handed as first argument to `cb`, or `lit` alone.
pub open spec fn threaded(out: Seq<Tok>, lit: Tok, cb: Option<Continuation>) -> bool {
    match cb {
        None => out == seq![lit],
        Some(c) => {
            let n = c.path@.len() as int;
            &&& out.len() == n + 2
            &&& out.subrange(0, n) == c.path@
            &&& out[n] == Tok::Punct { ch: '!', joint: false, span: c.bang }
            &&& out[n + 1] matches Tok::Group { delim, body, span } && delim == c.delim && span
                == c.span && body@ == seq![lit] + after_first(c.tokens@, lit.span_of())
        },
    }
}

fn digit(d: u8) -> (r: char)
    requires
        d < 10,
    ensures
        r == digit_char(d as nat),
{
    (d + 48) as char
}

/// The source text of `b` as a `u8`-suffixed literal.
pub fn byte_literal_text(b: u8) -> (r: String)
    ensures
        r@ == byte_repr(b),
{
    proof {
        reveal_with_fuel(dec_chars, 3);
    }
    let mut s = String::new();
    if b >= 100 {
        push_char(&mut s, digit(b / 100));
        push_char(&mut s, digit((b / 10) % 10));
    } else if b >= 10 {
        push_char(&mut s, digit(b / 10));
    }
    push_char(&mut s, digit(b % 10));
    push_char(&mut s, 'u');
    push_char(&mut s, '8');
    assert(s@ =~= byte_repr(b));
    s
}

/// The array literal `[b0, b1, ...]` of `d`.
pub fn raw_literal(d: &Vec<u8>, span: Span) -> (r: Tok)
    ensures
        raw_token(r, d@, span),
{
    let mut items: Vec<Tok> = Vec::new();
    let mut i: usize = 0;
    while i < d.len()
        invariant
            i <= d.len(),
            byte_items(items@, d@.take(i as int), span),
        decreases d.len() - i,
    {
        if i > 0 {
            items.push(Tok::Punct { ch: ',', joint: false, span });
        }
        let repr = byte_literal_text(d[i]);
        items.push(Tok::Lit { repr, span });
        i = i + 1;
        assert(byte_items(items@, d@.take(i as int), span)) by {
            let t = d@.take(i as int);
            assert forall|j: int| 0 <= j < t.len() implies lit_is(#[trigger] items@[2 * j], byte_repr(t[j]), span) by {
                if j < t.len() - 1 {
                    assert(d@.take(i as int - 1)[j] == t[j]);
                }
            }
        }
    }
    assert(d@.take(i as int) =~= d@);
    Tok::Group { delim: Delim::Bracket, body: items, span }
}

/// The string literal of the lowercase hex text of `d`.
pub fn hex_literal(d: &Vec<u8>, span: Span) -> (r: Tok)
    ensures
        hex_token(r, d@, span),
{
    let h = hex_encode(d);
    let mut s = String::new();
    push_char(&mut s, '"');
    let mut s = s.concat(h.as_str());
    push_char(&mut s, '"');
    assert(s@ =~= hex_repr(d@));
    Tok::Lit { repr: s, span }
}

/// Hands `lit` to the continuation as its first argument; without one,
/// `lit` alone.
pub fn thread(lit: Tok, cb: Option<Continuation>) -> (r: Vec<Tok>)
    ensures
        threaded(r@, lit, cb),
{
    match cb {
        None => {
            let r = vec![lit];
            assert(r@ =~= seq![lit]);
            r
        },
        Some(c) => {
            let Continuation { path, bang, delim, mut tokens, span } = c;
            let lspan = lit.span();
            let mut body: Vec<Tok> = Vec::new();
            body.push(lit);
            if tokens.len() > 0 {
                body.push(Tok::Punct { ch: ',', joint: false, span: lspan });
            }
            body.append(&mut tokens);
            assert(body@ =~= seq![lit] + after_first(c.tokens@, lspan));
            let mut out = path;
            out.push(Tok::Punct { ch: '!', joint: false, span: bang });
            out.push(Tok::Group { delim, body, span });
            assert(out@.subrange(0, c.path@.len() as int) =~= c.path@);
            out
        },
    }
}

/// `out` is the digest of `bytes` under `alg`, as an array literal or as hex
/// text, spanned with `span` and handed to `cb`.
pub open spec fn emission(
    out: Seq<Tok>,
    bytes: Seq<u8>,
    span: Span,
    cb: Option<Continuation>,
    alg: Algorithm,
    hex: bool,
) -> bool {
    exists|t: Tok|
        (if hex {
            hex_token(t, digest_of(alg, bytes), span)
        } else {
            raw_token(t, digest_of(alg, bytes), span)
        }) && #[trigger] threaded(out, t, cb)
}

impl HashLiteral {
    /// The digest of the resolved bytes as an array literal of `u8`s,
    /// spanned with the literal's span and handed to the continuation.
    pub fn emit(self, alg: Algorithm) -> (r: Vec<Tok>)
        ensures
            emission(r@, self.lit.0@, self.lit.1, self.cb, alg, false),
            digest_of(alg, self.lit.0@).len() == digest_len(alg),
    {
        let HashLiteral { lit, cb } = self;
        let d = digest(alg, &lit.0);
        let t = raw_literal(&d, lit.1);
        let ghost g = t;
        let r = thread(t, cb);
        assert(threaded(r@, g, self.cb));
        r
    }

    /// The lowercase hex text of the digest as a string literal, spanned
    /// with the literal's span and handed to the continuation.
    pub fn emit_hex(self, alg: Algorithm) -> (r: Vec<Tok>)
        ensures
            emission(r@, self.lit.0@, self.lit.1, self.cb, alg, true),
            digest_of(alg, self.lit.0@).len() == digest_len(alg),
            hex_lower(digest_of(alg, self.lit.0@)).len() == 2 * digest_len(alg),
    {
        let HashLiteral { lit, cb } = self;
        let d = digest(alg, &lit.0);
        let t = hex_literal(&d, lit.1);
        proof {
            lemma_hex_lower_len(d@);
        }
        let ghost g = t;
        let r = thread(t, cb);
        assert(threaded(r@, g, self.cb));
        r
    }
}

/// `out` is the expansion of `input`, whose literal resolved to `x`: the
/// digest of its bytes under `alg`, raw or as hex text, handed to the
/// continuation that `input` ends with, if any.
pub open spec fn expansion(
    out: Seq<Tok>,
    input: Seq<Tok>,
    x: (Seq<u8>, Span, Option<int>),
    alg: Algorithm,
    hex: bool,
) -> bool {
    exists|t: Tok, cb: Option<Continuation>|
        (if hex {
            hex_token(t, digest_of(alg, x.0), x.1)
        } else {
            raw_token(t, digest_of(alg, x.0), x.1)
        }) && #[trigger] threaded(out, t, cb) && match (cb, x.2) {
            (None, None) => true,
            (Some(c), Some(a)) => crate::literal::continuation_at(c, input, a),
            _ => false,
        }
}

/// What one macro invocation expands to: the input resolved with
/// `handlers`, its digest under `alg` emitted raw or as hex text.
pub fn expand(
    input: Vec<Tok>,
    handlers: &Vec<Handler>,
    files: &Vec<FileEntry>,
    alg: Algorithm,
    hex: bool,
) -> (r: Result<Vec<Tok>, ParseError>)
    ensures
        r is Ok <==> literal_spec(input@, handlers@, files@) is Ok,
        r matches Err(e) ==> literal_spec(input@, handlers@, files@) == Err::<
            (Seq<u8>, Span, Option<int>),
            crate::error::ErrorView,
        >(e@),
        r matches Ok(out) ==> expansion(
            out@,
            input@,
            literal_spec(input@, handlers@, files@)->Ok_0,
            alg,
            hex,
        ),
{
    let ghost toks = input@;
    match HashLiteral::parse_with_handlers(input, handlers, files) {
        Err(e) => Err(e),
        Ok(h) => {
            let ghost cb = h.cb;
            let ghost lit = h.lit;
            let out = if hex {
                h.emit_hex(alg)
            } else {
                h.emit(alg)
            };
            let ghost t = if hex {
                choose|t: Tok| hex_token(t, digest_of(alg, lit.0@), lit.1) && #[trigger] threaded(out@, t, cb)
            } else {
                choose|t: Tok| raw_token(t, digest_of(alg, lit.0@), lit.1) && #[trigger] threaded(out@, t, cb)
            };
            let ghost x = literal_spec(toks, handlers@, files@)->Ok_0;
            assert(expansion(out@, toks, x, alg, hex)) by {
                assert(threaded(out@, t, cb));
            }
            Ok(out)
        },
    }
}

/// The handlers that both SHA3 entry points recognise: each SHA3 literal
/// macro, raw and hex, nested by name.
pub fn sha3_handlers() -> (r: Vec<Handler>)
    ensures
        r@.len() == 4,
        r@[0].name@ == "sha3_literal"@ && r@[0].transform == Transform::Digest(Algorithm::Sha3_256),
        r@[1].name@ == "sha3_hex_literal"@ && r@[1].transform == Transform::HexDigest(
            Algorithm::Sha3_256,
        ),
        r@[2].name@ == "sha3_512_literal"@ && r@[2].transform == Transform::Digest(
            Algorithm::Sha3_512,
        ),
        r@[3].name@ == "sha3_512_hex_literal"@ && r@[3].transform == Transform::HexDigest(
            Algorithm::Sha3_512,
        ),
{
    let mut r: Vec<Handler> = Vec::new();
    r.push(Handler { name: String::from_str("sha3_literal"), transform: Transform::Digest(Algorithm::Sha3_256) });
    r.push(Handler { name: String::from_str("sha3_hex_literal"), transform: Transform::HexDigest(Algorithm::Sha3_256) });
    r.push(Handler { name: String::from_str("sha3_512_literal"), transform: Transform::Digest(Algorithm::Sha3_512) });
    r.push(Handler { name: String::from_str("sha3_512_hex_literal"), transform: Transform::HexDigest(Algorithm::Sha3_512) });
    r
}

} // verus!
