use vstd::prelude::*;

use crate::error::{ErrorKind, ErrorView, ParseError};
use crate::grammar::{is_punct, resolve_spec, tail_spec};
use crate::registry::{FileEntry, Handler};
use crate::resolve::{resolve, tail};
use crate::span::Span;
use crate::token::{Delim, Tok};

verus! {

/// How deep forms may nest (arrays, named forms and file sources together).
pub const MAX_DEPTH: u32 = 128;

/// A trailing macro call `path!(tokens)` that receives the emitted literal
/// as its first argument.
#[derive(Debug)]
pub struct Continuation {
    pub path: Vec<Tok>,
    pub bang: Span,
    pub delim: Delim,
    pub tokens: Vec<Tok>,
    pub span: Span,
}

/// A resolved literal, with its span, and the continuation that follows it.
#[derive(Debug)]
pub struct HashLiteral {
    pub lit: (Vec<u8>, Span),
    pub cb: Option<Continuation>,
}

/// What a whole input resolves to: the bytes and span of its literal, and
/// where the continuation starts, if there is one.
pub open spec fn literal_spec(toks: Seq<Tok>, hs: Seq<Handler>, files: Seq<FileEntry>) -> Result<
    (Seq<u8>, Span, Option<int>),
    ErrorView,
> {
    match resolve_spec(toks, 0, toks.len() as int, Span::CallSite, hs, files, MAX_DEPTH as nat) {
        Err(e) => Err(e),
        Ok(x) => match tail_spec(toks, x.2) {
            Err(e) => Err(e),
            Ok(c) => Ok((x.0, x.1, c)),
        },
    }
}

/// `c` is the continuation that stands in `toks` from position `a` to the end.
pub open spec fn continuation_at(c: Continuation, toks: Seq<Tok>, a: int) -> bool {
    let n = toks.len() as int;
    &&& c.path@ == toks.subrange(a, n - 2)
    &&& toks[n - 2] matches Tok::Punct { span, .. } && span == c.bang
    &&& toks[n - 1] matches Tok::Group { delim, body, span } && delim == c.delim && body@
        == c.tokens@ && span == c.span
}

impl HashLiteral {
    /// Resolves a whole input with no handlers.
    pub fn parse(input: Vec<Tok>, files: &Vec<FileEntry>) -> (r: Result<HashLiteral, ParseError>)
        ensures
            match (r, literal_spec(input@, seq![], files@)) {
                (Ok(h), Ok(x)) => h.lit.0@ == x.0 && h.lit.1 == x.1 && match (h.cb, x.2) {
                    (None, None) => true,
                    (Some(c), Some(a)) => continuation_at(c, input@, a),
                    _ => false,
                },
                (Err(e), Err(v)) => e@ == v,
                _ => false,
            },
    {
        let none: Vec<Handler> = Vec::new();
        assert(none@ =~= seq![]);
        HashLiteral::parse_with_handlers(input, &none, files)
    }

    /// Resolves a whole input: a literal form, optionally followed by `=>`
    /// and a macro call, and nothing else.
    pub fn parse_with_handlers(input: Vec<Tok>, handlers: &Vec<Handler>, files: &Vec<FileEntry>) -> (r:
        Result<HashLiteral, ParseError>)
        ensures
            match (r, literal_spec(input@, handlers@, files@)) {
                (Ok(h), Ok(x)) => h.lit.0@ == x.0 && h.lit.1 == x.1 && match (h.cb, x.2) {
                    (None, None) => true,
                    (Some(c), Some(a)) => continuation_at(c, input@, a),
                    _ => false,
                },
                (Err(e), Err(v)) => e@ == v,
                _ => false,
            },
    {
        let mut input = input;
        let ghost toks = input@;
        let (bytes, span, q) = match resolve(
            &input,
            0,
            input.len(),
            Span::CallSite,
            handlers,
            files,
            MAX_DEPTH,
        ) {
            Ok(x) => x,
            Err(e) => {
                return Err(e);
            },
        };
        match tail(&input, q) {
            Err(e) => Err(e),
            Ok(None) => Ok(HashLiteral { lit: (bytes, span), cb: None }),
            Ok(Some(a)) => {
                let group = input.pop();
                let bang = input.pop();
                let path = input.split_off(a);
                assert(path@ == toks.subrange(a as int, toks.len() - 2));
                match (group, bang) {
                    (Some(Tok::Group { delim, body, span: gspan }), Some(Tok::Punct { span: bspan, .. })) => {
                        let c = Continuation { path, bang: bspan, delim, tokens: body, span: gspan };
                        Ok(HashLiteral { lit: (bytes, span), cb: Some(c) })
                    },
                    _ => {
                        proof {
                            assert(is_punct(toks[toks.len() - 2], '!'));
                        }
                        Err(ParseError { kind: ErrorKind::ExpectedContinuation, span: Span::CallSite })
                    },
                }
            },
        }
    }
}

/// Resolves the literal form at `*pos`, with the given handlers; on success
/// `*pos` moves past it, on failure it stays.
pub fn parse_bytes_with_handlers(
    input: &Vec<Tok>,
    pos: &mut usize,
    handlers: &Vec<Handler>,
    files: &Vec<FileEntry>,
) -> (r: Result<(Vec<u8>, Span), ParseError>)
    ensures
        ({
            let s = resolve_spec(
                input@,
                *old(pos) as int,
                input@.len() as int,
                Span::CallSite,
                handlers@,
                files@,
                MAX_DEPTH as nat,
            );
            match r {
                Ok(x) => s == Ok::<(Seq<u8>, Span, int), ErrorView>((x.0@, x.1, *final(pos) as int)),
                Err(e) => s == Err::<(Seq<u8>, Span, int), ErrorView>(e@) && *final(pos) == *old(pos),
            }
        }),
{
    match resolve(input, *pos, input.len(), Span::CallSite, handlers, files, MAX_DEPTH) {
        Ok((b, s, q)) => {
            *pos = q;
            Ok((b, s))
        },
        Err(e) => Err(e),
    }
}

/// Resolves the literal form at `*pos` with no handlers.
pub fn parse_bytes(input: &Vec<Tok>, pos: &mut usize, files: &Vec<FileEntry>) -> (r: Result<
    (Vec<u8>, Span),
    ParseError,
>)
    ensures
        ({
            let s = resolve_spec(
                input@,
                *old(pos) as int,
                input@.len() as int,
                Span::CallSite,
                seq![],
                files@,
                MAX_DEPTH as nat,
            );
            match r {
                Ok(x) => s == Ok::<(Seq<u8>, Span, int), ErrorView>((x.0@, x.1, *final(pos) as int)),
                Err(e) => s == Err::<(Seq<u8>, Span, int), ErrorView>(e@) && *final(pos) == *old(pos),
            }
        }),
{
    let none: Vec<Handler> = Vec::new();
    assert(none@ =~= seq![]);
    parse_bytes_with_handlers(input, pos, &none, files)
}

} // verus!
