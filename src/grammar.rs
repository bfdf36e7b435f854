use vstd::prelude::*;

use crate::error::{ErrorKindView, ErrorView};
use crate::outside::{byte_literal_value, byte_str_literal_bytes, int_literal_u8, str_literal_bytes};
use crate::registry::{find_spec, lookup_spec, transform_spec, FileData, FileEntry, Handler, IncludeMode};
use crate::span::{merge_all_spec, Span};
use crate::token::{Delim, Tok};
use vstd::utf8::encode_utf8;

verus! {

/// The outcome of resolving at one position: the bytes, their span and the
/// position after the consumed tokens; or the failure.
pub type Step = Result<(Seq<u8>, Span, int), ErrorView>;

pub open spec fn fail(kind: ErrorKindView, span: Span) -> Step {
    Err(ErrorView { kind, span })
}

/// The span a failure at `pos` is attributed to: the next token's, or `end`
/// when no token is left.
pub open spec fn here(toks: Seq<Tok>, pos: int, lim: int, end: Span) -> Span {
    if 0 <= pos < lim && pos < toks.len() {
        toks[pos].span_of()
    } else {
        end
    }
}

pub open spec fn is_punct(t: Tok, c: char) -> bool {
    t matches Tok::Punct { ch, .. } && ch == c
}

pub open spec fn is_joint_punct(t: Tok, c: char) -> bool {
    t matches Tok::Punct { ch, joint, .. } && ch == c && joint
}

/// A group with a visible delimiter, as a macro body needs.
pub open spec fn is_delimited(t: Tok) -> bool {
    t matches Tok::Group { delim, .. } && delim != Delim::Invisible
}

/// The bytes of a literal token: a string, byte string, byte, or an integer
/// that fits in a byte, tried in that order.
pub open spec fn literal_bytes(repr: Seq<char>) -> Option<Seq<u8>> {
    match str_literal_bytes(repr) {
        Some(b) => Some(b),
        None => match byte_str_literal_bytes(repr) {
            Some(b) => Some(b),
            None => match byte_literal_value(repr) {
                Some(v) => Some(seq![v]),
                None => match int_literal_u8(repr) {
                    Some(v) => Some(seq![v]),
                    None => None,
                },
            },
        },
    }
}

/// Splits `body` at commas from position `i` on; the current element began
/// at `start`.
pub open spec fn seg_scan(body: Seq<Tok>, i: int, start: int) -> Seq<(int, int)>
    decreases body.len() - i,
{
    if i >= body.len() {
        seq![(start, body.len() as int)]
    } else if is_punct(body[i], ',') {
        seq![(start, i)] + seg_scan(body, i + 1, i + 1)
    } else {
        seg_scan(body, i + 1, start)
    }
}

/// The ranges of the comma-separated elements of an array body; one trailing
/// comma is allowed.
pub open spec fn elements(body: Seq<Tok>) -> Seq<(int, int)> {
    if body.len() == 0 {
        seq![]
    } else {
        let s = seg_scan(body, 0, 0);
        if s.len() > 1 && s.last().0 == body.len() {
            s.drop_last()
        } else {
            s
        }
    }
}

/// Concatenation of byte sequences, in order.
pub open spec fn concat_all(s: Seq<Seq<u8>>) -> Seq<u8>
    decreases s.len(),
{
    if s.len() == 0 {
        seq![]
    } else {
        concat_all(s.drop_last()) + s.last()
    }
}

pub open spec fn step_bytes(r: Step) -> Seq<u8> {
    match r {
        Ok(x) => x.0,
        Err(_) => seq![],
    }
}

pub open spec fn step_span(r: Step) -> Span {
    match r {
        Ok(x) => x.1,
        Err(_) => Span::CallSite,
    }
}

pub open spec fn all_bytes(rs: Seq<Step>) -> Seq<Seq<u8>> {
    rs.map_values(|r: Step| step_bytes(r))
}

pub open spec fn all_spans(rs: Seq<Step>) -> Seq<Span> {
    rs.map_values(|r: Step| step_span(r))
}

/// Each element resolved and consumed its whole range.
pub open spec fn all_consumed(rs: Seq<Step>, segs: Seq<(int, int)>) -> bool {
    rs.len() == segs.len() && forall|k: int|
        0 <= k < rs.len() ==> (#[trigger] rs[k] matches Ok(x) && x.2 == segs[k].1)
}

/// The first element at or after `k` that does not resolve and consume its
/// whole range; the number of elements when there is none.
pub open spec fn first_bad(rs: Seq<Step>, segs: Seq<(int, int)>, k: int) -> int
    decreases rs.len() - k,
{
    if k < 0 || k >= rs.len() {
        rs.len() as int
    } else if rs[k] matches Ok(x) && x.2 == segs[k].1 {
        first_bad(rs, segs, k + 1)
    } else {
        k
    }
}

/// How an array fails when `r` is the result of its first element that does
/// not resolve: a request for a file is passed on, anything else is a
/// grammar mismatch at the array.
pub open spec fn array_failure(r: Step, span: Span) -> Step {
    match r {
        Err(e) => if e.kind is Unread {
            Err(e)
        } else {
            fail(ErrorKindView::Expected, span)
        },
        Ok(_) => fail(ErrorKindView::Expected, span),
    }
}

/// The string literal that forms the whole body of a file form: its decoded
/// bytes and span.
pub open spec fn path_literal(body: Seq<Tok>, gspan: Span) -> Result<(Seq<u8>, Span), ErrorView> {
    if body.len() == 0 {
        Err(ErrorView { kind: ErrorKindView::ExpectedString, span: gspan })
    } else {
        match body[0] {
            Tok::Lit { repr, span } => match str_literal_bytes(repr@) {
                Some(p) => if body.len() == 1 {
                    Ok((p, span))
                } else {
                    Err(ErrorView { kind: ErrorKindView::Unexpected, span: body[1].span_of() })
                },
                None => Err(ErrorView { kind: ErrorKindView::ExpectedString, span }),
            },
            _ => Err(ErrorView { kind: ErrorKindView::ExpectedString, span: body[0].span_of() }),
        }
    }
}

pub open spec fn bytes_name() -> Seq<char> {
    "include_bytes"@
}

pub open spec fn str_name() -> Seq<char> {
    "include_str"@
}

pub open spec fn source_name() -> Seq<char> {
    "inc"@ + "lude"@
}

/// Whether `toks[i..b]` is a list of identifiers joined by `::`.
pub open spec fn segs_ok(toks: Seq<Tok>, i: int, b: int) -> bool
    decreases b - i,
{
    if i < 0 || i >= b || b > toks.len() {
        false
    } else if !(toks[i] is Ident) {
        false
    } else if i + 1 == b {
        true
    } else {
        i + 3 <= b && is_joint_punct(toks[i + 1], ':') && is_punct(toks[i + 2], ':') && segs_ok(
            toks,
            i + 3,
            b,
        )
    }
}

/// Whether `toks[a..b]` is a path: identifiers joined by `::`, with an
/// optional leading `::`.
pub open spec fn path_ok(toks: Seq<Tok>, a: int, b: int) -> bool {
    if a + 2 <= b && is_joint_punct(toks[a], ':') && is_punct(toks[a + 1], ':') {
        segs_ok(toks, a + 2, b)
    } else {
        segs_ok(toks, a, b)
    }
}

/// Whether `toks[a..]` is a macro call `path!(...)` that ends the input.
pub open spec fn continuation_ok(toks: Seq<Tok>, a: int) -> bool {
    let n = toks.len() as int;
    a + 3 <= n && path_ok(toks, a, n - 2) && is_punct(toks[n - 2], '!') && is_delimited(toks[n - 1])
}

/// What may follow the resolved literal at `q`: nothing, or `=>` and a
/// continuation, whose first position is returned.
pub open spec fn tail_spec(toks: Seq<Tok>, q: int) -> Result<Option<int>, ErrorView> {
    if q >= toks.len() {
        Ok(None)
    } else if is_joint_punct(toks[q], '=') && q + 1 < toks.len() && is_punct(toks[q + 1], '>') {
        if continuation_ok(toks, q + 2) {
            Ok(Some(q + 2))
        } else {
            Err(
                ErrorView {
                    kind: ErrorKindView::ExpectedContinuation,
                    span: here(toks, q + 2, toks.len() as int, Span::CallSite),
                },
            )
        }
    } else {
        Err(ErrorView { kind: ErrorKindView::Unexpected, span: toks[q].span_of() })
    }
}

/// The results of resolving each element of an array body.
pub open spec fn array_steps(
    body: Seq<Tok>,
    hs: Seq<Handler>,
    files: Seq<FileEntry>,
    depth: nat,
) -> Seq<Step>
    decreases depth, 3nat,
{
    let segs = elements(body);
    Seq::new(
        segs.len(),
        |k: int| resolve_spec(body, segs[k].0, segs[k].1, Span::CallSite, hs, files, depth),
    )
}

/// What a whole token sequence resolves to: the literal at its start and the
/// tail after it. Only the bytes are kept.
pub open spec fn source_bytes(step: Step, toks: Seq<Tok>) -> Result<Seq<u8>, ErrorView> {
    match step {
        Err(e) => Err(e),
        Ok(x) => match tail_spec(toks, x.2) {
            Err(e) => Err(e),
            Ok(_) => Ok(x.0),
        },
    }
}

/// Resolution of a file form whose path literal has been read.
pub open spec fn file_step(
    mode: IncludeMode,
    p: Seq<u8>,
    pspan: Span,
    files: Seq<FileEntry>,
    next: int,
    depth: nat,
) -> Step
    decreases depth, 0nat,
{
    match find_spec(files, p, mode) {
        None => fail(ErrorKindView::Unread(p, mode), pspan),
        Some(i) => match files[i].data {
            FileData::Failed(m) => fail(ErrorKindView::Io(m@), pspan),
            FileData::Bytes(v) => if mode == IncludeMode::Bytes {
                Ok((v@, pspan, next))
            } else {
                fail(ErrorKindView::Unread(p, mode), pspan)
            },
            FileData::Text(s) => if mode == IncludeMode::Text {
                Ok((encode_utf8(s@), pspan, next))
            } else {
                fail(ErrorKindView::Unread(p, mode), pspan)
            },
            FileData::Tokens(t) => if mode == IncludeMode::Source {
                if depth == 0 {
                    fail(ErrorKindView::TooDeep, pspan)
                } else {
                    match source_bytes(
                        resolve_spec(t@, 0, t@.len() as int, Span::CallSite, seq![], files, (depth - 1) as nat),
                        t@,
                    ) {
                        Ok(b) => Ok((b, pspan, next)),
                        Err(e) => Err(e),
                    }
                }
            } else {
                fail(ErrorKindView::Unread(p, mode), pspan)
            },
        },
    }
}

/// Resolution of the named form `name!(body)` at `pos`.
pub open spec fn named_step(
    name: Seq<char>,
    nspan: Span,
    body: Seq<Tok>,
    gspan: Span,
    pos: int,
    hs: Seq<Handler>,
    files: Seq<FileEntry>,
    depth: nat,
) -> Step
    decreases depth, 1nat,
{
    if name == bytes_name() || name == str_name() || name == source_name() {
        let mode = if name == bytes_name() {
            IncludeMode::Bytes
        } else if name == str_name() {
            IncludeMode::Text
        } else {
            IncludeMode::Source
        };
        match path_literal(body, gspan) {
            Err(e) => Err(e),
            Ok((p, pspan)) => file_step(mode, p, pspan, files, pos + 3, depth),
        }
    } else {
        match lookup_spec(hs, name) {
            None => fail(ErrorKindView::Expected, nspan),
            Some(tr) => {
                if depth == 0 {
                    fail(ErrorKindView::TooDeep, gspan)
                } else {
                    match resolve_spec(body, 0, body.len() as int, gspan, hs, files, (depth - 1) as nat) {
                        Err(e) => Err(e),
                        Ok(x) => if x.2 < body.len() {
                            fail(ErrorKindView::Unexpected, body[x.2].span_of())
                        } else {
                            Ok((transform_spec(tr, x.0), x.1, pos + 3))
                        },
                    }
                }
            },
        }
    }
}

/// Resolution at `pos` of the tokens before `lim`: the first form of the
/// grammar that matches, or the failure. `depth` bounds the nesting.
pub open spec fn resolve_spec(
    toks: Seq<Tok>,
    pos: int,
    lim: int,
    end: Span,
    hs: Seq<Handler>,
    files: Seq<FileEntry>,
    depth: nat,
) -> Step
    decreases depth, 2nat,
{
    if pos < 0 || pos >= lim || lim > toks.len() {
        fail(ErrorKindView::Expected, end)
    } else {
        match toks[pos] {
            Tok::Lit { repr, span } => match literal_bytes(repr@) {
                Some(b) => Ok((b, span, pos + 1)),
                None => fail(ErrorKindView::Expected, span),
            },
            Tok::Group { delim, body, span } => {
                if delim == Delim::Invisible {
                    if depth == 0 {
                        fail(ErrorKindView::TooDeep, span)
                    } else {
                        match resolve_spec(body@, 0, body@.len() as int, span, hs, files, (depth - 1) as nat) {
                            Err(e) => Err(e),
                            Ok(x) => if x.2 < body@.len() {
                                fail(ErrorKindView::Unexpected, body@[x.2].span_of())
                            } else {
                                Ok((x.0, x.1, pos + 1))
                            },
                        }
                    }
                } else if delim != Delim::Bracket {
                    fail(ErrorKindView::Expected, span)
                } else if depth == 0 {
                    fail(ErrorKindView::TooDeep, span)
                } else {
                    let rs = array_steps(body@, hs, files, (depth - 1) as nat);
                    if all_consumed(rs, elements(body@)) {
                        Ok(
                            (
                                concat_all(all_bytes(rs)),
                                merge_all_spec(all_spans(rs)),
                                pos + 1,
                            ),
                        )
                    } else {
                        array_failure(rs[first_bad(rs, elements(body@), 0)], span)
                    }
                }
            },
            Tok::Ident { name, span } => {
                if pos + 2 < lim && is_punct(toks[pos + 1], '!') && is_delimited(toks[pos + 2]) {
                    match toks[pos + 2] {
                        Tok::Group { body, span: gspan, .. } => named_step(
                            name@,
                            span,
                            body@,
                            gspan,
                            pos,
                            hs,
                            files,
                            depth,
                        ),
                        _ => fail(ErrorKindView::Expected, span),
                    }
                } else {
                    fail(ErrorKindView::Expected, span)
                }
            },
            Tok::Punct { span, .. } => fail(ErrorKindView::Expected, span),
        }
    }
}

} // verus!
