use vstd::prelude::*;

use crate::error::{ErrorKind, ParseError};
use crate::grammar::{
    all_bytes, all_consumed, all_spans, array_steps, concat_all, elements, fail, first_bad,
    file_step, here, is_delimited, is_joint_punct, is_punct, literal_bytes, named_step, path_literal,
    path_ok, resolve_spec, seg_scan, segs_ok, tail_spec, Step,
};
use crate::outside::{
    opt_bytes, read_byte_literal, read_byte_str_literal, read_int_literal, read_str_literal,
};
use crate::registry::{apply, find_file, FileData, FileEntry, Handler, IncludeMode, lookup};
use crate::span::{merge_all, merge_all_spec, Span};
use crate::token::{Delim, Tok};

verus! {

/// The view of an exec resolution result.
pub open spec fn step_of(r: Result<(Vec<u8>, Span, usize), ParseError>) -> Step {
    match r {
        Ok(x) => Ok((x.0@, x.1, x.2 as int)),
        Err(e) => Err(e@),
    }
}

pub open spec fn ranges_of(v: Seq<(usize, usize)>) -> Seq<(int, int)> {
    v.map_values(|p: (usize, usize)| (p.0 as int, p.1 as int))
}

fn err(kind: ErrorKind, span: Span) -> (r: Result<(Vec<u8>, Span, usize), ParseError>)
    ensures
        step_of(r) == fail(kind@, span),
{
    Err(ParseError { kind, span })
}

fn span_at(toks: &Vec<Tok>, pos: usize, lim: usize, end: Span) -> (r: Span)
    ensures
        r == here(toks@, pos as int, lim as int, end),
{
    if pos < lim && pos < toks.len() {
        toks[pos].span()
    } else {
        end
    }
}

fn punct_is(t: &Tok, c: char) -> (r: bool)
    ensures
        r == is_punct(*t, c),
{
    match t {
        Tok::Punct { ch, .. } => *ch == c,
        _ => false,
    }
}

fn joint_punct_is(t: &Tok, c: char) -> (r: bool)
    ensures
        r == is_joint_punct(*t, c),
{
    match t {
        Tok::Punct { ch, joint, .. } => *ch == c && *joint,
        _ => false,
    }
}

/// The bytes of one literal token, if it is a literal of the grammar.
fn read_literal(repr: &String) -> (r: Option<Vec<u8>>)
    ensures
        opt_bytes(r) == literal_bytes(repr@),
{
    if let Some(b) = read_str_literal(repr) {
        return Some(b);
    }
    if let Some(b) = read_byte_str_literal(repr) {
        return Some(b);
    }
    if let Some(v) = read_byte_literal(repr) {
        let r = vec![v];
        assert(r@ =~= seq![v]);
        return Some(r);
    }
    if let Some(v) = read_int_literal(repr) {
        let r = vec![v];
        assert(r@ =~= seq![v]);
        return Some(r);
    }
    None
}

pub proof fn lemma_seg_scan_bounds(body: Seq<Tok>, i: int, start: int)
    requires
        0 <= start <= i <= body.len(),
    ensures
        forall|k: int|
            0 <= k < seg_scan(body, i, start).len() ==> 0 <= (#[trigger] seg_scan(
                body,
                i,
                start,
            )[k]).0 <= seg_scan(body, i, start)[k].1 <= body.len(),
        seg_scan(body, i, start).len() >= 1,
    decreases body.len() - i,
{
    if i < body.len() {
        if is_punct(body[i], ',') {
            lemma_seg_scan_bounds(body, i + 1, i + 1);
            let rest = seg_scan(body, i + 1, i + 1);
            assert forall|k: int| 0 <= k < seg_scan(body, i, start).len() implies 0 <= (
            #[trigger] seg_scan(body, i, start)[k]).0 <= seg_scan(body, i, start)[k].1
                <= body.len() by {
                if k > 0 {
                    assert(seg_scan(body, i, start)[k] == rest[k - 1]);
                }
            }
        } else {
            lemma_seg_scan_bounds(body, i + 1, start);
        }
    }
}

/// The ranges of the elements of an array body.
fn element_ranges(body: &Vec<Tok>) -> (r: Vec<(usize, usize)>)
    ensures
        ranges_of(r@) == elements(body@),
        forall|k: int| 0 <= k < r@.len() ==> #[trigger] r@[k].0 <= r@[k].1 <= body@.len(),
{
    let mut out: Vec<(usize, usize)> = Vec::new();
    if body.len() == 0 {
        assert(ranges_of(out@) =~= elements(body@));
        return out;
    }
    let mut start: usize = 0;
    let mut i: usize = 0;
    proof {
        lemma_seg_scan_bounds(body@, 0, 0);
    }
    while i < body.len()
        invariant
            start <= i <= body.len(),
            ranges_of(out@) + seg_scan(body@, i as int, start as int) == seg_scan(body@, 0, 0),
            forall|k: int| 0 <= k < out@.len() ==> #[trigger] out@[k].0 <= out@[k].1 <= body@.len(),
        decreases body.len() - i,
    {
        if punct_is(&body[i], ',') {
            let ghost before = ranges_of(out@);
            out.push((start, i));
            assert(ranges_of(out@) =~= before + seq![(start as int, i as int)]);
            assert(seg_scan(body@, i as int, start as int) =~= seq![(start as int, i as int)]
                + seg_scan(body@, i as int + 1, i as int + 1));
            start = i + 1;
        }
        i = i + 1;
    }
    let ghost before = ranges_of(out@);
    out.push((start, i));
    assert(ranges_of(out@) =~= before + seq![(start as int, i as int)]);
    assert(ranges_of(out@) =~= seg_scan(body@, 0, 0));
    if out.len() > 1 && out[out.len() - 1].0 == body.len() {
        let ghost whole = out@;
        let _ = out.pop();
        assert(ranges_of(out@) =~= seg_scan(body@, 0, 0).drop_last());
        assert forall|k: int| 0 <= k < out@.len() implies #[trigger] out@[k].0 <= out@[k].1 <= body@.len() by {
            assert(out@[k] == whole[k]);
        }
    }
    out
}

/// The string literal that forms the whole body of a file form.
fn read_path_literal(body: &Vec<Tok>, gspan: Span) -> (r: Result<(Vec<u8>, Span), ParseError>)
    ensures
        match r {
            Ok(x) => path_literal(body@, gspan) == Ok::<(Seq<u8>, Span), crate::error::ErrorView>(
                (x.0@, x.1),
            ),
            Err(e) => path_literal(body@, gspan) == Err::<(Seq<u8>, Span), crate::error::ErrorView>(
                e@,
            ),
        },
{
    if body.len() == 0 {
        return Err(ParseError { kind: ErrorKind::ExpectedString, span: gspan });
    }
    match &body[0] {
        Tok::Lit { repr, span } => match read_str_literal(repr) {
            Some(p) => {
                if body.len() == 1 {
                    Ok((p, *span))
                } else {
                    Err(ParseError { kind: ErrorKind::Unexpected, span: body[1].span() })
                }
            },
            None => Err(ParseError { kind: ErrorKind::ExpectedString, span: *span }),
        },
        _ => Err(ParseError { kind: ErrorKind::ExpectedString, span: body[0].span() }),
    }
}

fn segs_ok_exec(toks: &Vec<Tok>, i: usize, b: usize) -> (r: bool)
    requires
        b <= toks.len(),
    ensures
        r == segs_ok(toks@, i as int, b as int),
    decreases b - i,
{
    if i >= b {
        return false;
    }
    if !matches!(toks[i], Tok::Ident { .. }) {
        return false;
    }
    if i + 1 == b {
        return true;
    }
    b - i >= 3 && joint_punct_is(&toks[i + 1], ':') && punct_is(&toks[i + 2], ':') && segs_ok_exec(
        toks,
        i + 3,
        b,
    )
}

fn path_ok_exec(toks: &Vec<Tok>, a: usize, b: usize) -> (r: bool)
    requires
        a <= b <= toks.len(),
    ensures
        r == path_ok(toks@, a as int, b as int),
{
    if b - a >= 2 && joint_punct_is(&toks[a], ':') && punct_is(&toks[a + 1], ':') {
        segs_ok_exec(toks, a + 2, b)
    } else {
        segs_ok_exec(toks, a, b)
    }
}

fn delimited(t: &Tok) -> (r: bool)
    ensures
        r == is_delimited(*t),
{
    match t {
        Tok::Group { delim, .. } => *delim != Delim::Invisible,
        _ => false,
    }
}

/// Checks what follows the resolved literal at `q`: nothing, or `=>` and a
/// macro call that ends the input.
pub fn tail(toks: &Vec<Tok>, q: usize) -> (r: Result<Option<usize>, ParseError>)
    ensures
        match r {
            Ok(c) => tail_spec(toks@, q as int) == Ok::<Option<int>, crate::error::ErrorView>(
                match c {
                    Some(a) => Some(a as int),
                    None => None,
                },
            ),
            Err(e) => tail_spec(toks@, q as int) == Err::<Option<int>, crate::error::ErrorView>(e@),
        },
{
    let n = toks.len();
    if q >= n {
        return Ok(None);
    }
    if joint_punct_is(&toks[q], '=') && q + 1 < n && punct_is(&toks[q + 1], '>') {
        let a = q + 2;
        if n - a >= 3 && path_ok_exec(toks, a, n - 2) && punct_is(&toks[n - 2], '!') && delimited(
            &toks[n - 1],
        ) {
            Ok(Some(a))
        } else {
            Err(ParseError { kind: ErrorKind::ExpectedContinuation, span: span_at(toks, a, n, Span::CallSite) })
        }
    } else {
        Err(ParseError { kind: ErrorKind::Unexpected, span: toks[q].span() })
    }
}

/// Resolves each element of an array body. On failure, the request for a
/// file that the first failing element made, or `None` when it failed
/// otherwise.
fn resolve_array(body: &Vec<Tok>, hs: &Vec<Handler>, files: &Vec<FileEntry>, depth: u32) -> (r:
    Result<(Vec<u8>, Span), Option<ParseError>>)
    ensures
        ({
            let rs = array_steps(body@, hs@, files@, depth as nat);
            let j = first_bad(rs, elements(body@), 0);
            match r {
                Ok(x) => all_consumed(rs, elements(body@)) && x.0@ == concat_all(all_bytes(rs))
                    && x.1 == merge_all_spec(all_spans(rs)),
                Err(Some(e)) => !all_consumed(rs, elements(body@)) && rs[j] == Err::<
                    (Seq<u8>, Span, int),
                    crate::error::ErrorView,
                >(e@) && e@.kind is Unread,
                Err(None) => !all_consumed(rs, elements(body@)) && !(rs[j] matches Err(e)
                    && e.kind is Unread),
            }
        }),
    decreases depth, 3nat,
{
    let ghost rs = array_steps(body@, hs@, files@, depth as nat);
    let ghost segs = elements(body@);
    let ranges = element_ranges(body);
    assert(segs.len() == ranges@.len());
    assert(rs.len() == segs.len());
    let mut acc: Vec<u8> = Vec::new();
    let mut spans: Vec<Span> = Vec::new();
    let mut k: usize = 0;
    while k < ranges.len()
        invariant
            k <= ranges@.len() == segs.len() == rs.len(),
            ranges_of(ranges@) == segs,
            rs == array_steps(body@, hs@, files@, depth as nat),
            segs == elements(body@),
            forall|j: int| 0 <= j < ranges@.len() ==> #[trigger] ranges@[j].0 <= ranges@[j].1 <= body@.len(),
            forall|j: int| 0 <= j < k ==> (#[trigger] rs[j] matches Ok(x) && x.2 == segs[j].1),
            first_bad(rs, segs, 0) == first_bad(rs, segs, k as int),
            acc@ == concat_all(all_bytes(rs).take(k as int)),
            spans@ == all_spans(rs).take(k as int),
        decreases ranges.len() - k,
    {
        let (a, b) = ranges[k];
        assert(segs[k as int] == (a as int, b as int));
        let r = resolve(body, a, b, Span::CallSite, hs, files, depth);
        assert(rs[k as int] == resolve_spec(body@, a as int, b as int, Span::CallSite, hs@, files@, depth as nat));
        match r {
            Ok((mut v, s, q)) => {
                if q != b {
                    return Err(None);
                }
                let ghost before = acc@;
                acc.append(&mut v);
                spans.push(s);
                proof {
                    assert(all_bytes(rs).take(k as int + 1).drop_last() =~= all_bytes(rs).take(k as int));
                    assert(spans@ =~= all_spans(rs).take(k as int + 1));
                }
                k = k + 1;
            },
            Err(e) => {
                if matches!(e.kind, ErrorKind::Unread { .. }) {
                    return Err(Some(e));
                }
                return Err(None);
            },
        }
    }
    assert(all_bytes(rs).take(k as int) =~= all_bytes(rs));
    assert(all_spans(rs).take(k as int) =~= all_spans(rs));
    let s = merge_all(&spans);
    Ok((acc, s))
}

/// Resolves a file form whose path literal has been read.
fn resolve_file(
    mode: IncludeMode,
    p: Vec<u8>,
    pspan: Span,
    files: &Vec<FileEntry>,
    next: usize,
    depth: u32,
) -> (r: Result<(Vec<u8>, Span, usize), ParseError>)
    ensures
        step_of(r) == file_step(mode, p@, pspan, files@, next as int, depth as nat),
    decreases depth, 0nat,
{
    match find_file(files, &p, mode) {
        None => err(ErrorKind::Unread { path: p, mode }, pspan),
        Some(i) => match &files[i].data {
            FileData::Failed(m) => err(ErrorKind::Io(m.clone()), pspan),
            FileData::Text(s) => {
                if mode == IncludeMode::Text {
                    Ok((vstd::slice::slice_to_vec(s.as_str().as_bytes()), pspan, next))
                } else {
                    err(ErrorKind::Unread { path: p, mode }, pspan)
                }
            },
            FileData::Bytes(v) => {
                if mode == IncludeMode::Bytes {
                    Ok((vstd::slice::slice_to_vec(v.as_slice()), pspan, next))
                } else {
                    err(ErrorKind::Unread { path: p, mode }, pspan)
                }
            },
            FileData::Tokens(t) => {
                if mode == IncludeMode::Source {
                    if depth == 0 {
                        return err(ErrorKind::TooDeep, pspan);
                    }
                    let none: Vec<Handler> = Vec::new();
                    assert(none@ =~= seq![]);
                    match resolve(t, 0, t.len(), Span::CallSite, &none, files, depth - 1) {
                        Err(e) => Err(e),
                        Ok((b, _, q)) => match tail(t, q) {
                            Err(e) => Err(e),
                            Ok(_) => Ok((b, pspan, next)),
                        },
                    }
                } else {
                    err(ErrorKind::Unread { path: p, mode }, pspan)
                }
            },
        },
    }
}

/// Resolves the named form `name!(body)` at `pos`.
fn resolve_named(
    name: &String,
    nspan: Span,
    body: &Vec<Tok>,
    gspan: Span,
    pos: usize,
    hs: &Vec<Handler>,
    files: &Vec<FileEntry>,
    depth: u32,
) -> (r: Result<(Vec<u8>, Span, usize), ParseError>)
    requires
        pos + 3 <= usize::MAX,
    ensures
        step_of(r) == named_step(name@, nspan, body@, gspan, pos as int, hs@, files@, depth as nat),
    decreases depth, 1nat,
{
    let bytes_form = String::from_str("include_bytes");
    let str_form = String::from_str("include_str");
    let source_form = String::from_str("inc").concat("lude");
    if *name == bytes_form || *name == str_form || *name == source_form {
        let mode = if *name == bytes_form {
            IncludeMode::Bytes
        } else if *name == str_form {
            IncludeMode::Text
        } else {
            IncludeMode::Source
        };
        match read_path_literal(body, gspan) {
            Err(e) => Err(e),
            Ok((p, pspan)) => resolve_file(mode, p, pspan, files, pos + 3, depth),
        }
    } else {
        match lookup(hs, name) {
            None => err(ErrorKind::Expected, nspan),
            Some(tr) => {
                if depth == 0 {
                    return err(ErrorKind::TooDeep, gspan);
                }
                match resolve(body, 0, body.len(), gspan, hs, files, depth - 1) {
                    Err(e) => Err(e),
                    Ok((b, s, q)) => {
                        if q < body.len() {
                            err(ErrorKind::Unexpected, body[q].span())
                        } else {
                            Ok((apply(tr, &b), s, pos + 3))
                        }
                    },
                }
            },
        }
    }
}

/// Resolves the form at `pos` among the tokens before `lim`.
pub(crate) fn resolve(
    toks: &Vec<Tok>,
    pos: usize,
    lim: usize,
    end: Span,
    hs: &Vec<Handler>,
    files: &Vec<FileEntry>,
    depth: u32,
) -> (r: Result<(Vec<u8>, Span, usize), ParseError>)
    requires
        lim <= toks.len(),
    ensures
        step_of(r) == resolve_spec(toks@, pos as int, lim as int, end, hs@, files@, depth as nat),
        r matches Ok(x) ==> pos < x.2 <= lim,
    decreases depth, 2nat,
{
    if pos >= lim {
        return err(ErrorKind::Expected, end);
    }
    match &toks[pos] {
        Tok::Lit { repr, span } => match read_literal(repr) {
            Some(b) => Ok((b, *span, pos + 1)),
            None => err(ErrorKind::Expected, *span),
        },
        Tok::Group { delim, body, span } => {
            if *delim == Delim::Invisible {
                if depth == 0 {
                    return err(ErrorKind::TooDeep, *span);
                }
                match resolve(body, 0, body.len(), *span, hs, files, depth - 1) {
                    Err(e) => Err(e),
                    Ok((b, s, q)) => {
                        if q < body.len() {
                            err(ErrorKind::Unexpected, body[q].span())
                        } else {
                            Ok((b, s, pos + 1))
                        }
                    },
                }
            } else if *delim != Delim::Bracket {
                err(ErrorKind::Expected, *span)
            } else if depth == 0 {
                err(ErrorKind::TooDeep, *span)
            } else {
                match resolve_array(body, hs, files, depth - 1) {
                    Ok((b, s)) => Ok((b, s, pos + 1)),
                    Err(Some(e)) => Err(e),
                    Err(None) => err(ErrorKind::Expected, *span),
                }
            }
        },
        Tok::Ident { name, span } => {
            if lim - pos > 2 && punct_is(&toks[pos + 1], '!') && delimited(&toks[pos + 2]) {
                match &toks[pos + 2] {
                    Tok::Group { body, span: gspan, .. } => {
                        let r = resolve_named(name, *span, body, *gspan, pos, hs, files, depth);
                        r
                    },
                    _ => err(ErrorKind::Expected, *span),
                }
            } else {
                err(ErrorKind::Expected, *span)
            }
        },
        Tok::Punct { span, .. } => err(ErrorKind::Expected, *span),
    }
}

} // verus!
