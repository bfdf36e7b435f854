use vstd::prelude::*;

use crate::error::{ErrorKindView, ErrorView};
use crate::grammar::{
    all_bytes, all_consumed, all_spans, array_steps, bytes_name, concat_all, elements,
    file_step, seg_scan, is_delimited, is_punct, literal_bytes, named_step, path_literal, resolve_spec, source_name, step_span,
    str_name, Step,
};
use crate::literal::literal_spec;
use crate::registry::{digest_of, find_spec, lookup_spec, FileData, Algorithm, FileEntry, Handler, IncludeMode, Transform};
use crate::resolve::lemma_seg_scan_bounds;
use crate::outside::str_literal_bytes;
use crate::span::{covers, lemma_merge_all_covers, merge_all_spec, Span};
use crate::emit::{byte_repr, comma, emission, hex_token, lit_is, raw_token, threaded};
use crate::literal::Continuation;
use crate::token::{same_tok, same_toks, Delim, Tok};

verus! {

/// Resolving the same input twice, with the same handlers and files, gives
/// the same bytes, span and continuation, and so the same digest.
pub proof fn lemma_determinism(
    a: Seq<Tok>,
    b: Seq<Tok>,
    hs: Seq<Handler>,
    files: Seq<FileEntry>,
    alg: Algorithm,
)
    requires
        a == b,
    ensures
        literal_spec(a, hs, files) == literal_spec(b, hs, files),
        literal_spec(a, hs, files) matches Ok(x) ==> literal_spec(b, hs, files) matches Ok(y)
            && digest_of(alg, x.0) == digest_of(alg, y.0),
{
}

/// The tokens of element `k` of an array body.
pub open spec fn element_tokens(body: Seq<Tok>, k: int) -> Seq<Tok> {
    body.subrange(elements(body)[k].0, elements(body)[k].1)
}

/// A token sequence resolved on its own from its start, as the public entry
/// points resolve an input.
pub open spec fn own_step(t: Seq<Tok>, hs: Seq<Handler>, files: Seq<FileEntry>, depth: nat) -> Step {
    resolve_spec(t, 0, t.len() as int, Span::CallSite, hs, files, depth)
}

/// Each element of an array body, resolved on its own.
pub open spec fn own_results(body: Seq<Tok>, hs: Seq<Handler>, files: Seq<FileEntry>, depth: nat) -> Seq<Step> {
    Seq::new(elements(body).len(), |k: int| own_step(element_tokens(body, k), hs, files, depth))
}

/// Each element, resolved on its own, succeeds and consumes all its tokens.
pub open spec fn elements_resolve(body: Seq<Tok>, hs: Seq<Handler>, files: Seq<FileEntry>, depth: nat) -> bool {
    forall|k: int|
        0 <= k < elements(body).len() ==> (#[trigger] own_results(body, hs, files, depth)[k] matches Ok(x)
            && x.2 == element_tokens(body, k).len())
}

pub open spec fn is_array_at(toks: Seq<Tok>, pos: int, lim: int) -> bool {
    &&& 0 <= pos < lim <= toks.len()
    &&& toks[pos] matches Tok::Group { delim, .. } && delim == Delim::Bracket
}

pub proof fn lemma_elements_bounds(body: Seq<Tok>, k: int)
    requires
        0 <= k < elements(body).len(),
    ensures
        0 <= elements(body)[k].0 <= elements(body)[k].1 <= body.len(),
{
    lemma_seg_scan_bounds(body, 0, 0);
    let s = seg_scan(body, 0, 0);
    assert(s[k] == elements(body)[k]);
}

/// The in-place results of an array's elements are their results on their
/// own, when each of those succeeds.
proof fn lemma_array_own(body: Seq<Tok>, hs: Seq<Handler>, files: Seq<FileEntry>, d: nat)
    requires
        elements_resolve(body, hs, files, d),
    ensures
        all_consumed(array_steps(body, hs, files, d), elements(body)),
        all_bytes(array_steps(body, hs, files, d)) == all_bytes(own_results(body, hs, files, d)),
        all_spans(array_steps(body, hs, files, d)) == all_spans(own_results(body, hs, files, d)),
{
    let segs = elements(body);
    let rs = array_steps(body, hs, files, d);
    let own = own_results(body, hs, files, d);
    assert forall|k: int| 0 <= k < rs.len() implies #[trigger] rs[k] == shifted(own[k], segs[k].0) by {
        lemma_elements_bounds(body, k);
        lemma_resolve_own(body, segs[k].0, segs[k].1, Span::CallSite, hs, files, d);
    }
    assert forall|k: int| 0 <= k < rs.len() implies (#[trigger] rs[k] matches Ok(x) && x.2 == segs[k].1) by {
        assert(rs[k] == shifted(own[k], segs[k].0));
        assert(own[k] is Ok);
    }
    assert(all_bytes(rs) =~= all_bytes(own)) by {
        assert forall|k: int| 0 <= k < rs.len() implies all_bytes(rs)[k] == all_bytes(own)[k] by {
            assert(rs[k] == shifted(own[k], segs[k].0));
        }
    }
    assert(all_spans(rs) =~= all_spans(own)) by {
        assert forall|k: int| 0 <= k < rs.len() implies all_spans(rs)[k] == all_spans(own)[k] by {
            assert(rs[k] == shifted(own[k], segs[k].0));
        }
    }
}

/// An array whose elements each resolve on their own, consuming all their
/// tokens, with one level of nesting less than the array has, resolves to
/// the concatenation of the elements' bytes in order, with nothing between
/// them, and consumes the array.
pub proof fn lemma_array_concatenation(
    toks: Seq<Tok>,
    pos: int,
    lim: int,
    end: Span,
    hs: Seq<Handler>,
    files: Seq<FileEntry>,
    depth: nat,
)
    requires
        is_array_at(toks, pos, lim),
        depth > 0,
        elements_resolve(toks[pos]->Group_body@, hs, files, (depth - 1) as nat),
    ensures
        resolve_spec(toks, pos, lim, end, hs, files, depth) matches Ok(x) && x.0 == concat_all(
            all_bytes(own_results(toks[pos]->Group_body@, hs, files, (depth - 1) as nat)),
        ) && x.2 == pos + 1,
{
    lemma_array_own(toks[pos]->Group_body@, hs, files, (depth - 1) as nat);
}

/// Under the same conditions, the span of the array covers the span of each
/// element resolved on its own; the span of an empty array is the call site.
pub proof fn lemma_array_coverage(
    toks: Seq<Tok>,
    pos: int,
    lim: int,
    end: Span,
    hs: Seq<Handler>,
    files: Seq<FileEntry>,
    depth: nat,
)
    requires
        is_array_at(toks, pos, lim),
        depth > 0,
        elements_resolve(toks[pos]->Group_body@, hs, files, (depth - 1) as nat),
    ensures
        ({
            let own = own_results(toks[pos]->Group_body@, hs, files, (depth - 1) as nat);
            let r = resolve_spec(toks, pos, lim, end, hs, files, depth);
            &&& r is Ok
            &&& r->Ok_0.1 == merge_all_spec(all_spans(own))
            &&& forall|k: int| 0 <= k < own.len() ==> covers(r->Ok_0.1, step_span(#[trigger] own[k]))
            &&& own.len() == 0 ==> r->Ok_0.1 == Span::CallSite
        }),
{
    let own = own_results(toks[pos]->Group_body@, hs, files, (depth - 1) as nat);
    lemma_array_own(toks[pos]->Group_body@, hs, files, (depth - 1) as nat);
    let sp = all_spans(own);
    assert forall|k: int| 0 <= k < own.len() implies covers(
        merge_all_spec(sp),
        step_span(#[trigger] own[k]),
    ) by {
        lemma_merge_all_covers(sp, k);
    }
}

/// The form `name!(body)` at `pos`.
pub open spec fn is_named_form_at(toks: Seq<Tok>, pos: int, lim: int, name: Seq<char>) -> bool {
    &&& 0 <= pos && pos + 2 < lim <= toks.len()
    &&& toks[pos] matches Tok::Ident { name: n, .. } && n@ == name
    &&& is_punct(toks[pos + 1], '!')
    &&& is_delimited(toks[pos + 2])
}

/// A nested form whose name is registered with the digest of an algorithm
/// resolves to that digest of what its body resolves to on its own (with one
/// level of nesting less), with the body's span.
pub proof fn lemma_nested_digest(
    toks: Seq<Tok>,
    pos: int,
    lim: int,
    end: Span,
    name: Seq<char>,
    alg: Algorithm,
    hs: Seq<Handler>,
    files: Seq<FileEntry>,
    depth: nat,
)
    requires
        is_named_form_at(toks, pos, lim, name),
        name != bytes_name() && name != str_name() && name != source_name(),
        lookup_spec(hs, name) == Some(Transform::Digest(alg)),
        depth > 0,
        ({
            let body = toks[pos + 2]->Group_body@;
            own_step(body, hs, files, (depth - 1) as nat) matches Ok(x) && x.2 == body.len()
        }),
    ensures
        ({
            let inner = own_step(toks[pos + 2]->Group_body@, hs, files, (depth - 1) as nat)->Ok_0;
            resolve_spec(toks, pos, lim, end, hs, files, depth) == Ok::<(Seq<u8>, Span, int), ErrorView>(
                (digest_of(alg, inner.0), inner.1, pos + 3),
            )
        }),
{
    let g = toks[pos + 2];
    lemma_resolve_end(g->Group_body@, 0, g->Group_body@.len() as int, Span::CallSite, g->Group_span, hs, files, (depth - 1) as nat);
    match toks[pos] {
        Tok::Ident { name: n, span } => {
            assert(resolve_spec(toks, pos, lim, end, hs, files, depth) == named_step(
                n@,
                span,
                g->Group_body@,
                g->Group_span,
                pos,
                hs,
                files,
                depth,
            ));
        },
        _ => {},
    }
}

/// A literal token that is no string, byte string, byte, or integer that
/// fits in a byte (a float, say) matches no form: resolution fails there
/// with the grammar error, attributed to that token.
pub proof fn lemma_unmatched_literal(
    toks: Seq<Tok>,
    pos: int,
    lim: int,
    end: Span,
    hs: Seq<Handler>,
    files: Seq<FileEntry>,
    depth: nat,
)
    requires
        0 <= pos < lim <= toks.len(),
        toks[pos] matches Tok::Lit { repr, .. } && literal_bytes(repr@) is None,
    ensures
        resolve_spec(toks, pos, lim, end, hs, files, depth) == Err::<(Seq<u8>, Span, int), ErrorView>(
            ErrorView { kind: ErrorKindView::Expected, span: toks[pos].span_of() },
        ),
{
}

/// A result moved by `a` positions.
pub open spec fn shifted(r: Step, a: int) -> Step {
    match r {
        Ok(x) => Ok((x.0, x.1, x.2 + a)),
        Err(e) => Err(e),
    }
}

/// A named form gives the same result wherever it stands, but for the
/// position after it.
proof fn lemma_named_step_shift(
    name: Seq<char>,
    nspan: Span,
    body: Seq<Tok>,
    gspan: Span,
    p: int,
    a: int,
    hs: Seq<Handler>,
    files: Seq<FileEntry>,
    depth: nat,
)
    ensures
        named_step(name, nspan, body, gspan, p + a, hs, files, depth) == shifted(
            named_step(name, nspan, body, gspan, p, hs, files, depth),
            a,
        ),
{
    if name == bytes_name() || name == str_name() || name == source_name() {
        let mode = if name == bytes_name() {
            IncludeMode::Bytes
        } else if name == str_name() {
            IncludeMode::Text
        } else {
            IncludeMode::Source
        };
        match path_literal(body, gspan) {
            Err(e) => {},
            Ok((q, pspan)) => {
                assert(file_step(mode, q, pspan, files, p + a + 3, depth) == shifted(
                    file_step(mode, q, pspan, files, p + 3, depth),
                    a,
                ));
            },
        }
    }
}

/// Resolving at `a` before `b` is resolving the tokens `a..b` on their own,
/// with positions moved by `a`.
pub proof fn lemma_resolve_own(
    toks: Seq<Tok>,
    a: int,
    b: int,
    end: Span,
    hs: Seq<Handler>,
    files: Seq<FileEntry>,
    depth: nat,
)
    requires
        0 <= a <= b <= toks.len(),
    ensures
        resolve_spec(toks, a, b, end, hs, files, depth) == shifted(
            resolve_spec(toks.subrange(a, b), 0, b - a, end, hs, files, depth),
            a,
        ),
{
    let sub = toks.subrange(a, b);
    if a < b {
        assert(sub[0] == toks[a]);
        if a + 2 < b {
            assert(sub[1] == toks[a + 1]);
            assert(sub[2] == toks[a + 2]);
            match toks[a + 2] {
                Tok::Group { body, span: gspan, .. } => match toks[a] {
                    Tok::Ident { name, span } => {
                        lemma_named_step_shift(name@, span, body@, gspan, 0, a, hs, files, depth);
                    },
                    _ => {},
                },
                _ => {},
            }
        }
    }
}

/// A resolution that succeeds does not depend on the span given for the
/// end of the input.
pub proof fn lemma_resolve_end(
    toks: Seq<Tok>,
    pos: int,
    lim: int,
    e1: Span,
    e2: Span,
    hs: Seq<Handler>,
    files: Seq<FileEntry>,
    depth: nat,
)
    requires
        resolve_spec(toks, pos, lim, e1, hs, files, depth) is Ok,
    ensures
        resolve_spec(toks, pos, lim, e2, hs, files, depth) == resolve_spec(toks, pos, lim, e1, hs, files, depth),
{
}

proof fn lemma_file_step_deeper(
    mode: IncludeMode,
    q: Seq<u8>,
    pspan: Span,
    files: Seq<FileEntry>,
    next: int,
    depth: nat,
)
    requires
        file_step(mode, q, pspan, files, next, depth) is Ok,
    ensures
        file_step(mode, q, pspan, files, next, depth + 1) == file_step(mode, q, pspan, files, next, depth),
    decreases depth, 0nat,
{
    match find_spec(files, q, mode) {
        None => {},
        Some(i) => match files[i].data {
            FileData::Tokens(t) => {
                if mode == IncludeMode::Source && depth > 0 {
                    let r = resolve_spec(t@, 0, t@.len() as int, Span::CallSite, seq![], files, (depth - 1) as nat);
                    if r is Ok {
                        lemma_resolve_deeper(t@, 0, t@.len() as int, Span::CallSite, seq![], files, (depth - 1) as nat);
                    }
                }
            },
            _ => {},
        },
    }
}

proof fn lemma_named_step_deeper(
    name: Seq<char>,
    nspan: Span,
    body: Seq<Tok>,
    gspan: Span,
    pos: int,
    hs: Seq<Handler>,
    files: Seq<FileEntry>,
    depth: nat,
)
    requires
        named_step(name, nspan, body, gspan, pos, hs, files, depth) is Ok,
    ensures
        named_step(name, nspan, body, gspan, pos, hs, files, depth + 1) == named_step(name, nspan, body, gspan, pos, hs, files, depth),
    decreases depth, 1nat,
{
    if name == bytes_name() || name == str_name() || name == source_name() {
        let mode = if name == bytes_name() {
            IncludeMode::Bytes
        } else if name == str_name() {
            IncludeMode::Text
        } else {
            IncludeMode::Source
        };
        match path_literal(body, gspan) {
            Err(e) => {},
            Ok((q, pspan)) => {
                lemma_file_step_deeper(mode, q, pspan, files, pos + 3, depth);
            },
        }
    } else if lookup_spec(hs, name) is Some && depth > 0 {
        lemma_resolve_deeper(body, 0, body.len() as int, gspan, hs, files, (depth - 1) as nat);
    }
}

/// A resolution that succeeds gives the same result when more nesting is
/// allowed.
pub proof fn lemma_resolve_deeper(
    toks: Seq<Tok>,
    pos: int,
    lim: int,
    end: Span,
    hs: Seq<Handler>,
    files: Seq<FileEntry>,
    depth: nat,
)
    requires
        resolve_spec(toks, pos, lim, end, hs, files, depth) is Ok,
    ensures
        resolve_spec(toks, pos, lim, end, hs, files, depth + 1) == resolve_spec(toks, pos, lim, end, hs, files, depth),
    decreases depth, 2nat,
{
    if 0 <= pos < lim <= toks.len() {
        match toks[pos] {
            Tok::Group { delim, body, span } => {
                if delim == Delim::Invisible && depth > 0 {
                    lemma_resolve_deeper(body@, 0, body@.len() as int, span, hs, files, (depth - 1) as nat);
                }
                if delim == Delim::Bracket && depth > 0 {
                    let d = (depth - 1) as nat;
                    let segs = elements(body@);
                    let rs = array_steps(body@, hs, files, d);
                    let rs2 = array_steps(body@, hs, files, depth);
                    assert(all_consumed(rs, segs));
                    assert forall|k: int| 0 <= k < rs.len() implies #[trigger] rs2[k] == rs[k] by {
                        assert(rs[k] == resolve_spec(body@, segs[k].0, segs[k].1, Span::CallSite, hs, files, d));
                        assert(rs[k] is Ok);
                        lemma_resolve_deeper(body@, segs[k].0, segs[k].1, Span::CallSite, hs, files, d);
                    }
                    assert(rs2 =~= rs);
                }
            },
            Tok::Ident { name, span } => {
                if pos + 2 < lim && is_punct(toks[pos + 1], '!') && is_delimited(toks[pos + 2]) {
                    match toks[pos + 2] {
                        Tok::Group { body, span: gspan, .. } => {
                            lemma_named_step_deeper(name@, span, body@, gspan, pos, hs, files, depth);
                        },
                        _ => {},
                    }
                }
            },
            _ => {},
        }
    }
}

/// A text file form whose path the file table records as a failed read
/// fails with that read's error, attributed to the path literal: an I/O
/// error, not a grammar mismatch.
pub proof fn lemma_failed_read(
    toks: Seq<Tok>,
    pos: int,
    lim: int,
    end: Span,
    hs: Seq<Handler>,
    files: Seq<FileEntry>,
    depth: nat,
    path: Seq<u8>,
    i: int,
)
    requires
        is_named_form_at(toks, pos, lim, str_name()),
        toks[pos + 2]->Group_body@.len() == 1,
        toks[pos + 2]->Group_body@[0] matches Tok::Lit { repr, .. } && str_literal_bytes(repr@)
            == Some(path),
        0 <= i < files.len(),
        find_spec(files, path, IncludeMode::Text) == Some(i),
        files[i].data is Failed,
    ensures
        resolve_spec(toks, pos, lim, end, hs, files, depth) == Err::<(Seq<u8>, Span, int), ErrorView>(
            ErrorView {
                kind: ErrorKindView::Io(files[i].data->Failed_0@),
                span: toks[pos + 2]->Group_body@[0].span_of(),
            },
        ),
{
    reveal_strlit("include_str");
    reveal_strlit("include_bytes");
    reveal_strlit("inc");
    reveal_strlit("lude");
    assert(str_name() != bytes_name()) by {
        assert(str_name()[8] != bytes_name()[8]);
    }
    assert(str_name() != source_name()) by {
        assert(str_name().len() != source_name().len());
    }
    let g = toks[pos + 2];
    let body = g->Group_body@;
    let pspan = body[0].span_of();
    assert(path_literal(body, g->Group_span) == Ok::<(Seq<u8>, Span), ErrorView>((path, pspan)));
    let f = file_step(IncludeMode::Text, path, pspan, files, pos + 3, depth);
    assert(f == Err::<(Seq<u8>, Span, int), ErrorView>(
        ErrorView { kind: ErrorKindView::Io(files[i].data->Failed_0@), span: pspan },
    ));
    match toks[pos] {
        Tok::Ident { name, span } => {
            assert(named_step(name@, span, body, g->Group_span, pos, hs, files, depth) == f);
        },
        _ => {},
    }
}

/// Two continuations with the same contents.
pub open spec fn same_cb(a: Option<Continuation>, b: Option<Continuation>) -> bool {
    match (a, b) {
        (None, None) => true,
        (Some(x), Some(y)) => {
            &&& same_toks(x.path@, y.path@)
            &&& x.bang == y.bang
            &&& x.delim == y.delim
            &&& same_toks(x.tokens@, y.tokens@)
            &&& x.span == y.span
        },
        _ => false,
    }
}

proof fn lemma_emitted_same(t1: Tok, t2: Tok, d: Seq<u8>, span: Span, hex: bool)
    requires
        if hex {
            hex_token(t1, d, span) && hex_token(t2, d, span)
        } else {
            raw_token(t1, d, span) && raw_token(t2, d, span)
        },
    ensures
        same_tok(t1, t2),
{
    if !hex {
        let b1 = t1->Group_body@;
        let b2 = t2->Group_body@;
        assert forall|i: int| 0 <= i < b1.len() implies same_tok(#[trigger] b1[i], b2[i]) by {
            let j = i / 2;
            if i % 2 == 0 {
                assert(i == 2 * j);
                assert(lit_is(b1[2 * j], byte_repr(d[j]), span));
                assert(lit_is(b2[2 * j], byte_repr(d[j]), span));
            } else {
                assert(i == 2 * j + 1);
                assert(b1[2 * j + 1] == comma(span));
                assert(b2[2 * j + 1] == comma(span));
            }
        }
    }
}

proof fn lemma_threaded_same(
    out1: Seq<Tok>,
    out2: Seq<Tok>,
    t1: Tok,
    t2: Tok,
    cb1: Option<Continuation>,
    cb2: Option<Continuation>,
)
    requires
        threaded(out1, t1, cb1),
        threaded(out2, t2, cb2),
        same_tok(t1, t2),
        same_cb(cb1, cb2),
    ensures
        same_toks(out1, out2),
{
    assert(t1.span_of() == t2.span_of());
    match (cb1, cb2) {
        (Some(c1), Some(c2)) => {
            let n = c1.path@.len() as int;
            assert forall|i: int| 0 <= i < out1.len() implies #[trigger] same_tok(out1[i], out2[i]) by {
                if i < n {
                    assert(out1[i] == out1.subrange(0, n)[i]);
                    assert(out2[i] == out2.subrange(0, n)[i]);
                } else if i == n {
                } else {
                    let g1 = out1[n + 1];
                    let g2 = out2[n + 1];
                    let b1 = g1->Group_body@;
                    let b2 = g2->Group_body@;
                    let k = c1.tokens@.len();
                    assert forall|j: int| 0 <= j < b1.len() implies same_tok(#[trigger] b1[j], b2[j]) by {
                        if j == 0 {
                        } else if k > 0 && j == 1 {
                        } else {
                            assert(b1[j] == c1.tokens@[j - 2]);
                            assert(b2[j] == c2.tokens@[j - 2]);
                        }
                    }
                }
            }
        },
        _ => {},
    }
}

/// Emitting equal bytes, span and continuation gives the same tokens.
pub proof fn lemma_emission_determinism(
    out1: Seq<Tok>,
    out2: Seq<Tok>,
    bytes1: Seq<u8>,
    bytes2: Seq<u8>,
    span: Span,
    cb1: Option<Continuation>,
    cb2: Option<Continuation>,
    alg: Algorithm,
    hex: bool,
)
    requires
        bytes1 == bytes2,
        same_cb(cb1, cb2),
        emission(out1, bytes1, span, cb1, alg, hex),
        emission(out2, bytes2, span, cb2, alg, hex),
    ensures
        same_toks(out1, out2),
{
    let d = digest_of(alg, bytes1);
    let t1 = choose|t: Tok|
        (if hex {
            hex_token(t, d, span)
        } else {
            raw_token(t, d, span)
        }) && #[trigger] threaded(out1, t, cb1);
    let t2 = choose|t: Tok|
        (if hex {
            hex_token(t, d, span)
        } else {
            raw_token(t, d, span)
        }) && #[trigger] threaded(out2, t, cb2);
    lemma_emitted_same(t1, t2, d, span, hex);
    lemma_threaded_same(out1, out2, t1, t2, cb1, cb2);
}

} // verus!
