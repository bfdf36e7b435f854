use hash_literal::error::{ErrorKind, ParseError};
use hash_literal::literal::{parse_bytes, parse_bytes_with_handlers, HashLiteral, MAX_DEPTH};
use hash_literal::registry::{lookup, Algorithm, FileData, FileEntry, Handler, IncludeMode, Transform};
use hash_literal::span::{merge, merge_all, Span};
use hash_literal::token::{Delim, Tok};
use hash_literal::emit::sha3_handlers;
use sha3::Digest;

fn sp(i: u64) -> Span {
    Span::Range { lo: i, hi: i + 1 }
}

fn lit(repr: &str, i: u64) -> Tok {
    Tok::Lit { repr: repr.to_string(), span: sp(i) }
}

fn ident(name: &str, i: u64) -> Tok {
    Tok::Ident { name: name.to_string(), span: sp(i) }
}

fn punct(ch: char, joint: bool, i: u64) -> Tok {
    Tok::Punct { ch, joint, span: sp(i) }
}

fn group(delim: Delim, body: Vec<Tok>, i: u64) -> Tok {
    Tok::Group { delim, body, span: sp(i) }
}

fn array(body: Vec<Tok>, i: u64) -> Tok {
    group(Delim::Bracket, body, i)
}

fn call(name: &str, body: Vec<Tok>, i: u64) -> Vec<Tok> {
    vec![ident(name, i), punct('!', false, i + 1), group(Delim::Paren, body, i + 2)]
}

fn resolve_all(toks: &Vec<Tok>, hs: &Vec<Handler>, files: &Vec<FileEntry>) -> Result<(Vec<u8>, Span), ParseError> {
    let mut pos = 0usize;
    let r = parse_bytes_with_handlers(toks, &mut pos, hs, files);
    if r.is_ok() {
        assert_eq!(pos, toks.len());
    }
    r
}

fn no_files() -> Vec<FileEntry> {
    Vec::new()
}

#[test]
fn string_literal_gives_utf8_bytes() {
    let toks = vec![lit("\"abc\"", 0)];
    let (b, s) = resolve_all(&toks, &Vec::new(), &no_files()).unwrap();
    assert_eq!(b, vec![0x61, 0x62, 0x63]);
    assert_eq!(s, sp(0));
}

#[test]
fn string_literal_escapes_are_decoded() {
    let toks = vec![lit("\"a\\n\\u{e9}\"", 0)];
    let (b, _) = resolve_all(&toks, &Vec::new(), &no_files()).unwrap();
    assert_eq!(b, "a\n\u{e9}".as_bytes().to_vec());
}

#[test]
fn byte_string_and_byte_literals() {
    let toks = vec![lit("b\"x\\x00y\"", 3)];
    assert_eq!(resolve_all(&toks, &Vec::new(), &no_files()).unwrap(), (vec![b'x', 0, b'y'], sp(3)));
    let toks = vec![lit("b'z'", 4)];
    assert_eq!(resolve_all(&toks, &Vec::new(), &no_files()).unwrap(), (vec![b'z'], sp(4)));
}

#[test]
fn integer_literals_within_a_byte() {
    for (repr, v) in [("0", 0u8), ("255", 255), ("0x10", 16), ("7u8", 7)] {
        let toks = vec![lit(repr, 0)];
        assert_eq!(resolve_all(&toks, &Vec::new(), &no_files()).unwrap().0, vec![v]);
    }
}

#[test]
fn integer_out_of_range_is_no_match() {
    let toks = vec![lit("256", 5)];
    let e = resolve_all(&toks, &Vec::new(), &no_files()).unwrap_err();
    assert!(matches!(e.kind, ErrorKind::Expected));
    assert_eq!(e.span, sp(5));
}

#[test]
fn float_literal_is_grammar_mismatch_and_consumes_nothing() {
    let toks = vec![lit("1.5", 2)];
    let mut pos = 0usize;
    let e = parse_bytes(&toks, &mut pos, &no_files()).unwrap_err();
    assert!(matches!(e.kind, ErrorKind::Expected));
    assert_eq!(e.span, sp(2));
    assert_eq!(pos, 0);
}

#[test]
fn empty_input_is_grammar_mismatch_at_call_site() {
    let e = resolve_all(&Vec::new(), &Vec::new(), &no_files()).unwrap_err();
    assert!(matches!(e.kind, ErrorKind::Expected));
    assert_eq!(e.span, Span::CallSite);
}

#[test]
fn array_of_three_bytes() {
    let body = vec![lit("1", 1), punct(',', false, 2), lit("2", 3), punct(',', false, 4), lit("3", 5)];
    let toks = vec![array(body, 0)];
    let (b, s) = resolve_all(&toks, &Vec::new(), &no_files()).unwrap();
    assert_eq!(b, vec![1, 2, 3]);
    assert_eq!(s, Span::Range { lo: 1, hi: 6 });
    let expected: Vec<u8> = sha3::Sha3_256::digest([1u8, 2, 3]).to_vec();
    let out = HashLiteral::parse_with_handlers(toks_again_123(), &Vec::new(), &no_files()).unwrap().emit(Algorithm::Sha3_256);
    assert_eq!(array_bytes(&out[0]), expected);
}

fn toks_again_123() -> Vec<Tok> {
    let body = vec![lit("1", 1), punct(',', false, 2), lit("2", 3), punct(',', false, 4), lit("3", 5)];
    vec![array(body, 0)]
}

fn array_bytes(t: &Tok) -> Vec<u8> {
    match t {
        Tok::Group { delim: Delim::Bracket, body, .. } => body
            .iter()
            .filter_map(|t| match t {
                Tok::Lit { repr, .. } => Some(repr.trim_end_matches("u8").parse::<u8>().unwrap()),
                _ => None,
            })
            .collect(),
        _ => panic!("not an array"),
    }
}

#[test]
fn array_concatenates_mixed_elements() {
    let body = vec![
        lit("\"ab\"", 1),
        punct(',', false, 2),
        lit("b\"cd\"", 3),
        punct(',', false, 4),
        lit("b'e'", 5),
        punct(',', false, 6),
        array(vec![lit("102", 8)], 7),
    ];
    let toks = vec![array(body, 0)];
    let (b, s) = resolve_all(&toks, &Vec::new(), &no_files()).unwrap();
    assert_eq!(b, b"abcdef".to_vec());
    assert_eq!(s, Span::Range { lo: 1, hi: 9 });
}

#[test]
fn empty_array_has_call_site_span() {
    let toks = vec![array(Vec::new(), 4)];
    assert_eq!(resolve_all(&toks, &Vec::new(), &no_files()).unwrap(), (Vec::new(), Span::CallSite));
}

#[test]
fn array_trailing_comma_is_allowed() {
    let toks = vec![array(vec![lit("1", 1), punct(',', false, 2), lit("2", 3), punct(',', false, 4)], 0)];
    assert_eq!(resolve_all(&toks, &Vec::new(), &no_files()).unwrap().0, vec![1, 2]);
}

#[test]
fn array_with_bad_element_is_no_match() {
    let cases = vec![
        vec![punct(',', false, 1)],
        vec![lit("1", 1), lit("2", 2)],
        vec![lit("1", 1), punct(',', false, 2), lit("300", 3)],
    ];
    for body in cases {
        let toks = vec![array(body, 0)];
        let e = resolve_all(&toks, &Vec::new(), &no_files()).unwrap_err();
        assert!(matches!(e.kind, ErrorKind::Expected));
        assert_eq!(e.span, sp(0));
    }
}

#[test]
fn nesting_beyond_the_limit_fails() {
    let mut t = lit("1", 0);
    for i in 0..(MAX_DEPTH as u64 + 2) {
        t = array(vec![t], i + 1);
    }
    let toks = vec![t];
    assert!(resolve_all(&toks, &Vec::new(), &no_files()).is_err());
}

#[test]
fn nested_same_algorithm_equals_direct_digest() {
    let toks = call("sha3_literal", vec![lit("\"abc\"", 10)], 0);
    let (b, s) = resolve_all(&toks, &sha3_handlers(), &no_files()).unwrap();
    assert_eq!(b, sha3::Sha3_256::digest(b"abc").to_vec());
    assert_eq!(s, sp(10));
}

#[test]
fn nested_hex_handler_gives_hex_text() {
    let toks = call("sha3_hex_literal", vec![lit("\"abc\"", 10)], 0);
    let (b, _) = resolve_all(&toks, &sha3_handlers(), &no_files()).unwrap();
    assert_eq!(
        String::from_utf8(b).unwrap(),
        "3a985da74fe225b2045c172d6bd390bd855f086e3e9d525b46bfe24511431532"
    );
}

#[test]
fn nested_512_handler() {
    let toks = call("sha3_512_literal", vec![array(Vec::new(), 10)], 0);
    let (b, _) = resolve_all(&toks, &sha3_handlers(), &no_files()).unwrap();
    assert_eq!(b.len(), 64);
    assert_eq!(b, sha3::Sha3_512::digest(b"").to_vec());
}

#[test]
fn unknown_name_is_grammar_mismatch() {
    let toks = call("md5_literal", vec![lit("\"abc\"", 10)], 0);
    let e = resolve_all(&toks, &sha3_handlers(), &no_files()).unwrap_err();
    assert!(matches!(e.kind, ErrorKind::Expected));
    assert_eq!(e.span, sp(0));
    let e = resolve_all(&call("sha3_literal", vec![lit("\"abc\"", 10)], 0), &Vec::new(), &no_files()).unwrap_err();
    assert!(matches!(e.kind, ErrorKind::Expected));
}

#[test]
fn handler_body_with_leftover_tokens_fails_hard() {
    let toks = call("sha3_literal", vec![lit("\"a\"", 10), lit("\"b\"", 11)], 0);
    let e = resolve_all(&toks, &sha3_handlers(), &no_files()).unwrap_err();
    assert!(matches!(e.kind, ErrorKind::Unexpected));
    assert_eq!(e.span, sp(11));
}

#[test]
fn handler_body_error_propagates_unchanged() {
    let toks = call("sha3_literal", vec![lit("1.5", 10)], 0);
    let e = resolve_all(&toks, &sha3_handlers(), &no_files()).unwrap_err();
    assert!(matches!(e.kind, ErrorKind::Expected));
    assert_eq!(e.span, sp(10));
}

#[test]
fn lookup_first_match_wins_and_is_case_sensitive() {
    let hs = vec![
        Handler { name: "h".to_string(), transform: Transform::Digest(Algorithm::Sha3_256) },
        Handler { name: "h".to_string(), transform: Transform::Digest(Algorithm::Sha3_512) },
    ];
    assert_eq!(lookup(&hs, &"h".to_string()), Some(Transform::Digest(Algorithm::Sha3_256)));
    assert_eq!(lookup(&hs, &"H".to_string()), None);
}

fn entry(path: &str, mode: IncludeMode, data: FileData) -> FileEntry {
    FileEntry { path: path.as_bytes().to_vec(), mode, data }
}

#[test]
fn bytes_file_form_reads_table() {
    let files = vec![entry("data.bin", IncludeMode::Bytes, FileData::Bytes(vec![9, 8, 7]))];
    let toks = call("include_bytes", vec![lit("\"data.bin\"", 10)], 0);
    assert_eq!(resolve_all(&toks, &Vec::new(), &files).unwrap(), (vec![9, 8, 7], sp(10)));
}

#[test]
fn missing_text_file_is_io_error_at_path() {
    let files = vec![entry("missing.txt", IncludeMode::Text, FileData::Failed("No such file or directory".to_string()))];
    let toks = call("include_str", vec![lit("\"missing.txt\"", 10)], 0);
    let e = resolve_all(&toks, &Vec::new(), &files).unwrap_err();
    match e.kind {
        ErrorKind::Io(m) => assert_eq!(m, "No such file or directory"),
        other => panic!("unexpected {:?}", other),
    }
    assert_eq!(e.span, sp(10));
}

#[test]
fn unread_file_asks_for_a_read() {
    let toks = call("include_str", vec![lit("\"a.txt\"", 10)], 0);
    let e = resolve_all(&toks, &Vec::new(), &no_files()).unwrap_err();
    match e.kind {
        ErrorKind::Unread { path, mode } => {
            assert_eq!(path, b"a.txt".to_vec());
            assert_eq!(mode, IncludeMode::Text);
        },
        other => panic!("unexpected {:?}", other),
    }
    assert_eq!(e.span, sp(10));
}

#[test]
fn file_form_body_must_be_a_string() {
    let toks = call("include_bytes", vec![lit("1", 10)], 0);
    let e = resolve_all(&toks, &Vec::new(), &no_files()).unwrap_err();
    assert!(matches!(e.kind, ErrorKind::ExpectedString));
    assert_eq!(e.span, sp(10));
}

#[test]
fn source_file_form_resolves_file_tokens() {
    let name = format!("{}{}", "inc", "lude");
    let inner = vec![array(vec![lit("4", 0), punct(',', false, 0), lit("\"xy\"", 0)], 0)];
    let files = vec![entry("lit.rs", IncludeMode::Source, FileData::Tokens(inner))];
    let toks = call(&name, vec![lit("\"lit.rs\"", 10)], 0);
    assert_eq!(resolve_all(&toks, &sha3_handlers(), &files).unwrap(), (vec![4, b'x', b'y'], sp(10)));
}

#[test]
fn source_file_uses_no_handlers() {
    let name = format!("{}{}", "inc", "lude");
    let inner = call("sha3_literal", vec![lit("\"abc\"", 0)], 0);
    let files = vec![entry("lit.rs", IncludeMode::Source, FileData::Tokens(inner))];
    let toks = call(&name, vec![lit("\"lit.rs\"", 10)], 0);
    let e = resolve_all(&toks, &sha3_handlers(), &files).unwrap_err();
    assert!(matches!(e.kind, ErrorKind::Expected));
}

#[test]
fn resolution_is_deterministic() {
    let a = resolve_all(&toks_again_123(), &sha3_handlers(), &no_files()).unwrap();
    let b = resolve_all(&toks_again_123(), &sha3_handlers(), &no_files()).unwrap();
    assert_eq!(a, b);
}

#[test]
fn merge_covers_both() {
    assert_eq!(merge(sp(3), sp(7)), Span::Range { lo: 3, hi: 8 });
    assert_eq!(merge(sp(3), Span::CallSite), Span::CallSite);
    assert_eq!(merge_all(&Vec::new()), Span::CallSite);
    assert_eq!(merge_all(&vec![sp(5), sp(2), sp(9)]), Span::Range { lo: 2, hi: 10 });
}

#[test]
fn leftover_tokens_after_literal_fail() {
    let toks = vec![lit("1", 0), lit("2", 1)];
    let e = HashLiteral::parse_with_handlers(toks, &Vec::new(), &no_files()).unwrap_err();
    assert!(matches!(e.kind, ErrorKind::Unexpected));
    assert_eq!(e.span, sp(1));
}

#[test]
fn arrow_without_macro_call_fails() {
    let toks = vec![lit("1", 0), punct('=', true, 1), punct('>', false, 2), ident("f", 3)];
    let e = HashLiteral::parse_with_handlers(toks, &Vec::new(), &no_files()).unwrap_err();
    assert!(matches!(e.kind, ErrorKind::ExpectedContinuation));
    assert_eq!(e.span, sp(3));
}

#[test]
fn continuation_is_captured() {
    let mut toks = vec![lit("1", 0), punct('=', true, 1), punct('>', false, 2)];
    toks.extend(vec![punct(':', true, 3), punct(':', false, 4), ident("m", 5), punct(':', true, 6), punct(':', false, 7)]);
    toks.extend(call("f", vec![ident("y", 11)], 8));
    let h = HashLiteral::parse_with_handlers(toks, &Vec::new(), &no_files()).unwrap();
    assert_eq!(h.lit, (vec![1], sp(0)));
    let c = h.cb.unwrap();
    assert_eq!(c.path.len(), 6);
    assert_eq!(c.bang, sp(9));
    assert_eq!(c.delim, Delim::Paren);
    assert_eq!(c.span, sp(10));
    assert_eq!(c.tokens.len(), 1);
}

#[test]
fn file_form_in_array_asks_for_read_then_resolves() {
    let body = |_: ()| {
        let mut b = call("include_bytes", vec![lit("\"f.bin\"", 11)], 1);
        b.push(punct(',', false, 4));
        b.push(lit("7", 5));
        b
    };
    let toks = vec![array(body(()), 0)];
    let e = resolve_all(&toks, &Vec::new(), &no_files()).unwrap_err();
    match e.kind {
        ErrorKind::Unread { path, mode } => {
            assert_eq!(path, b"f.bin".to_vec());
            assert_eq!(mode, IncludeMode::Bytes);
        },
        other => panic!("unexpected {:?}", other),
    }
    assert_eq!(e.span, sp(11));
    let files = vec![entry("f.bin", IncludeMode::Bytes, FileData::Bytes(vec![1, 2]))];
    let toks = vec![array(body(()), 0)];
    assert_eq!(resolve_all(&toks, &Vec::new(), &files).unwrap().0, vec![1, 2, 7]);
}

#[test]
fn text_file_in_nested_array_resolves() {
    let inner = array(call("include_str", vec![lit("\"t.txt\"", 11)], 1), 0);
    let toks = call("sha3_literal", vec![inner], 20);
    let e = resolve_all(&toks, &sha3_handlers(), &no_files()).unwrap_err();
    assert!(matches!(e.kind, ErrorKind::Unread { mode: IncludeMode::Text, .. }));
    let files = vec![entry("t.txt", IncludeMode::Text, FileData::Text("hé".to_string()))];
    let inner = array(call("include_str", vec![lit("\"t.txt\"", 11)], 1), 0);
    let toks = call("sha3_literal", vec![inner], 20);
    let (b, _) = resolve_all(&toks, &sha3_handlers(), &files).unwrap();
    assert_eq!(b, sha3::Sha3_256::digest("hé".as_bytes()).to_vec());
}

#[test]
fn failed_element_before_file_request_is_mismatch() {
    let mut body = vec![lit("1.5", 1), punct(',', false, 2)];
    body.extend(call("include_bytes", vec![lit("\"f.bin\"", 11)], 3));
    let toks = vec![array(body, 0)];
    let e = resolve_all(&toks, &Vec::new(), &no_files()).unwrap_err();
    assert!(matches!(e.kind, ErrorKind::Expected));
    assert_eq!(e.span, sp(0));
}

#[test]
fn text_mode_takes_decoded_text_only() {
    let files = vec![entry("a.txt", IncludeMode::Text, FileData::Bytes(vec![0xff]))];
    let toks = call("include_str", vec![lit("\"a.txt\"", 10)], 0);
    let e = resolve_all(&toks, &Vec::new(), &files).unwrap_err();
    assert!(matches!(e.kind, ErrorKind::Unread { .. }));
    let files = vec![entry("a.txt", IncludeMode::Text, FileData::Failed("stream did not contain valid UTF-8".to_string()))];
    let toks = call("include_str", vec![lit("\"a.txt\"", 10)], 0);
    let e = resolve_all(&toks, &Vec::new(), &files).unwrap_err();
    assert!(matches!(e.kind, ErrorKind::Io(_)));
    assert_eq!(e.span, sp(10));
}

#[test]
fn invisible_group_is_looked_through() {
    let toks = vec![group(Delim::Invisible, vec![lit("\"abc\"", 1)], 0)];
    assert_eq!(resolve_all(&toks, &Vec::new(), &no_files()).unwrap(), (b"abc".to_vec(), sp(1)));
    let toks = vec![array(vec![group(Delim::Invisible, vec![array(vec![lit("5", 3)], 2)], 1)], 0)];
    assert_eq!(resolve_all(&toks, &Vec::new(), &no_files()).unwrap().0, vec![5]);
    let toks = vec![group(Delim::Invisible, vec![lit("1", 1), lit("2", 2)], 0)];
    let e = resolve_all(&toks, &Vec::new(), &no_files()).unwrap_err();
    assert!(matches!(e.kind, ErrorKind::Unexpected));
    assert_eq!(e.span, sp(2));
}
