use vstd::prelude::*;

use crate::registry::IncludeMode;
use crate::span::Span;

verus! {

/// Why resolution failed.
#[derive(Debug)]
pub enum ErrorKind {
    /// No form of the grammar matches here.
    Expected,
    /// The body of a file form is not a single string literal.
    ExpectedString,
    /// Tokens are left where the input should end.
    Unexpected,
    /// `=>` is not followed by a macro call that ends the input.
    ExpectedContinuation,
    /// Reading a file failed; the message says why.
    Io(String),
    /// The file table holds no contents for this path and mode: the caller
    /// must read the file and resolve again.
    Unread { path: Vec<u8>, mode: IncludeMode },
    /// Nesting went deeper than the resolver allows.
    TooDeep,
}

/// A failure and where it is attributed.
#[derive(Debug)]
pub struct ParseError {
    pub kind: ErrorKind,
    pub span: Span,
}

pub ghost enum ErrorKindView {
    Expected,
    ExpectedString,
    Unexpected,
    ExpectedContinuation,
    Io(Seq<char>),
    Unread(Seq<u8>, IncludeMode),
    TooDeep,
}

pub ghost struct ErrorView {
    pub kind: ErrorKindView,
    pub span: Span,
}

impl View for ErrorKind {
    type V = ErrorKindView;

    open spec fn view(&self) -> ErrorKindView {
        match self {
            ErrorKind::Expected => ErrorKindView::Expected,
            ErrorKind::ExpectedString => ErrorKindView::ExpectedString,
            ErrorKind::Unexpected => ErrorKindView::Unexpected,
            ErrorKind::ExpectedContinuation => ErrorKindView::ExpectedContinuation,
            ErrorKind::Io(m) => ErrorKindView::Io(m@),
            ErrorKind::Unread { path, mode } => ErrorKindView::Unread(path@, *mode),
            ErrorKind::TooDeep => ErrorKindView::TooDeep,
        }
    }
}

impl View for ParseError {
    type V = ErrorView;

    open spec fn view(&self) -> ErrorView {
        ErrorView { kind: self.kind@, span: self.span }
    }
}

/// The text that describes a failure of the given kind.
pub open spec fn message_of(kind: ErrorKindView) -> Seq<char> {
    match kind {
        ErrorKindView::Expected => "expected a hashable literal form"@,
        ErrorKindView::ExpectedString => "expected string literal"@,
        ErrorKindView::Unexpected => "unexpected token"@,
        ErrorKindView::ExpectedContinuation => "expected a macro call after `=>`"@,
        ErrorKindView::Io(m) => m,
        ErrorKindView::Unread(..) => "file not read"@,
        ErrorKindView::TooDeep => "recursion too deep"@,
    }
}

impl ParseError {
    /// A short description of the failure: a fixed text for each kind, and
    /// the cause itself for a failed read.
    pub fn message(&self) -> (r: String)
        ensures
            r@ == message_of(self.kind@),
            self.kind is Expected ==> r@ == "expected a hashable literal form"@,
            (self.kind matches ErrorKind::Io(m) ==> r@ == m@),
    {
        match &self.kind {
            ErrorKind::Expected => String::from_str("expected a hashable literal form"),
            ErrorKind::ExpectedString => String::from_str("expected string literal"),
            ErrorKind::Unexpected => String::from_str("unexpected token"),
            ErrorKind::ExpectedContinuation => String::from_str("expected a macro call after `=>`"),
            ErrorKind::Io(m) => m.clone(),
            ErrorKind::Unread { .. } => String::from_str("file not read"),
            ErrorKind::TooDeep => String::from_str("recursion too deep"),
        }
    }
}

} // verus!
