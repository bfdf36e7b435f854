use vstd::prelude::*;

use crate::span::Span;

verus! {

/// The delimiter of a group.
#[derive(Clone, Copy, Debug, PartialEq, Eq, Structural)]
pub enum Delim {
    Paren,
    Bracket,
    Brace,
    Invisible,
}

/// One token tree of macro input or output.
///
/// A literal keeps its source text (`"abc"`, `b'x'`, `12u8`); a punctuation
/// character is joint when the next character belongs to the same operator.
#[derive(Debug)]
pub enum Tok {
    Ident { name: String, span: Span },
    Punct { ch: char, joint: bool, span: Span },
    Lit { repr: String, span: Span },
    Group { delim: Delim, body: Vec<Tok>, span: Span },
}

impl Tok {
    pub open spec fn span_of(&self) -> Span {
        match self {
            Tok::Ident { span, .. } => *span,
            Tok::Punct { span, .. } => *span,
            Tok::Lit { span, .. } => *span,
            Tok::Group { span, .. } => *span,
        }
    }

    /// The span of this token.
    pub fn span(&self) -> (r: Span)
        ensures
            r == self.span_of(),
    {
        match self {
            Tok::Ident { span, .. } => *span,
            Tok::Punct { span, .. } => *span,
            Tok::Lit { span, .. } => *span,
            Tok::Group { span, .. } => *span,
        }
    }
}

/// Two token trees with the same contents: names and literal texts equal as
/// text, groups with the same tokens.
pub open spec fn same_tok(a: Tok, b: Tok) -> bool
    decreases a,
{
    match (a, b) {
        (Tok::Ident { name: n1, span: s1 }, Tok::Ident { name: n2, span: s2 }) => n1@ == n2@ && s1
            == s2,
        (Tok::Punct { .. }, Tok::Punct { .. }) => a == b,
        (Tok::Lit { repr: r1, span: s1 }, Tok::Lit { repr: r2, span: s2 }) => r1@ == r2@ && s1
            == s2,
        (Tok::Group { delim: d1, body: b1, span: s1 }, Tok::Group { delim: d2, body: b2, span: s2 }) => {
            &&& d1 == d2
            &&& s1 == s2
            &&& b1@.len() == b2@.len()
            &&& forall|i: int|
                0 <= i < b1@.len() ==> same_tok(#[trigger] b1@[i], b2@[i])
        },
        _ => false,
    }
}

pub open spec fn same_toks(a: Seq<Tok>, b: Seq<Tok>) -> bool {
    a.len() == b.len() && forall|i: int| 0 <= i < a.len() ==> #[trigger] same_tok(a[i], b[i])
}

} // verus!
