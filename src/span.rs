use vstd::prelude::*;

verus! {

/// Where in the source a value came from: a half-open range of token
/// positions, or the whole invocation (the call site).
#[derive(Clone, Copy, Debug, PartialEq, Eq, Structural)]
pub enum Span {
    CallSite,
    Range { lo: u64, hi: u64 },
}

/// `outer` covers `inner`: the call site covers everything, and a range
/// covers each range inside it.
pub open spec fn covers(outer: Span, inner: Span) -> bool {
    match (outer, inner) {
        (Span::CallSite, _) => true,
        (Span::Range { lo: a, hi: b }, Span::Range { lo: c, hi: d }) => a <= c && d <= b,
        _ => false,
    }
}

/// The smallest span that covers both arguments.
pub open spec fn merge_spec(a: Span, b: Span) -> Span {
    match (a, b) {
        (Span::Range { lo: a0, hi: a1 }, Span::Range { lo: b0, hi: b1 }) => Span::Range {
            lo: if a0 <= b0 { a0 } else { b0 },
            hi: if a1 >= b1 { a1 } else { b1 },
        },
        _ => Span::CallSite,
    }
}

/// Left-to-right merge of a sequence of spans; the call site when it is empty.
pub open spec fn merge_all_spec(s: Seq<Span>) -> Span
    decreases s.len(),
{
    if s.len() == 0 {
        Span::CallSite
    } else if s.len() == 1 {
        s[0]
    } else {
        merge_spec(merge_all_spec(s.drop_last()), s.last())
    }
}

/// Combines two spans into one that covers both.
pub fn merge(a: Span, b: Span) -> (r: Span)
    ensures
        r == merge_spec(a, b),
        covers(r, a),
        covers(r, b),
{
    match (a, b) {
        (Span::Range { lo: a0, hi: a1 }, Span::Range { lo: b0, hi: b1 }) => Span::Range {
            lo: if a0 <= b0 { a0 } else { b0 },
            hi: if a1 >= b1 { a1 } else { b1 },
        },
        _ => Span::CallSite,
    }
}

pub proof fn lemma_covers_trans(a: Span, b: Span, c: Span)
    requires
        covers(a, b),
        covers(b, c),
    ensures
        covers(a, c),
{
}

/// A merged sequence of spans covers each of them.
pub proof fn lemma_merge_all_covers(s: Seq<Span>, i: int)
    requires
        0 <= i < s.len(),
    ensures
        covers(merge_all_spec(s), s[i]),
    decreases s.len(),
{
    if s.len() == 1 {
    } else if i == s.len() - 1 {
    } else {
        lemma_merge_all_covers(s.drop_last(), i);
        let m = merge_all_spec(s.drop_last());
        lemma_covers_trans(merge_spec(m, s.last()), m, s[i]);
    }
}

/// Merges a sequence of spans left to right; the call site when it is empty.
pub fn merge_all(s: &Vec<Span>) -> (r: Span)
    ensures
        r == merge_all_spec(s@),
{
    if s.len() == 0 {
        return Span::CallSite;
    }
    let mut acc = s[0];
    let mut i: usize = 1;
    while i < s.len()
        invariant
            1 <= i <= s.len(),
            acc == merge_all_spec(s@.subrange(0, i as int)),
        decreases s.len() - i,
    {
        proof {
            let t = s@.subrange(0, i as int + 1);
            assert(t.drop_last() =~= s@.subrange(0, i as int));
        }
        acc = merge(acc, s[i]);
        i = i + 1;
    }
    assert(s@.subrange(0, s.len() as int) =~= s@);
    acc
}

} // verus!
