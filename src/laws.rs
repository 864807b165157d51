//! Laws that relate the operations to each other.

use vstd::prelude::*;
use crate::ops::{op_head, op_tail};
use crate::place::{marker_of, prepend, seq_size, lemma_size_front, walk};
use crate::token::Tok;

verus! {

/// Whether a token holds no marker identifier, at any depth.
pub open spec fn tok_marker_free(t: Tok) -> bool
    decreases t,
{
    match t {
        Tok::Ident { name, span } => marker_of(name, span) is None,
        Tok::Group { tokens, .. } => marker_free(tokens),
        _ => true,
    }
}

/// Whether a token sequence holds no marker identifier, at any depth.
pub open spec fn marker_free(s: Seq<Tok>) -> bool
    decreases s, 0nat,
{
    if s.len() == 0 {
        true
    } else {
        proof {
            broadcast use vstd::seq::axiom_seq_subrange_decreases;
        }
        marker_free(s.subrange(0, s.len() - 1)) && tok_marker_free(s[s.len() - 1])
    }
}

proof fn lemma_marker_free_index(s: Seq<Tok>)
    ensures
        marker_free(s) == (forall|i: int| 0 <= i < s.len() ==> #[trigger] tok_marker_free(s[i])),
    decreases s.len(),
{
    if s.len() > 0 {
        let p = s.subrange(0, s.len() - 1);
        lemma_marker_free_index(p);
        assert forall|i: int| 0 <= i < s.len() - 1 implies p[i] == s[i] by {}
        if marker_free(s) {
            assert forall|i: int| 0 <= i < s.len() implies #[trigger] tok_marker_free(s[i]) by {
                if i < s.len() - 1 {
                    assert(tok_marker_free(p[i]));
                }
            }
        }
        if forall|i: int| 0 <= i < s.len() ==> #[trigger] tok_marker_free(s[i]) {
            assert forall|i: int| 0 <= i < p.len() implies #[trigger] tok_marker_free(p[i]) by {
                assert(tok_marker_free(s[i]));
            }
            assert(tok_marker_free(s[s.len() - 1]));
            assert(marker_free(s));
        }
    }
}

/// Rewriting a token sequence that holds no marker identifier gives it back
/// unchanged.
pub proof fn lemma_pass_through(s: Seq<Tok>)
    requires
        marker_free(s),
    ensures
        walk(s) == Ok::<Seq<Tok>, crate::token::Fault>(s),
    decreases seq_size(s),
{
    if s.len() > 0 {
        let t = s[0];
        let rest = s.drop_first();
        lemma_size_front(s);
        lemma_marker_free_index(s);
        lemma_marker_free_index(rest);
        assert(tok_marker_free(s[0]));
        assert forall|i: int| 0 <= i < rest.len() implies #[trigger] tok_marker_free(rest[i]) by {
            assert(rest[i] == s[i + 1]);
        }
        lemma_pass_through(rest);
        match t {
            Tok::Group { delim, tokens, span } => {
                lemma_pass_through(tokens);
                assert(seq![Tok::Group { delim, tokens, span }] + rest =~= s);
            },
            Tok::Ident { name, span } => {
                assert(marker_of(name, span) is None);
                assert(walk(s) == prepend(seq![t], walk(rest)));
                assert(seq![t] + rest =~= s);
            },
            _ => {
                assert(walk(s) == prepend(seq![t], walk(rest)));
                assert(seq![t] + rest =~= s);
            },
        }
    } else {
        assert(s =~= Seq::<Tok>::empty());
    }
}

/// Rewriting the outcome of a rewrite again gives it back unchanged when it
/// holds no marker identifier.
pub proof fn lemma_rewrite_idempotent(s: Seq<Tok>)
    requires
        walk(s) is Ok,
        marker_free(walk(s)->Ok_0),
    ensures
        walk(walk(s)->Ok_0) == walk(s),
{
    lemma_pass_through(walk(s)->Ok_0);
}

/// The head of a sequence followed by its tail is the sequence.
pub proof fn lemma_head_tail(s: Seq<Tok>)
    ensures
        op_head(s) + op_tail(s) == s,
{
    if s.len() > 0 {
        assert(seq![s[0]] + s.drop_first() =~= s);
    } else {
        assert(s + s =~= s);
    }
}

/// Reversing a sequence twice gives it back.
pub proof fn lemma_reverse_twice(s: Seq<Tok>)
    ensures
        s.reverse().reverse() == s,
{
    assert(s.reverse().reverse() =~= s);
}

} // verus!
