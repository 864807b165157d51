//! The surface text of a token sequence.

use vstd::prelude::*;
use crate::text::push_char;
use crate::token::{lemma_toks_of, tok_of, toks_of, Delimiter, Tok, Token};

verus! {

/// Whether a token is punctuation glued to the next one.
pub open spec fn is_joint(t: Tok) -> bool {
    t matches Tok::Punct { joint, .. } && joint
}

pub open spec fn open_text(d: Delimiter) -> Seq<char> {
    match d {
        Delimiter::Parenthesis => seq!['('],
        Delimiter::Brace => seq!['{', ' '],
        Delimiter::Bracket => seq!['['],
        Delimiter::Invisible => Seq::empty(),
    }
}

pub open spec fn close_text(d: Delimiter) -> Seq<char> {
    match d {
        Delimiter::Parenthesis => seq![')'],
        Delimiter::Brace => seq!['}'],
        Delimiter::Bracket => seq![']'],
        Delimiter::Invisible => Seq::empty(),
    }
}

/// The spelling of one character inside a string literal: a backslash
/// and a double quote are escaped, every other character stands as it is.
pub open spec fn escaped(c: char) -> Seq<char> {
    if c == '\\' || c == '"' {
        seq!['\\', c]
    } else {
        seq![c]
    }
}

/// The characters of `s` spelled for the inside of a string literal.
pub open spec fn escaped_text(s: Seq<char>) -> Seq<char>
    decreases s.len(),
{
    if s.len() == 0 {
        Seq::empty()
    } else {
        escaped_text(s.drop_last()) + escaped(s[s.len() - 1])
    }
}

/// A string literal spelling of the value `s`.
pub open spec fn spelled(s: Seq<char>) -> Seq<char> {
    seq!['"'] + escaped_text(s) + seq!['"']
}

/// Appends a string literal spelling of `value` to `out`.
fn push_spelled(value: &str, out: &mut String)
    ensures
        final(out)@ == old(out)@ + spelled(value@),
{
    push_char(out, '"');
    let n = value.unicode_len();
    let mut i: usize = 0;
    let ghost start = out@;
    while i < n
        invariant
            n == value@.len(),
            i <= n,
            out@ == start + escaped_text(value@.subrange(0, i as int)),
        decreases n - i,
    {
        let c = value.get_char(i);
        if c == '\\' || c == '"' {
            push_char(out, '\\');
        }
        push_char(out, c);
        assert(value@.subrange(0, i + 1).drop_last() =~= value@.subrange(0, i as int));
        assert(out@ =~= start + escaped_text(value@.subrange(0, i + 1)));
        i = i + 1;
    }
    assert(value@.subrange(0, n as int) =~= value@);
    push_char(out, '"');
    assert(final(out)@ =~= old(out)@ + spelled(value@));
}

/// The surface text of one token. A group is its contents between its
/// brackets; a non-empty brace group has a space inside each brace.
pub open spec fn tok_print(t: Tok) -> Seq<char>
    decreases t,
{
    match t {
        Tok::Ident { name, .. } => name,
        Tok::Punct { ch, .. } => seq![ch],
        Tok::Literal { raw, .. } => raw,
        Tok::Str { value, .. } => spelled(value),
        Tok::Group { delim, tokens, .. } => open_text(delim) + print(tokens) + (if delim
            == Delimiter::Brace && tokens.len() > 0 {
            seq![' ']
        } else {
            Seq::empty()
        }) + close_text(delim),
    }
}

/// The surface text of a token sequence: one space between tokens, none
/// after punctuation glued to the next token.
pub open spec fn print(s: Seq<Tok>) -> Seq<char>
    decreases s, 0nat,
{
    if s.len() == 0 {
        Seq::empty()
    } else {
        proof {
            broadcast use vstd::seq::axiom_seq_subrange_decreases;
        }
        print(s.subrange(0, s.len() - 1)) + (if s.len() >= 2 && !is_joint(s[s.len() - 2]) {
            seq![' ']
        } else {
            Seq::empty()
        }) + tok_print(s[s.len() - 1])
    }
}

fn push_open(out: &mut String, d: Delimiter)
    ensures
        final(out)@ == old(out)@ + open_text(d),
{
    match d {
        Delimiter::Parenthesis => push_char(out, '('),
        Delimiter::Brace => {
            push_char(out, '{');
            push_char(out, ' ');
        },
        Delimiter::Bracket => push_char(out, '['),
        Delimiter::Invisible => {},
    }
    assert(final(out)@ =~= old(out)@ + open_text(d));
}

fn push_close(out: &mut String, d: Delimiter)
    ensures
        final(out)@ == old(out)@ + close_text(d),
{
    match d {
        Delimiter::Parenthesis => push_char(out, ')'),
        Delimiter::Brace => push_char(out, '}'),
        Delimiter::Bracket => push_char(out, ']'),
        Delimiter::Invisible => {},
    }
    assert(final(out)@ =~= old(out)@ + close_text(d));
}

/// Appends the surface text of one token to `out`.
fn push_token_text(t: &Token, out: &mut String)
    ensures
        final(out)@ == old(out)@ + tok_print(t@),
    decreases t,
{
    match t {
        Token::Ident { name, .. } => out.append(name.as_str()),
        Token::Punct { ch, .. } => {
            push_char(out, *ch);
            assert(final(out)@ =~= old(out)@ + seq![*ch]);
        },
        Token::Literal { raw, .. } => out.append(raw.as_str()),
        Token::Str { value, .. } => push_spelled(value.as_str(), out),
        Token::Group { delim, tokens, .. } => {
            proof {
                lemma_toks_of(tokens@);
                broadcast use vstd::std_specs::vec::axiom_vec_decreases_to_view;
            }
            push_open(out, *delim);
            push_print(tokens, out);
            if *delim == Delimiter::Brace && tokens.len() > 0 {
                push_char(out, ' ');
            }
            push_close(out, *delim);
            assert(final(out)@ =~= old(out)@ + tok_print(t@));
        },
    }
}

/// Appends the surface text of `tokens` to `out`.
pub fn push_print(tokens: &Vec<Token>, out: &mut String)
    ensures
        final(out)@ == old(out)@ + print(toks_of(tokens@)),
    decreases tokens, 0nat,
{
    let n = tokens.len();
    let mut i: usize = 0;
    proof {
        lemma_toks_of(tokens@);
        assert(toks_of(tokens@).subrange(0, 0) =~= Seq::<Tok>::empty());
    }
    while i < n
        invariant
            n == tokens@.len(),
            i <= n,
            out@ == old(out)@ + print(toks_of(tokens@).subrange(0, i as int)),
        decreases n - i,
    {
        proof {
            lemma_toks_of(tokens@);
        }
        let ghost s = toks_of(tokens@).subrange(0, i + 1);
        assert(s.subrange(0, i as int) =~= toks_of(tokens@).subrange(0, i as int));
        assert(s[i as int] == tok_of(tokens@[i as int]));
        if i >= 1 {
            assert(s[i - 1] == tok_of(tokens@[i - 1]));
            let joint = match &tokens[i - 1] {
                Token::Punct { joint, .. } => *joint,
                _ => false,
            };
            if !joint {
                push_char(out, ' ');
            }
        }
        proof {
            broadcast use vstd::std_specs::vec::axiom_vec_index_decreases;
        }
        push_token_text(&tokens[i], out);
        assert(out@ =~= old(out)@ + print(s));
        i = i + 1;
    }
    assert(toks_of(tokens@).subrange(0, n as int) =~= toks_of(tokens@));
}

} // verus!
