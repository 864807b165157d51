//! A token-sequence rewriting engine: marker identifiers embedded in a token
//! sequence name builtin operations, which are evaluated innermost first and
//! whose results are spliced back in place.

pub mod token;
pub mod text;
pub mod literal;
pub mod render;
pub mod case;
pub mod ops;
pub mod place;
pub mod laws;

use vstd::prelude::*;
use ops::op_stringify;
use render::push_print;
use token::{lemma_toks_of, string_token, toks_of};

pub use ops::{
    dollar, head, identifier, identity, ignore, last, replace_newline, reverse, start,
    str_replace, string, tail, to_case,
};
pub use place::{place, place_op, Macro};
pub use token::{Delimiter, Diagnostic, Span, Token};

verus! {

/// One string literal holding the surface text of the tokens.
pub fn stringify(input: Vec<Token>) -> (r: Vec<Token>)
    ensures
        toks_of(r@) == op_stringify(toks_of(input@)),
{
    let mut text = String::new();
    push_print(&input, &mut text);
    let mut v: Vec<Token> = Vec::new();
    v.push(string_token(text));
    proof {
        lemma_toks_of(v@);
    }
    assert(toks_of(v@) =~= op_stringify(toks_of(input@)));
    v
}

} // verus!
