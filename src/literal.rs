//! Reading literal tokens: their kind and the text they stand for.

use vstd::prelude::*;
use crate::text::{decimal, push_char, push_decimal};
use crate::token::{lemma_toks_of, tok_of, toks_of, Diagnostic, Fault, Tok, Token};

verus! {

/// What a literal's source spelling reads as.
pub ghost enum Reading {
    Bool(bool),
    /// An integer, when its value fits in `u128`.
    Int(Option<u128>),
    Float,
    Char(char),
    Str(Seq<char>),
    /// A byte or byte string literal, with its printed form.
    Bytes(Seq<char>),
    Invalid,
}

/// A literal's reading as a value of the running program.
pub enum LitValue {
    Bool(bool),
    Int(Option<u128>),
    Float,
    Char(char),
    Str(String),
    Bytes(String),
    Invalid,
}

impl View for LitValue {
    type V = Reading;

    open spec fn view(&self) -> Reading {
        match self {
            LitValue::Bool(b) => Reading::Bool(*b),
            LitValue::Int(v) => Reading::Int(*v),
            LitValue::Float => Reading::Float,
            LitValue::Char(c) => Reading::Char(*c),
            LitValue::Str(s) => Reading::Str(s@),
            LitValue::Bytes(s) => Reading::Bytes(s@),
            LitValue::Invalid => Reading::Invalid,
        }
    }
}

/// What the source spelling `raw` reads as.
pub uninterp spec fn literal_reading(raw: Seq<char>) -> Reading;

/// Relies on `litrs::Literal::parse` and the value accessors of its kinds:
/// `value` of a bool, char or integer (as `u128`, `None` on overflow),
/// `into_value` of a string, and the `Display` of a byte or byte string,
/// which prints the literal's own spelling.
#[verifier::external_body]
pub(crate) fn read_literal(raw: &str) -> (r: LitValue)
    ensures
        r@ == literal_reading(raw@),
        r@ matches Reading::Bytes(t) ==> t == raw@,
{
    match litrs::Literal::parse(raw) {
        Ok(litrs::Literal::Bool(v)) => LitValue::Bool(v.value()),
        Ok(litrs::Literal::Integer(v)) => LitValue::Int(v.value::<u128>()),
        Ok(litrs::Literal::Float(_)) => LitValue::Float,
        Ok(litrs::Literal::Char(v)) => LitValue::Char(v.value()),
        Ok(litrs::Literal::String(v)) => LitValue::Str(v.into_value().into_owned()),
        Ok(litrs::Literal::Byte(v)) => LitValue::Bytes(v.to_string()),
        Ok(litrs::Literal::ByteString(v)) => LitValue::Bytes(v.to_string()),
        Err(_) => LitValue::Invalid,
    }
}

/// The text a literal contributes when tokens are joined into one text.
pub open spec fn literal_text(
    raw: Seq<char>,
    float_value: Option<Seq<char>>,
    span: crate::token::Span,
) -> Result<Seq<char>, Fault> {
    match literal_reading(raw) {
        Reading::Bool(b) => Ok(if b { "true"@ } else { "false"@ }),
        Reading::Int(Some(v)) => Ok(decimal(v as nat)),
        Reading::Int(None) => Err(Fault { msg: "Integer is too large"@, span }),
        Reading::Float => match float_value {
            Some(v) => Ok(v),
            None => Err(Fault { msg: "Floating-point literal without its value"@, span }),
        },
        Reading::Char(c) => Ok(seq![c]),
        Reading::Str(t) => Ok(t),
        Reading::Bytes(t) => Ok(t),
        Reading::Invalid => Err(Fault { msg: "Unrecognized literal"@, span }),
    }
}

/// The text of one token: an identifier's spelling, a literal's value,
/// nothing for punctuation, and a group's contents joined.
pub open spec fn tok_text(t: Tok) -> Result<Seq<char>, Fault>
    decreases t,
{
    match t {
        Tok::Ident { name, .. } => Ok(name),
        Tok::Punct { .. } => Ok(Seq::empty()),
        Tok::Literal { raw, float_value, span } => literal_text(raw, float_value, span),
        Tok::Str { value, .. } => Ok(value),
        Tok::Group { tokens, .. } => concat_text(tokens),
    }
}

/// The texts of the tokens joined in order, groups flattened; the first
/// diagnostic, in reading order, where a literal cannot be read.
pub open spec fn concat_text(s: Seq<Tok>) -> Result<Seq<char>, Fault>
    decreases s, 0nat,
{
    if s.len() == 0 {
        Ok(Seq::empty())
    } else {
        proof {
            broadcast use vstd::seq::axiom_seq_subrange_decreases;
        }
        match concat_text(s.subrange(0, s.len() - 1)) {
            Err(f) => Err(f),
            Ok(a) => match tok_text(s[s.len() - 1]) {
                Err(f) => Err(f),
                Ok(b) => Ok(a + b),
            },
        }
    }
}

fn push_str(out: &mut String, s: &str)
    ensures
        final(out)@ == old(out)@ + s@,
{
    out.append(s);
}

/// Appends a literal's text to `out`.
fn push_literal_text(raw: &String, float_value: &Option<String>, span: crate::token::Span, out: &mut String) -> (r: Result<(), Diagnostic>)
    ensures
        match literal_text(raw@, crate::token::opt_text(*float_value), span) {
            Ok(t) => r is Ok && final(out)@ == old(out)@ + t,
            Err(f) => r matches Err(d) && d@ == f,
        },
{
    match read_literal(raw.as_str()) {
        LitValue::Bool(b) => {
            if b {
                push_str(out, "true");
            } else {
                push_str(out, "false");
            }
            Ok(())
        },
        LitValue::Int(Some(v)) => {
            push_decimal(out, v);
            Ok(())
        },
        LitValue::Int(None) => Err(Diagnostic { msg: String::from_str("Integer is too large"), span }),
        LitValue::Float => match float_value {
            Some(v) => {
                push_str(out, v.as_str());
                Ok(())
            },
            None => Err(
                Diagnostic { msg: String::from_str("Floating-point literal without its value"), span },
            ),
        },
        LitValue::Char(c) => {
            push_char(out, c);
            Ok(())
        },
        LitValue::Str(t) => {
            push_str(out, t.as_str());
            Ok(())
        },
        LitValue::Bytes(t) => {
            push_str(out, t.as_str());
            Ok(())
        },
        LitValue::Invalid => Err(Diagnostic { msg: String::from_str("Unrecognized literal"), span }),
    }
}

/// Appends the joined text of `tokens` to `out`.
pub fn push_concat_text(tokens: &Vec<Token>, out: &mut String) -> (r: Result<(), Diagnostic>)
    ensures
        match concat_text(toks_of(tokens@)) {
            Ok(t) => r is Ok && final(out)@ == old(out)@ + t,
            Err(f) => r matches Err(d) && d@ == f,
        },
    decreases tokens,
{
    proof {
        lemma_toks_of(tokens@);
    }
    let n = tokens.len();
    let mut i: usize = 0;
    assert(toks_of(tokens@).subrange(0, 0) =~= Seq::<Tok>::empty());
    assert(out@.subrange(old(out)@.len() as int, out@.len() as int) =~= Seq::<char>::empty());
    assert(out@.subrange(0, old(out)@.len() as int) =~= old(out)@);
    while i < n
        invariant
            n == tokens@.len(),
            i <= n,
            concat_text(toks_of(tokens@).subrange(0, i as int)) == Ok::<Seq<char>, Fault>(
                out@.subrange(old(out)@.len() as int, out@.len() as int),
            ),
            out@.subrange(0, old(out)@.len() as int) == old(out)@,
            old(out)@.len() <= out@.len(),
        decreases n - i,
    {
        proof {
            lemma_toks_of(tokens@);
        }
        let ghost before = out@;
        let ghost s = toks_of(tokens@).subrange(0, i + 1);
        assert(s.subrange(0, i as int) =~= toks_of(tokens@).subrange(0, i as int));
        assert(toks_of(tokens@)[i as int] == tok_of(tokens@[i as int]));
        assert(s[i as int] == tok_of(tokens@[i as int]));
        let r = match &tokens[i] {
            Token::Ident { name, .. } => {
                push_str(out, name.as_str());
                Ok(())
            },
            Token::Punct { .. } => Ok(()),
            Token::Literal { raw, float_value, span } => push_literal_text(raw, float_value, *span, out),
            Token::Str { value, .. } => {
                push_str(out, value.as_str());
                Ok(())
            },
            Token::Group { tokens: inner, .. } => {
                proof {
                    broadcast use vstd::std_specs::vec::axiom_vec_index_decreases;
                }
                push_concat_text(inner, out)
            },
        };
        assert(match tok_text(s[i as int]) {
            Ok(b) => r is Ok && out@ == before + b,
            Err(f) => r matches Err(d) && d@ == f,
        });
        assert(concat_text(s) == match concat_text(s.subrange(0, i as int)) {
            Err(f) => Err(f),
            Ok(a) => match tok_text(s[i as int]) {
                Err(f) => Err(f),
                Ok(b) => Ok(a + b),
            },
        });
        match r {
            Err(d) => {
                assert(toks_of(tokens@) == s + toks_of(tokens@).subrange(i + 1, n as int));
                proof { lemma_concat_prefix_err(toks_of(tokens@), i as int + 1); }
                return Err(d);
            },
            Ok(()) => {
                let ghost b = tok_text(s[i as int])->Ok_0;
                assert(out@.subrange(before.len() as int, out@.len() as int) =~= b);
                assert(out@.subrange(old(out)@.len() as int, out@.len() as int) =~= before.subrange(
                    old(out)@.len() as int,
                    before.len() as int,
                ) + out@.subrange(before.len() as int, out@.len() as int));
                assert(out@.subrange(0, old(out)@.len() as int) =~= before.subrange(0, old(out)@.len() as int));
            },
        }
        i = i + 1;
    }
    assert(toks_of(tokens@).subrange(0, n as int) == toks_of(tokens@));
    assert(out@ =~= old(out)@ + out@.subrange(old(out)@.len() as int, out@.len() as int));
    Ok(())
}

/// A diagnostic within the first `k` tokens is the diagnostic of the whole.
proof fn lemma_concat_prefix_err(s: Seq<Tok>, k: int)
    requires
        0 <= k <= s.len(),
        concat_text(s.subrange(0, k)) is Err,
    ensures
        concat_text(s) == concat_text(s.subrange(0, k)),
    decreases s.len() - k,
{
    if k < s.len() {
        assert(s.subrange(0, k + 1).subrange(0, k) == s.subrange(0, k));
        lemma_concat_prefix_err(s, k + 1);
    } else {
        assert(s.subrange(0, k) == s);
    }
}

/// The value of a string literal (read from its spelling, or made by this
/// library), or of a group that holds exactly one token with such a value.
pub open spec fn str_lit(t: Tok) -> Option<Seq<char>>
    decreases t,
{
    match t {
        Tok::Group { tokens, .. } => if tokens.len() == 1 {
            str_lit(tokens[0])
        } else {
            None
        },
        Tok::Literal { raw, .. } => match literal_reading(raw) {
            Reading::Str(v) => Some(v),
            _ => None,
        },
        Tok::Str { value, .. } => Some(value),
        _ => None,
    }
}

/// The value of a string literal, looking through groups of one token.
pub fn get_str_lit(t: &Token) -> (r: Option<String>)
    ensures
        match str_lit(t@) {
            Some(v) => r matches Some(s) && s@ == v,
            None => r is None,
        },
    decreases t,
{
    match t {
        Token::Group { tokens, .. } => {
            proof {
                lemma_toks_of(tokens@);
            }
            if tokens.len() == 1 {
                proof {
                    broadcast use vstd::std_specs::vec::axiom_vec_index_decreases;
                }
                get_str_lit(&tokens[0])
            } else {
                None
            }
        },
        Token::Literal { raw, .. } => match read_literal(raw.as_str()) {
            LitValue::Str(v) => Some(v),
            _ => None,
        },
        Token::Str { value, .. } => Some(value.clone()),
        _ => None,
    }
}

} // verus!
