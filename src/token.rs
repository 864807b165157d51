//! The token model and its mathematical mirror.

use vstd::prelude::*;

verus! {

/// A source position, kept for diagnostics only. The host maps these ids to
/// its own positions; id 0 stands for the invocation site.
#[derive(Clone, Copy, Debug, PartialEq, Eq, Structural)]
pub struct Span {
    pub id: u64,
}

impl Span {
    /// The position of the macro invocation itself.
    pub fn call_site() -> (r: Span)
        ensures
            r == call_site(),
    {
        Span { id: 0 }
    }
}

/// The brackets around a group; `Invisible` is a grouping with no surface
/// brackets.
#[derive(Clone, Copy, Debug, PartialEq, Eq, Structural)]
pub enum Delimiter {
    Parenthesis,
    Brace,
    Bracket,
    Invisible,
}

/// A syntax token.
#[derive(Debug, PartialEq, Eq)]
pub enum Token {
    /// An identifier or keyword, spelled as written (`r#` included).
    Ident { name: String, span: Span },
    /// A punctuation character; `joint` when it is glued to the next one.
    Punct { ch: char, joint: bool, span: Span },
    /// A literal in its source spelling. For a floating-point literal the
    /// host also supplies the decimal rendering of its value, as this library
    /// does no floating-point arithmetic.
    Literal { raw: String, float_value: Option<String>, span: Span },
    /// A string literal made by this library, given by its value; the host
    /// chooses its spelling.
    Str { value: String, span: Span },
    /// A delimited group of tokens.
    Group { delim: Delimiter, tokens: Vec<Token>, span: Span },
}

/// The mathematical value of a token.
pub ghost enum Tok {
    Ident { name: Seq<char>, span: Span },
    Punct { ch: char, joint: bool, span: Span },
    Literal { raw: Seq<char>, float_value: Option<Seq<char>>, span: Span },
    Str { value: Seq<char>, span: Span },
    Group { delim: Delimiter, tokens: Seq<Tok>, span: Span },
}

pub open spec fn opt_text(o: Option<String>) -> Option<Seq<char>> {
    match o {
        Some(s) => Some(s@),
        None => None,
    }
}

/// The value of a token.
pub open spec fn tok_of(t: Token) -> Tok
    decreases t,
{
    match t {
        Token::Ident { name, span } => Tok::Ident { name: name@, span },
        Token::Punct { ch, joint, span } => Tok::Punct { ch, joint, span },
        Token::Literal { raw, float_value, span } => Tok::Literal {
            raw: raw@,
            float_value: opt_text(float_value),
            span,
        },
        Token::Str { value, span } => Tok::Str { value: value@, span },
        Token::Group { delim, tokens, span } => {
            proof {
                broadcast use vstd::std_specs::vec::axiom_vec_decreases_to_view;
            }
            Tok::Group { delim, tokens: toks_of(tokens@), span }
        },
    }
}

/// The values of a sequence of tokens.
pub open spec fn toks_of(s: Seq<Token>) -> Seq<Tok>
    decreases s, 0nat,
{
    if s.len() == 0 {
        Seq::empty()
    } else {
        proof {
            broadcast use vstd::seq::axiom_seq_subrange_decreases;
        }
        toks_of(s.subrange(0, s.len() - 1)).push(tok_of(s[s.len() - 1]))
    }
}

impl View for Token {
    type V = Tok;

    open spec fn view(&self) -> Tok {
        tok_of(*self)
    }
}

/// `toks_of` keeps the length and maps each token to its value.
pub broadcast proof fn lemma_toks_of(s: Seq<Token>)
    ensures
        (#[trigger] toks_of(s)).len() == s.len(),
        forall|i: int| 0 <= i < s.len() ==> #[trigger] toks_of(s)[i] == tok_of(s[i]),
    decreases s.len(),
{
    if s.len() > 0 {
        let p = s.subrange(0, s.len() - 1);
        lemma_toks_of(p);
        assert forall|i: int| 0 <= i < s.len() implies #[trigger] toks_of(s)[i] == tok_of(s[i]) by {
            if i < s.len() - 1 {
                assert(p[i] == s[i]);
            }
        }
    }
}

/// The position of a token.
pub open spec fn span_of(t: Tok) -> Span {
    match t {
        Tok::Ident { span, .. } => span,
        Tok::Punct { span, .. } => span,
        Tok::Literal { span, .. } => span,
        Tok::Str { span, .. } => span,
        Tok::Group { span, .. } => span,
    }
}

/// Whether a token is a comma.
pub open spec fn is_comma(t: Tok) -> bool {
    t matches Tok::Punct { ch, .. } && ch == ','
}

/// The invocation site.
pub open spec fn call_site() -> Span {
    Span { id: 0 }
}

impl Token {
    /// The position of the token.
    pub fn span(&self) -> (r: Span)
        ensures
            r == span_of(self@),
    {
        match self {
            Token::Ident { span, .. } => *span,
            Token::Punct { span, .. } => *span,
            Token::Literal { span, .. } => *span,
            Token::Str { span, .. } => *span,
            Token::Group { span, .. } => *span,
        }
    }

    /// Whether the token is a comma.
    pub fn is_comma(&self) -> (r: bool)
        ensures
            r == is_comma(self@),
    {
        match self {
            Token::Punct { ch, .. } => *ch == ',',
            _ => false,
        }
    }
}

/// A diagnostic: a message for the user and where it applies.
pub ghost struct Fault {
    pub msg: Seq<char>,
    pub span: Span,
}

/// A diagnostic as a value of the running program.
#[derive(Debug, PartialEq, Eq)]
pub struct Diagnostic {
    pub msg: String,
    pub span: Span,
}

impl View for Diagnostic {
    type V = Fault;

    open spec fn view(&self) -> Fault {
        Fault { msg: self.msg@, span: self.span }
    }
}

/// The outcome of an operation: the tokens it gives, or a diagnostic.
pub open spec fn outcome_view(r: Result<Vec<Token>, Diagnostic>) -> Result<Seq<Tok>, Fault> {
    match r {
        Ok(v) => Ok(toks_of(v@)),
        Err(d) => Err(d@),
    }
}

/// The tokens that report a diagnostic to the host:
/// `compile_error!("message")`, placed at the diagnostic's position.
pub open spec fn error_toks(f: Fault) -> Seq<Tok> {
    seq![
        Tok::Ident { name: "compile_error"@, span: f.span },
        Tok::Punct { ch: '!', joint: false, span: call_site() },
        Tok::Group {
            delim: Delimiter::Parenthesis,
            tokens: seq![Tok::Str { value: f.msg, span: call_site() }],
            span: f.span,
        },
    ]
}

/// What goes back to the host: the tokens, or the diagnostic as tokens.
pub open spec fn emitted(r: Result<Seq<Tok>, Fault>) -> Seq<Tok> {
    match r {
        Ok(s) => s,
        Err(f) => error_toks(f),
    }
}

/// A string literal token with value `value`, at the invocation site.
pub fn string_token(value: String) -> (r: Token)
    ensures
        r@ == (Tok::Str { value: value@, span: call_site() }),
{
    Token::Str { value, span: Span::call_site() }
}

/// The tokens that report a diagnostic to the host.
pub fn error_tokens(d: Diagnostic) -> (r: Vec<Token>)
    ensures
        toks_of(r@) == error_toks(d@),
{
    broadcast use lemma_toks_of;

    let ghost dv = d@;
    let span = d.span;
    let mut inner: Vec<Token> = Vec::new();
    inner.push(string_token(d.msg));
    let mut r: Vec<Token> = Vec::new();
    r.push(Token::Ident { name: String::from_str("compile_error"), span });
    r.push(Token::Punct { ch: '!', joint: false, span: Span::call_site() });
    let ghost inner_v = inner@;
    r.push(Token::Group { delim: Delimiter::Parenthesis, tokens: inner, span });
    assert(toks_of(inner_v) =~= seq![Tok::Str { value: dv.msg, span: call_site() }]);
    assert(r@[2]@ == (Tok::Group {
        delim: Delimiter::Parenthesis,
        tokens: toks_of(inner_v),
        span,
    }));
    assert(r@.len() == 3);
    assert(r@[0]@ == (Tok::Ident { name: "compile_error"@, span }));
    assert(r@[1]@ == (Tok::Punct { ch: '!', joint: false, span: call_site() }));
    assert(toks_of(r@) =~= error_toks(dv));
    r
}

/// The tokens that go back to the host for an outcome.
pub fn emit(r: Result<Vec<Token>, Diagnostic>) -> (out: Vec<Token>)
    ensures
        toks_of(out@) == emitted(outcome_view(r)),
{
    match r {
        Ok(v) => v,
        Err(d) => error_tokens(d),
    }
}

} // verus!
