//! The builtin operations: each maps a token sequence to a token sequence.

use vstd::prelude::*;
use crate::case::{convert, get_style, recased, style_of};
use crate::literal::{concat_text, get_str_lit, push_concat_text, str_lit};
use crate::render::print;
use crate::text::{collapse_newlines, collapse_newlines_exec, replace_all, replace_all_exec};
use crate::token::{
    call_site, emit, emitted, is_comma, lemma_toks_of, outcome_view, span_of,
    string_token, tok_of, toks_of, Diagnostic, Fault, Span, Tok, Token,
};

verus! {

broadcast use lemma_toks_of;

/// A string literal token with value `text`, at the invocation site.
pub open spec fn string_tok(text: Seq<char>) -> Tok {
    Tok::Str { value: text, span: call_site() }
}

/// A stand-alone `$`.
pub open spec fn dollar_tok() -> Tok {
    Tok::Punct { ch: '$', joint: false, span: call_site() }
}

pub open spec fn op_dollar(s: Seq<Tok>) -> Result<Seq<Tok>, Fault> {
    if s.len() > 0 {
        Err(Fault { msg: "Macro `dollar` has no arguments."@, span: span_of(s[0]) })
    } else {
        Ok(seq![dollar_tok()])
    }
}

pub open spec fn op_head(s: Seq<Tok>) -> Seq<Tok> {
    if s.len() == 0 {
        s
    } else {
        seq![s[0]]
    }
}

pub open spec fn op_tail(s: Seq<Tok>) -> Seq<Tok> {
    if s.len() == 0 {
        s
    } else {
        s.drop_first()
    }
}

pub open spec fn op_start(s: Seq<Tok>) -> Seq<Tok> {
    if s.len() == 0 {
        s
    } else {
        s.drop_last()
    }
}

pub open spec fn op_last(s: Seq<Tok>) -> Seq<Tok> {
    if s.len() == 0 {
        s
    } else {
        seq![s[s.len() - 1]]
    }
}

pub open spec fn op_string(s: Seq<Tok>) -> Result<Seq<Tok>, Fault> {
    match concat_text(s) {
        Ok(t) => Ok(seq![string_tok(t)]),
        Err(f) => Err(f),
    }
}

pub open spec fn op_identifier(s: Seq<Tok>) -> Result<Seq<Tok>, Fault> {
    match concat_text(s) {
        Ok(t) => Ok(seq![Tok::Ident { name: t, span: call_site() }]),
        Err(f) => Err(f),
    }
}

pub open spec fn op_stringify(s: Seq<Tok>) -> Seq<Tok> {
    seq![string_tok(print(s))]
}

/// Discards its input.
pub fn ignore(input: Vec<Token>) -> (r: Vec<Token>)
    ensures
        r@.len() == 0,
{
    Vec::new()
}

/// Gives back its input.
pub fn identity(input: Vec<Token>) -> (r: Vec<Token>)
    ensures
        toks_of(r@) == toks_of(input@),
{
    input
}

pub fn dollar_op(input: Vec<Token>) -> (r: Result<Vec<Token>, Diagnostic>)
    ensures
        outcome_view(r) == op_dollar(toks_of(input@)),
{
    if input.len() > 0 {
        return Err(
            Diagnostic { msg: String::from_str("Macro `dollar` has no arguments."), span: input[0].span() },
        );
    }
    let mut v: Vec<Token> = Vec::new();
    v.push(Token::Punct { ch: '$', joint: false, span: Span::call_site() });
    assert(toks_of(v@) =~= seq![dollar_tok()]);
    Ok(v)
}

/// A stand-alone `$`; takes no input.
pub fn dollar(input: Vec<Token>) -> (r: Vec<Token>)
    ensures
        toks_of(r@) == emitted(op_dollar(toks_of(input@))),
{
    emit(dollar_op(input))
}

/// The first token, if any.
pub fn head(input: Vec<Token>) -> (r: Vec<Token>)
    ensures
        toks_of(r@) == op_head(toks_of(input@)),
{
    let mut v = input;
    v.truncate(1);
    assert(toks_of(v@) =~= op_head(toks_of(input@)));
    v
}

/// All tokens but the first.
pub fn tail(input: Vec<Token>) -> (r: Vec<Token>)
    ensures
        toks_of(r@) == op_tail(toks_of(input@)),
{
    let ghost s = input@;
    let mut v = input;
    if v.len() > 0 {
        v.remove(0);
        assert(v@ =~= s.drop_first());
    }
    assert(toks_of(v@) =~= op_tail(toks_of(input@)));
    v
}

/// All tokens but the last.
pub fn start(input: Vec<Token>) -> (r: Vec<Token>)
    ensures
        toks_of(r@) == op_start(toks_of(input@)),
{
    let mut v = input;
    if v.len() > 0 {
        v.pop();
    }
    assert(toks_of(v@) =~= op_start(toks_of(input@)));
    v
}

/// The last token, if any.
pub fn last(input: Vec<Token>) -> (r: Vec<Token>)
    ensures
        toks_of(r@) == op_last(toks_of(input@)),
{
    let mut v = input;
    let mut r: Vec<Token> = Vec::new();
    if let Some(t) = v.pop() {
        r.push(t);
    }
    assert(toks_of(r@) =~= op_last(toks_of(input@)));
    r
}

/// The tokens in reverse order.
pub fn reverse(input: Vec<Token>) -> (r: Vec<Token>)
    ensures
        toks_of(r@) == toks_of(input@).reverse(),
{
    let ghost s = toks_of(input@);
    let mut v = input;
    let mut r: Vec<Token> = Vec::new();
    while v.len() > 0
        invariant
            toks_of(v@) + toks_of(r@).reverse() == s,
        decreases v@.len(),
    {
        let ghost before_v = toks_of(v@);
        let ghost before_r = toks_of(r@);
        let ghost old_r = r@;
        let ghost old_v = v@;
        let t = v.pop().unwrap();
        assert(old_v =~= v@.push(t));
        r.push(t);
        assert(r@ =~= old_r.push(t));
        assert(toks_of(r@) =~= before_r.push(tok_of(t)));
        assert(toks_of(r@).reverse() =~= seq![tok_of(t)] + before_r.reverse());
        assert(before_v =~= toks_of(v@).push(tok_of(t)));
        assert(toks_of(v@) + toks_of(r@).reverse() =~= s);
    }
    assert(toks_of(v@) =~= Seq::<Tok>::empty());
    assert(toks_of(r@).reverse().reverse() =~= toks_of(r@));
    assert(s.reverse() =~= toks_of(r@).reverse().reverse());
    r
}

pub fn string_op(input: Vec<Token>) -> (r: Result<Vec<Token>, Diagnostic>)
    ensures
        outcome_view(r) == op_string(toks_of(input@)),
{
    let mut text = String::new();
    match push_concat_text(&input, &mut text) {
        Err(d) => Err(d),
        Ok(()) => {
            let mut v: Vec<Token> = Vec::new();
            let ghost tv = text@;
            v.push(string_token(text));
            assert(toks_of(v@) =~= seq![string_tok(tv)]);
            Ok(v)
        },
    }
}

/// The texts of the tokens joined into one string literal: identifiers by
/// their spelling, literals by their value, punctuation dropped, groups
/// flattened.
pub fn string(input: Vec<Token>) -> (r: Vec<Token>)
    ensures
        toks_of(r@) == emitted(op_string(toks_of(input@))),
{
    emit(string_op(input))
}

pub fn identifier_op(input: Vec<Token>) -> (r: Result<Vec<Token>, Diagnostic>)
    ensures
        outcome_view(r) == op_identifier(toks_of(input@)),
{
    let mut text = String::new();
    match push_concat_text(&input, &mut text) {
        Err(d) => Err(d),
        Ok(()) => {
            let mut v: Vec<Token> = Vec::new();
            v.push(Token::Ident { name: text, span: Span::call_site() });
            assert(toks_of(v@) =~= seq![Tok::Ident { name: text@, span: call_site() }]);
            Ok(v)
        },
    }
}

/// The texts of the tokens joined, as with `string`, into one identifier.
pub fn identifier(input: Vec<Token>) -> (r: Vec<Token>)
    ensures
        toks_of(r@) == emitted(op_identifier(toks_of(input@))),
{
    emit(identifier_op(input))
}


/// The first structural fault in a list of `n` arguments separated by
/// commas, checking from argument `k` on. `missing[j]` is the message for an
/// input that ends after `j` arguments; one trailing comma is allowed.
pub open spec fn arity_fault_from(
    s: Seq<Tok>,
    n: nat,
    k: nat,
    pos: Span,
    missing: Seq<Seq<char>>,
    too_many: Seq<char>,
) -> Option<Fault>
    decreases n - k,
{
    if k >= n {
        let e = 2 * n - 1;
        if s.len() > e {
            if is_comma(s[e]) {
                if s.len() > e + 1 {
                    Some(Fault { msg: too_many, span: span_of(s[e + 1]) })
                } else {
                    None
                }
            } else {
                Some(Fault { msg: "Unexpected token in macro invocation"@, span: span_of(s[e]) })
            }
        } else {
            None
        }
    } else if k == 0 {
        if s.len() == 0 {
            Some(Fault { msg: missing[0], span: pos })
        } else {
            arity_fault_from(s, n, 1, pos, missing, too_many)
        }
    } else if s.len() <= 2 * k - 1 {
        Some(Fault { msg: "Expected more arguments"@, span: pos })
    } else if !is_comma(s[2 * k - 1]) {
        Some(Fault { msg: "Expected comma."@, span: span_of(s[2 * k - 1]) })
    } else if s.len() <= 2 * k {
        Some(Fault { msg: missing[k as int], span: pos })
    } else {
        arity_fault_from(s, n, k + 1, pos, missing, too_many)
    }
}

/// The first structural fault in a list of `n` arguments separated by commas.
pub open spec fn arity_fault(
    s: Seq<Tok>,
    n: nat,
    pos: Span,
    missing: Seq<Seq<char>>,
    too_many: Seq<char>,
) -> Option<Fault> {
    arity_fault_from(s, n, 0, pos, missing, too_many)
}

/// An argument list without structural faults is long enough to hold all
/// its arguments.
pub proof fn lemma_arity_len(
    s: Seq<Tok>,
    n: nat,
    k: nat,
    pos: Span,
    missing: Seq<Seq<char>>,
    too_many: Seq<char>,
)
    requires
        1 <= n,
        arity_fault_from(s, n, k, pos, missing, too_many) is None,
        k >= 1 ==> s.len() >= 2 * k - 1,
    ensures
        s.len() >= 2 * n - 1,
    decreases n - k,
{
    if k < n {
        if k == 0 {
            lemma_arity_len(s, n, 1, pos, missing, too_many);
        } else {
            lemma_arity_len(s, n, k + 1, pos, missing, too_many);
        }
    }
}

pub open spec fn texts(m: Seq<&str>) -> Seq<Seq<char>> {
    Seq::new(m.len(), |i: int| m[i]@)
}

pub open spec fn opt_fault(r: Option<Diagnostic>) -> Option<Fault> {
    match r {
        Some(d) => Some(d@),
        None => None,
    }
}

fn fault(msg: &str, span: Span) -> (r: Diagnostic)
    ensures
        r@ == (Fault { msg: msg@, span }),
{
    Diagnostic { msg: String::from_str(msg), span }
}

/// Checks that `input` is a list of `n` arguments separated by commas.
fn check_arity(input: &Vec<Token>, n: usize, pos: Span, missing: &Vec<&str>, too_many: &str) -> (r:
    Option<Diagnostic>)
    requires
        1 <= n <= 3,
        missing@.len() == n,
    ensures
        opt_fault(r) == arity_fault(toks_of(input@), n as nat, pos, texts(missing@), too_many@),
{
    let ghost s = toks_of(input@);
    let ghost ms = texts(missing@);
    let len = input.len();
    if len == 0 {
        return Some(fault(missing[0], pos));
    }
    let mut k: usize = 1;
    while k < n
        invariant
            1 <= k <= n,
            n <= 3,
            len == input@.len(),
            s == toks_of(input@),
            ms == texts(missing@),
            missing@.len() == n,
            len >= 2 * k - 1,
            arity_fault(s, n as nat, pos, ms, too_many@) == arity_fault_from(
                s,
                n as nat,
                k as nat,
                pos,
                ms,
                too_many@,
            ),
        decreases n - k,
    {
        if len <= 2 * k - 1 {
            return Some(fault("Expected more arguments", pos));
        }
        if !input[2 * k - 1].is_comma() {
            return Some(fault("Expected comma.", input[2 * k - 1].span()));
        }
        if len <= 2 * k {
            return Some(fault(missing[k], pos));
        }
        k = k + 1;
    }
    let e = 2 * n - 1;
    if len > e {
        if input[e].is_comma() {
            if len > e + 1 {
                return Some(fault(too_many, input[e + 1].span()));
            }
        } else {
            return Some(fault("Unexpected token in macro invocation", input[e].span()));
        }
    }
    None
}

pub open spec fn missing_two() -> Seq<Seq<char>> {
    seq!["Expected two arguments, got 0"@, "Expected two arguments, got 1"@]
}

pub open spec fn op_replace_newline(s: Seq<Tok>, pos: Span) -> Result<Seq<Tok>, Fault> {
    match arity_fault(s, 2, pos, missing_two(), "Macro takes only 2 arguments"@) {
        Some(f) => Err(f),
        None => match str_lit(s[0]) {
            None => Err(Fault { msg: "Expected string literal"@, span: span_of(s[0]) }),
            Some(text) => match str_lit(s[2]) {
                None => Err(Fault { msg: "Expected string literal"@, span: span_of(s[2]) }),
                Some(rep) => Ok(seq![string_tok(collapse_newlines(text, rep))]),
            },
        },
    }
}

pub fn replace_newline_op(input: Vec<Token>, pos: Span) -> (r: Result<Vec<Token>, Diagnostic>)
    ensures
        outcome_view(r) == op_replace_newline(toks_of(input@), pos),
{
    let missing = vec!["Expected two arguments, got 0", "Expected two arguments, got 1"];
    assert(texts(missing@) =~= missing_two());
    if let Some(d) = check_arity(&input, 2, pos, &missing, "Macro takes only 2 arguments") {
        return Err(d);
    }
    proof {
        lemma_arity_len(toks_of(input@), 2, 0, pos, texts(missing@), "Macro takes only 2 arguments"@);
    }
    let text = match get_str_lit(&input[0]) {
        Some(t) => t,
        None => return Err(fault("Expected string literal", input[0].span())),
    };
    let rep = match get_str_lit(&input[2]) {
        Some(t) => t,
        None => return Err(fault("Expected string literal", input[2].span())),
    };
    let res = collapse_newlines_exec(text.as_str(), rep.as_str());
    let mut v: Vec<Token> = Vec::new();
    let ghost rv = res@;
    v.push(string_token(res));
    assert(toks_of(v@) =~= seq![string_tok(rv)]);
    Ok(v)
}

/// `replace_newline(text, replacement)`: one string literal, `text` with
/// each newline and the whitespace right after it replaced by
/// `replacement`. Both arguments are string literals.
pub fn replace_newline(input: Vec<Token>, pos: Span) -> (r: Vec<Token>)
    ensures
        toks_of(r@) == emitted(op_replace_newline(toks_of(input@), pos)),
{
    emit(replace_newline_op(input, pos))
}

pub open spec fn missing_three() -> Seq<Seq<char>> {
    seq!["Expected 3 arguments, got 0"@, "Expected 3 arguments, got 1"@, "Expected 3 arguments, got 2"@]
}

pub open spec fn op_str_replace(s: Seq<Tok>, pos: Span) -> Result<Seq<Tok>, Fault> {
    match arity_fault(s, 3, pos, missing_three(), "Macro takes only 3 arguments"@) {
        Some(f) => Err(f),
        None => match str_lit(s[0]) {
            None => Err(Fault { msg: "Expected string literal"@, span: span_of(s[0]) }),
            Some(text) => match str_lit(s[2]) {
                None => Err(Fault { msg: "Expected string literal"@, span: span_of(s[2]) }),
                Some(from) => match str_lit(s[4]) {
                    None => Err(Fault { msg: "Expected string literal"@, span: span_of(s[4]) }),
                    Some(to) => Ok(seq![string_tok(replace_all(text, from, to))]),
                },
            },
        },
    }
}

pub fn str_replace_op(input: Vec<Token>, pos: Span) -> (r: Result<Vec<Token>, Diagnostic>)
    ensures
        outcome_view(r) == op_str_replace(toks_of(input@), pos),
{
    let missing = vec![
        "Expected 3 arguments, got 0",
        "Expected 3 arguments, got 1",
        "Expected 3 arguments, got 2",
    ];
    assert(texts(missing@) =~= missing_three());
    if let Some(d) = check_arity(&input, 3, pos, &missing, "Macro takes only 3 arguments") {
        return Err(d);
    }
    proof {
        lemma_arity_len(toks_of(input@), 3, 0, pos, texts(missing@), "Macro takes only 3 arguments"@);
    }
    let text = match get_str_lit(&input[0]) {
        Some(t) => t,
        None => return Err(fault("Expected string literal", input[0].span())),
    };
    let from = match get_str_lit(&input[2]) {
        Some(t) => t,
        None => return Err(fault("Expected string literal", input[2].span())),
    };
    let to = match get_str_lit(&input[4]) {
        Some(t) => t,
        None => return Err(fault("Expected string literal", input[4].span())),
    };
    let res = replace_all_exec(text.as_str(), from.as_str(), to.as_str());
    let mut v: Vec<Token> = Vec::new();
    let ghost rv = res@;
    v.push(string_token(res));
    assert(toks_of(v@) =~= seq![string_tok(rv)]);
    Ok(v)
}

/// `str_replace(text, from, to)`: one string literal, `text` with each
/// occurrence of `from`, leftmost first and not overlapping, replaced by
/// `to`. All three arguments are string literals.
pub fn str_replace(input: Vec<Token>, pos: Span) -> (r: Vec<Token>)
    ensures
        toks_of(r@) == emitted(op_str_replace(toks_of(input@), pos)),
{
    emit(str_replace_op(input, pos))
}

pub open spec fn missing_case() -> Seq<Seq<char>> {
    seq!["Expected 2 arguments."@, "Expected 2 arguments"@]
}

pub open spec fn unknown_case_msg(spec: Seq<char>) -> Seq<char> {
    "Unknown case specifier: '"@ + spec + "'"@
}

pub open spec fn op_to_case(s: Seq<Tok>, pos: Span) -> Result<Seq<Tok>, Fault> {
    match arity_fault(s, 2, pos, missing_case(), "Macro takes only 2 arguments"@) {
        Some(f) => Err(f),
        None => match str_lit(s[0]) {
            None => Err(Fault { msg: "Expected string literal"@, span: span_of(s[0]) }),
            Some(spec) => match s[2] {
                Tok::Ident { name, .. } => match style_of(spec) {
                    Some(style) => Ok(seq![Tok::Ident { name: recased(name, style), span: call_site() }]),
                    None => Err(Fault { msg: unknown_case_msg(spec), span: pos }),
                },
                _ => Err(Fault { msg: "Expected identifier"@, span: span_of(s[2]) }),
            },
        },
    }
}

pub fn to_case_op(input: Vec<Token>, pos: Span) -> (r: Result<Vec<Token>, Diagnostic>)
    ensures
        outcome_view(r) == op_to_case(toks_of(input@), pos),
{
    let missing = vec!["Expected 2 arguments.", "Expected 2 arguments"];
    assert(texts(missing@) =~= missing_case());
    if let Some(d) = check_arity(&input, 2, pos, &missing, "Macro takes only 2 arguments") {
        return Err(d);
    }
    proof {
        lemma_arity_len(toks_of(input@), 2, 0, pos, texts(missing@), "Macro takes only 2 arguments"@);
    }
    let spec = match get_str_lit(&input[0]) {
        Some(t) => t,
        None => return Err(fault("Expected string literal", input[0].span())),
    };
    let name = match &input[2] {
        Token::Ident { name, .. } => name,
        _ => return Err(fault("Expected identifier", input[2].span())),
    };
    match get_style(spec.as_str()) {
        Some(style) => {
            let mut v: Vec<Token> = Vec::new();
            v.push(Token::Ident { name: convert(name.as_str(), style), span: Span::call_site() });
            assert(toks_of(v@) =~= seq![
                Tok::Ident { name: recased(name@, style), span: call_site() },
            ]);
            Ok(v)
        },
        None => {
            let mut msg = String::from_str("Unknown case specifier: '");
            msg.append(spec.as_str());
            msg.append("'");
            Err(Diagnostic { msg, span: pos })
        },
    }
}

/// `to_case(spec, ident)`: the identifier's words rejoined in the style that
/// the string literal `spec` names (`TOCASE`, `tocase`, `toCase`, `ToCase`,
/// `to_case` or `TO_CASE`).
pub fn to_case(input: Vec<Token>, pos: Span) -> (r: Vec<Token>)
    ensures
        toks_of(r@) == emitted(op_to_case(toks_of(input@), pos)),
{
    emit(to_case_op(input, pos))
}

} // verus!
