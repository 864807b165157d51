//! The rewrite interpreter: finds marker calls in a token sequence and
//! evaluates them innermost first, with an explicit stack of frames.

use vstd::prelude::*;
use crate::case::{lower_of, lowercase, trim_underscores, trimmed};
use crate::ops::{
    dollar_op, dollar_tok, head, identifier_op, last, op_dollar, op_head, op_identifier, op_last,
    op_replace_newline, op_start, op_str_replace, op_string, op_stringify, op_tail, op_to_case,
    replace_newline_op, reverse, start, str_replace_op, string_op, string_tok, tail,
    to_case_op,
};
use crate::text::same_text;
use crate::token::{
    call_site, emit, emitted, lemma_toks_of, outcome_view, span_of, string_token, tok_of, toks_of,
    Delimiter, Diagnostic, Fault, Span, Tok, Token,
};

verus! {

broadcast use lemma_toks_of;

/// A builtin operation, as selected by a marker identifier. The operations
/// that check an argument list carry the marker's position for their
/// diagnostics.
#[derive(Clone, Copy, Debug, PartialEq, Eq, Structural)]
pub enum Macro {
    Ignore,
    Identity,
    Dollar,
    String,
    Head,
    Tail,
    Start,
    Last,
    Reverse,
    Identifier,
    Stringify,
    ReplaceNewline(Span),
    StrReplace(Span),
    ToCase(Span),
}

/// Whether `s` starts and ends with two underscores.
pub open spec fn fenced(s: Seq<char>) -> bool {
    s.len() >= 2 && s[0] == '_' && s[1] == '_' && s[s.len() - 2] == '_' && s[s.len() - 1] == '_'
}

/// The operation a marker spelling selects. Spellings are exact, but for
/// the case conversion family, whose spelling is matched without regard to
/// case.
pub open spec fn marker_of(name: Seq<char>, pos: Span) -> Option<Macro> {
    if name == "__ignore__"@ {
        Some(Macro::Ignore)
    } else if name == "__identity__"@ || name == "__id__"@ {
        Some(Macro::Identity)
    } else if name == "__dollar__"@ || name == "__s__"@ {
        Some(Macro::Dollar)
    } else if name == "__string__"@ || name == "__str__"@ {
        Some(Macro::String)
    } else if name == "__head__"@ {
        Some(Macro::Head)
    } else if name == "__tail__"@ {
        Some(Macro::Tail)
    } else if name == "__start__"@ {
        Some(Macro::Start)
    } else if name == "__last__"@ {
        Some(Macro::Last)
    } else if name == "__reverse__"@ {
        Some(Macro::Reverse)
    } else if name == "__identifier__"@ || name == "__ident__"@ {
        Some(Macro::Identifier)
    } else if name == "__stringify__"@ || name == "__strfy__"@ {
        Some(Macro::Stringify)
    } else if name == "__replace_newline__"@ || name == "__repnl__"@ {
        Some(Macro::ReplaceNewline(pos))
    } else if name == "__str_replace__"@ || name == "__repstr__"@ {
        Some(Macro::StrReplace(pos))
    } else if fenced(name) && (lower_of(name) == "__tocase__"@ || lower_of(name) == "__to_case__"@) {
        Some(Macro::ToCase(pos))
    } else {
        None
    }
}

/// What an operation gives for its (already rewritten) arguments.
pub open spec fn invoke_spec(m: Macro, s: Seq<Tok>) -> Result<Seq<Tok>, Fault> {
    match m {
        Macro::Ignore => Ok(Seq::empty()),
        Macro::Identity => Ok(s),
        Macro::Dollar => op_dollar(s),
        Macro::String => op_string(s),
        Macro::Head => Ok(op_head(s)),
        Macro::Tail => Ok(op_tail(s)),
        Macro::Start => Ok(op_start(s)),
        Macro::Last => Ok(op_last(s)),
        Macro::Reverse => Ok(s.reverse()),
        Macro::Identifier => op_identifier(s),
        Macro::Stringify => Ok(op_stringify(s)),
        Macro::ReplaceNewline(pos) => op_replace_newline(s, pos),
        Macro::StrReplace(pos) => op_str_replace(s, pos),
        Macro::ToCase(pos) => op_to_case(s, pos),
    }
}

/// The size of a token: a group counts its brackets and one more.
pub open spec fn tok_size(t: Tok) -> nat
    decreases t,
{
    match t {
        Tok::Group { tokens, .. } => 3 + seq_size(tokens),
        _ => 1,
    }
}

/// The size of a token sequence.
pub open spec fn seq_size(s: Seq<Tok>) -> nat
    decreases s, 0nat,
{
    if s.len() == 0 {
        0
    } else {
        proof {
            broadcast use vstd::seq::axiom_seq_subrange_decreases;
        }
        seq_size(s.subrange(0, s.len() - 1)) + tok_size(s[s.len() - 1])
    }
}

pub proof fn lemma_size_concat(a: Seq<Tok>, b: Seq<Tok>)
    ensures
        seq_size(a + b) == seq_size(a) + seq_size(b),
    decreases b.len(),
{
    if b.len() == 0 {
        assert(a + b =~= a);
    } else {
        let b0 = b.subrange(0, b.len() - 1);
        lemma_size_concat(a, b0);
        assert((a + b).subrange(0, (a + b).len() - 1) =~= a + b0);
    }
}

pub proof fn lemma_size_front(s: Seq<Tok>)
    requires
        s.len() > 0,
    ensures
        seq_size(s) == tok_size(s[0]) + seq_size(s.drop_first()),
{
    lemma_size_concat(seq![s[0]], s.drop_first());
    assert(seq![s[0]] + s.drop_first() =~= s);
    assert(seq![s[0]].subrange(0, 0) =~= Seq::<Tok>::empty());
    assert(seq_size(seq![s[0]]) == seq_size(Seq::<Tok>::empty()) + tok_size(s[0]));
}

pub proof fn lemma_size_case_args(name: Seq<char>, args: Seq<Tok>)
    ensures
        seq_size(case_args(name, args)) == 2 + seq_size(args),
{
    let a = string_tok(trim_underscores(name));
    let pair = seq![a, comma_tok()];
    lemma_size_concat(pair, args);
    assert(pair.subrange(0, 1) =~= seq![a]);
    assert(seq![a].subrange(0, 0) =~= Seq::<Tok>::empty());
    assert(seq_size(seq![a]) == seq_size(Seq::<Tok>::empty()) + tok_size(a));
    assert(seq_size(pair) == seq_size(seq![a]) + tok_size(comma_tok()));
}

/// Prefixes `a` to a successful outcome.
pub open spec fn prepend(a: Seq<Tok>, r: Result<Seq<Tok>, Fault>) -> Result<Seq<Tok>, Fault> {
    match r {
        Err(f) => Err(f),
        Ok(w) => Ok(a + w),
    }
}

pub open spec fn comma_tok() -> Tok {
    Tok::Punct { ch: ',', joint: false, span: call_site() }
}

/// The arguments handed to a case conversion: its marker's spelling without
/// the underscore fence, as a string literal, then a comma, then the group's
/// contents.
pub open spec fn case_args(name: Seq<char>, args: Seq<Tok>) -> Seq<Tok> {
    seq![string_tok(trim_underscores(name)), comma_tok()] + args
}

/// The rewriting of a token sequence: each marker call is replaced by what
/// its operation gives for its rewritten arguments (the arguments of
/// `identity` are taken as they are), groups are rewritten inside, and
/// everything else is kept. The first diagnostic in reading order is the
/// outcome of the whole.
pub open spec fn walk(ts: Seq<Tok>) -> Result<Seq<Tok>, Fault>
    decreases seq_size(ts),
    via walk_decreases
{
    if ts.len() == 0 {
        Ok(Seq::empty())
    } else {
        let t = ts[0];
        let rest = ts.drop_first();
        match t {
            Tok::Group { delim, tokens, span } => match walk(tokens) {
                Err(f) => Err(f),
                Ok(b) => prepend(seq![Tok::Group { delim, tokens: b, span }], walk(rest)),
            },
            Tok::Ident { name, span } => match marker_of(name, span) {
                None => prepend(seq![t], walk(rest)),
                Some(Macro::Dollar) => prepend(seq![dollar_tok()], walk(rest)),
                Some(m) => if rest.len() == 0 {
                    Err(Fault { msg: "Expected '(' after builtin macro"@, span })
                } else {
                    match rest[0] {
                        Tok::Group { tokens: args, .. } => {
                            let after = rest.drop_first();
                            if m is Identity {
                                prepend(args, walk(after))
                            } else {
                                let inner = if m is ToCase {
                                    walk(case_args(name, args))
                                } else {
                                    walk(args)
                                };
                                match inner {
                                    Err(f) => Err(f),
                                    Ok(b) => match invoke_spec(m, b) {
                                        Err(f) => Err(f),
                                        Ok(v) => prepend(v, walk(after)),
                                    },
                                }
                            }
                        },
                        Tok::Ident { name: n2, span: s2 } => if !(m is Ignore) {
                            Err(Fault { msg: "Expected '('"@, span: s2 })
                        } else {
                            match marker_of(n2, s2) {
                                None => Err(Fault { msg: "Expected '(' or builtin macro"@, span: s2 }),
                                Some(Macro::Dollar) => walk(rest.drop_first()),
                                Some(_) => if rest.len() < 2 {
                                    Err(Fault { msg: "Expected '('"@, span: s2 })
                                } else {
                                    match rest[1] {
                                        Tok::Group { tokens: g, .. } => walk(
                                            g + rest.subrange(2, rest.len() as int),
                                        ),
                                        other => Err(Fault { msg: "Expected '('"@, span: span_of(other) }),
                                    }
                                },
                            }
                        },
                        other => Err(Fault { msg: "Expected '('"@, span: span_of(other) }),
                    }
                },
            },
            _ => prepend(seq![t], walk(rest)),
        }
    }
}

#[via_fn]
proof fn walk_decreases(ts: Seq<Tok>) {
    if ts.len() > 0 {
        let t = ts[0];
        let rest = ts.drop_first();
        lemma_size_front(ts);
        if rest.len() > 0 {
            lemma_size_front(rest);
            let r2 = rest.drop_first();
            match rest[0] {
                Tok::Group { tokens: args, .. } => {
                    if let Tok::Ident { name, .. } = t {
                        lemma_size_case_args(name, args);
                    }
                },
                _ => {},
            }
            if r2.len() > 0 {
                lemma_size_front(r2);
                if let Tok::Group { tokens: g, .. } = r2[0] {
                    lemma_size_concat(g, rest.subrange(2, rest.len() as int));
                    assert(r2.drop_first() =~= rest.subrange(2, rest.len() as int));
                }
            }
        }
    }
}

fn is_fenced(s: &str) -> (r: bool)
    ensures
        r == fenced(s@),
{
    let n = s.unicode_len();
    n >= 2 && s.get_char(0) == '_' && s.get_char(1) == '_' && s.get_char(n - 2) == '_'
        && s.get_char(n - 1) == '_'
}

fn fault(msg: &str, span: Span) -> (r: Diagnostic)
    ensures
        r@ == (Fault { msg: msg@, span }),
{
    Diagnostic { msg: String::from_str(msg), span }
}

impl Macro {
    /// The operation a marker spelling selects, if any.
    pub fn from_name(name: &str, pos: Span) -> (r: Option<Macro>)
        ensures
            r == marker_of(name@, pos),
    {
        if same_text(name, "__ignore__") {
            Some(Macro::Ignore)
        } else if same_text(name, "__identity__") || same_text(name, "__id__") {
            Some(Macro::Identity)
        } else if same_text(name, "__dollar__") || same_text(name, "__s__") {
            Some(Macro::Dollar)
        } else if same_text(name, "__string__") || same_text(name, "__str__") {
            Some(Macro::String)
        } else if same_text(name, "__head__") {
            Some(Macro::Head)
        } else if same_text(name, "__tail__") {
            Some(Macro::Tail)
        } else if same_text(name, "__start__") {
            Some(Macro::Start)
        } else if same_text(name, "__last__") {
            Some(Macro::Last)
        } else if same_text(name, "__reverse__") {
            Some(Macro::Reverse)
        } else if same_text(name, "__identifier__") || same_text(name, "__ident__") {
            Some(Macro::Identifier)
        } else if same_text(name, "__stringify__") || same_text(name, "__strfy__") {
            Some(Macro::Stringify)
        } else if same_text(name, "__replace_newline__") || same_text(name, "__repnl__") {
            Some(Macro::ReplaceNewline(pos))
        } else if same_text(name, "__str_replace__") || same_text(name, "__repstr__") {
            Some(Macro::StrReplace(pos))
        } else if is_fenced(name) {
            let lc = lowercase(name);
            if same_text(lc.as_str(), "__tocase__") || same_text(lc.as_str(), "__to_case__") {
                Some(Macro::ToCase(pos))
            } else {
                None
            }
        } else {
            None
        }
    }

    /// Runs the operation on its arguments.
    pub fn invoke(&self, input: Vec<Token>) -> (r: Result<Vec<Token>, Diagnostic>)
        ensures
            outcome_view(r) == invoke_spec(*self, toks_of(input@)),
    {
        match self {
            Macro::Ignore => {
                let v: Vec<Token> = Vec::new();
                assert(toks_of(v@) =~= Seq::<Tok>::empty());
                Ok(v)
            },
            Macro::Identity => Ok(input),
            Macro::Dollar => dollar_op(input),
            Macro::String => string_op(input),
            Macro::Head => Ok(head(input)),
            Macro::Tail => Ok(tail(input)),
            Macro::Start => Ok(start(input)),
            Macro::Last => Ok(last(input)),
            Macro::Reverse => Ok(reverse(input)),
            Macro::Identifier => identifier_op(input),
            Macro::Stringify => Ok(crate::stringify(input)),
            Macro::ReplaceNewline(pos) => replace_newline_op(input, *pos),
            Macro::StrReplace(pos) => str_replace_op(input, *pos),
            Macro::ToCase(pos) => to_case_op(input, *pos),
        }
    }
}

/// One level of the walk: the tokens still to read (kept last first), the
/// operation waiting for this level's output, if any, the brackets to put
/// back around it otherwise, and the output so far.
struct Frame {
    rev: Vec<Token>,
    pending: Option<Macro>,
    delim: Delimiter,
    span: Span,
    out: Vec<Token>,
}

/// A frame's mathematical value.
pub ghost struct FrameV {
    pub cursor: Seq<Tok>,
    pub pending: Option<Macro>,
    pub delim: Delimiter,
    pub span: Span,
    pub out: Seq<Tok>,
}

impl View for Frame {
    type V = FrameV;

    closed spec fn view(&self) -> FrameV {
        FrameV {
            cursor: toks_of(self.rev@).reverse(),
            pending: self.pending,
            delim: self.delim,
            span: self.span,
            out: toks_of(self.out@),
        }
    }
}

spec fn stack_of(fs: Seq<Frame>) -> Seq<FrameV> {
    Seq::new(fs.len(), |i: int| fs[i]@)
}

/// What a frame's output will be once its cursor is read to the end.
pub open spec fn finish(f: FrameV) -> Result<Seq<Tok>, Fault> {
    prepend(f.out, walk(f.cursor))
}

/// What a finished frame hands to the frame below it.
pub open spec fn close(f: FrameV, body: Seq<Tok>) -> Result<Seq<Tok>, Fault> {
    match f.pending {
        Some(m) => invoke_spec(m, body),
        None => Ok(seq![Tok::Group { delim: f.delim, tokens: body, span: f.span }]),
    }
}

pub open spec fn with_out(f: FrameV, out: Seq<Tok>) -> FrameV {
    FrameV { cursor: f.cursor, pending: f.pending, delim: f.delim, span: f.span, out }
}

/// The outcome of the walk from a stack of frames: the top frame is read to
/// the end and closed into the one below, and so on down to the bottom.
pub open spec fn resume(fs: Seq<FrameV>) -> Result<Seq<Tok>, Fault>
    decreases fs.len(),
{
    if fs.len() == 0 {
        Ok(Seq::empty())
    } else {
        let top = fs[fs.len() - 1];
        match finish(top) {
            Err(f) => Err(f),
            Ok(body) => if fs.len() == 1 {
                Ok(body)
            } else {
                match close(top, body) {
                    Err(f) => Err(f),
                    Ok(v) => {
                        let below = fs[fs.len() - 2];
                        resume(fs.subrange(0, fs.len() - 2).push(with_out(below, below.out + v)))
                    },
                }
            },
        }
    }
}

/// The work left in a stack of frames.
pub open spec fn measure(fs: Seq<FrameV>) -> nat
    decreases fs.len(),
{
    if fs.len() == 0 {
        0
    } else {
        measure(fs.drop_last()) + seq_size(fs[fs.len() - 1].cursor) + 1
    }
}

/// Replacing the top frame by one that finishes the same way leaves the
/// outcome as it is.
proof fn lemma_resume_top(fs: Seq<FrameV>, g: FrameV)
    requires
        fs.len() >= 1,
        g.pending == fs[fs.len() - 1].pending,
        g.delim == fs[fs.len() - 1].delim,
        g.span == fs[fs.len() - 1].span,
        finish(g) == finish(fs[fs.len() - 1]),
    ensures
        resume(fs.update(fs.len() - 1, g)) == resume(fs),
{
    let gs = fs.update(fs.len() - 1, g);
    if fs.len() >= 2 {
        assert(gs.subrange(0, fs.len() - 2) =~= fs.subrange(0, fs.len() - 2));
        assert(gs[fs.len() - 2] == fs[fs.len() - 2]);
    }
}

proof fn lemma_reverse_pop(s: Seq<Tok>)
    requires
        s.len() > 0,
    ensures
        s.reverse() =~= seq![s[s.len() - 1]] + s.drop_last().reverse(),
{
}

/// Moves the tokens of `src` onto `dst` so that, read last first, `dst`
/// starts with `src` in order.
fn push_reversed(dst: &mut Vec<Token>, src: Vec<Token>)
    ensures
        toks_of(final(dst)@).reverse() == toks_of(src@) + toks_of(old(dst)@).reverse(),
{
    let ghost total = toks_of(src@) + toks_of(old(dst)@).reverse();
    let mut src = src;
    while src.len() > 0
        invariant
            toks_of(src@) + toks_of(dst@).reverse() == total,
        decreases src@.len(),
    {
        let ghost s0 = src@;
        let ghost d0 = dst@;
        let t = src.pop().unwrap();
        assert(s0 =~= src@.push(t));
        dst.push(t);
        assert(dst@ =~= d0.push(t));
        proof {
            lemma_reverse_pop(toks_of(dst@));
            assert(toks_of(dst@).drop_last() =~= toks_of(d0));
            assert(toks_of(s0) =~= toks_of(src@) + seq![tok_of(t)]);
        }
        assert(toks_of(src@) + toks_of(dst@).reverse() =~= total);
    }
    assert(toks_of(src@) =~= Seq::<Tok>::empty());
    assert(toks_of(src@) + toks_of(dst@).reverse() =~= toks_of(dst@).reverse());
}

proof fn lemma_prepend_assoc(a: Seq<Tok>, b: Seq<Tok>, r: Result<Seq<Tok>, Fault>)
    ensures
        prepend(a, prepend(b, r)) == prepend(a + b, r),
{
    if let Ok(w) = r {
        assert(a + (b + w) =~= (a + b) + w);
    }
}

/// The outcome of a stack whose top was replaced by `g` and on which `nf`
/// was pushed.
proof fn lemma_resume_push(fs: Seq<FrameV>, g: FrameV, nf: FrameV)
    requires
        fs.len() >= 1,
    ensures
        resume(fs.update(fs.len() - 1, g).push(nf)) == match finish(nf) {
            Err(f) => Err(f),
            Ok(b) => match close(nf, b) {
                Err(f) => Err(f),
                Ok(v) => resume(fs.update(fs.len() - 1, with_out(g, g.out + v))),
            },
        },
{
    let ns = fs.update(fs.len() - 1, g).push(nf);
    if let Ok(b) = finish(nf) {
        if let Ok(v) = close(nf, b) {
            assert(ns.subrange(0, ns.len() - 2).push(with_out(ns[ns.len() - 2], ns[ns.len() - 2].out + v))
                =~= fs.update(fs.len() - 1, with_out(g, g.out + v)));
        }
    }
}

proof fn lemma_measure_top(fs: Seq<FrameV>, g: FrameV)
    requires
        fs.len() >= 1,
    ensures
        measure(fs.update(fs.len() - 1, g)) == measure(fs.drop_last()) + seq_size(g.cursor) + 1,
        measure(fs) == measure(fs.drop_last()) + seq_size(fs[fs.len() - 1].cursor) + 1,
{
    assert(fs.update(fs.len() - 1, g).drop_last() =~= fs.drop_last());
}

proof fn lemma_stack_push(fs: Seq<Frame>, f: Frame)
    ensures
        stack_of(fs.push(f)) =~= stack_of(fs).push(f@),
{
}

proof fn lemma_stack_pop(fs: Seq<Frame>)
    requires
        fs.len() >= 1,
    ensures
        stack_of(fs.drop_last()) =~= stack_of(fs).drop_last(),
        stack_of(fs)[fs.len() - 1] == fs[fs.len() - 1]@,
{
}

/// What reading one token of a frame leads to.
enum Advance {
    /// The frame goes on.
    Continue,
    /// A frame for a group or a marker's arguments is to be read first.
    Push(Frame),
    /// A diagnostic ends the walk.
    Fail(Diagnostic),
}

/// `after`, possibly with a frame pushed above it, finishes as `before` did,
/// with less work left.
spec fn advanced(before: FrameV, after: FrameV, a: Advance) -> bool {
    &&& after.pending == before.pending
    &&& after.delim == before.delim
    &&& after.span == before.span
    &&& match a {
        Advance::Continue => finish(after) == finish(before) && seq_size(after.cursor) < seq_size(
            before.cursor,
        ),
        Advance::Push(nf) => {
            &&& match finish(nf@) {
                Err(f) => finish(before) == Err::<Seq<Tok>, Fault>(f),
                Ok(b) => match close(nf@, b) {
                    Err(f) => finish(before) == Err::<Seq<Tok>, Fault>(f),
                    Ok(v) => finish(before) == finish(with_out(after, after.out + v)),
                },
            }
            &&& seq_size(after.cursor) + seq_size(nf@.cursor) + 1 < seq_size(before.cursor)
        },
        Advance::Fail(d) => finish(before) == Err::<Seq<Tok>, Fault>(d@),
    }
}

/// Takes the first token off a frame's cursor.
fn pop_token(top: &mut Frame) -> (t: Option<Token>)
    ensures
        final(top).pending == old(top).pending,
        final(top).delim == old(top).delim,
        final(top).span == old(top).span,
        final(top)@.out == old(top)@.out,
        match t {
            Some(t) => old(top)@.cursor == seq![tok_of(t)] + final(top)@.cursor,
            None => old(top)@.cursor.len() == 0 && final(top)@.cursor == old(top)@.cursor,
        },
{
    let ghost r0 = toks_of(top.rev@);
    let t = top.rev.pop();
    proof {
        if t is Some {
            lemma_reverse_pop(r0);
            assert(r0.drop_last() =~= toks_of(top.rev@));
        } else {
            assert(r0 =~= Seq::<Tok>::empty());
        }
    }
    t
}

/// The frame `before` with the marker `name` first on its cursor and then
/// `t2`; `top` is that frame with both taken off.
spec fn marker_then(before: FrameV, top: FrameV, name: Seq<char>, span: Span, t2: Tok) -> bool {
    &&& before.cursor == seq![Tok::Ident { name, span }, t2] + top.cursor
    &&& before.out == top.out
    &&& before.pending == top.pending
    &&& before.delim == top.delim
    &&& before.span == top.span
}

proof fn lemma_marker_then(before: FrameV, top: FrameV, name: Seq<char>, span: Span, t2: Tok)
    requires
        marker_then(before, top, name, span, t2),
    ensures
        before.cursor[0] == (Tok::Ident { name, span }),
        before.cursor.drop_first()[0] == t2,
        before.cursor.drop_first().drop_first() == top.cursor,
        seq_size(before.cursor) == 1 + tok_size(t2) + seq_size(top.cursor),
{
    let rest = before.cursor.drop_first();
    assert(rest =~= seq![t2] + top.cursor);
    assert(rest.drop_first() =~= top.cursor);
    lemma_size_front(before.cursor);
    lemma_size_front(rest);
}

/// Puts the case specifier spelled by the marker `name`, and a comma, in
/// front of a cursor kept last first.
fn push_case_prefix(rev: &mut Vec<Token>, name: &str)
    ensures
        toks_of(final(rev)@).reverse() == seq![string_tok(trim_underscores(name@)), comma_tok()]
            + toks_of(old(rev)@).reverse(),
{
    let spec_text = String::from_str(trimmed(name));
    let lit = string_token(spec_text);
    let ghost a = lit@;
    assert(a == string_tok(trim_underscores(name@)));
    let comma = Token::Punct { ch: ',', joint: false, span: Span::call_site() };
    assert(comma@ == comma_tok());
    let ghost r0 = toks_of(rev@);
    rev.push(comma);
    let ghost r1 = toks_of(rev@);
    rev.push(lit);
    proof {
        assert(r1 =~= r0.push(comma_tok()));
        assert(toks_of(rev@) =~= r1.push(a));
        lemma_reverse_pop(toks_of(rev@));
        assert(toks_of(rev@).drop_last() =~= r1);
        lemma_reverse_pop(r1);
        assert(r1.drop_last() =~= r0);
        assert(toks_of(rev@).reverse() =~= seq![a, comma_tok()] + r0.reverse());
    }
}

/// Reads the call of the operation `m`, written `name(args)`, from a frame.
#[verifier::rlimit(100)]
#[verifier::spinoff_prover]
fn advance_call(
    top: &mut Frame,
    name: String,
    span: Span,
    m: Macro,
    d: Delimiter,
    args: Vec<Token>,
    gs: Span,
    Ghost(before): Ghost<FrameV>,
) -> (a: Advance)
    requires
        marker_of(name@, span) == Some(m),
        !(m is Dollar),
        marker_then(before, old(top)@, name@, span, Tok::Group { delim: d, tokens: toks_of(args@), span: gs }),
    ensures
        advanced(before, final(top)@, a),
{
    let ghost av = toks_of(args@);
    let ghost after = top@.cursor;
    proof {
        lemma_marker_then(before, top@, name@, span, Tok::Group { delim: d, tokens: av, span: gs });
    }
    if matches!(m, Macro::Identity) {
        let mut args = args;
        top.out.append(&mut args);
        proof {
            assert(top@.out =~= before.out + av);
            lemma_prepend_assoc(before.out, av, walk(after));
        }
        Advance::Continue
    } else {
        let mut rev: Vec<Token> = Vec::new();
        push_reversed(&mut rev, args);
        let ghost cur: Seq<Tok>;
        if matches!(m, Macro::ToCase(_)) {
            push_case_prefix(&mut rev, name.as_str());
            proof {
                cur = case_args(name@, av);
                assert(toks_of(rev@).reverse() =~= cur);
                lemma_size_case_args(name@, av);
            }
        } else {
            proof {
                cur = av;
            }
        }
        let nf = Frame { rev, pending: Some(m), delim: d, span: gs, out: Vec::new() };
        proof {
            assert(nf@.cursor == cur);
            assert(nf@.out =~= Seq::<Tok>::empty());
            if let Ok(b) = walk(cur) {
                assert(Seq::<Tok>::empty() + b =~= b);
                if let Ok(v) = invoke_spec(m, b) {
                    lemma_prepend_assoc(before.out, v, walk(after));
                }
            }
        }
        Advance::Push(nf)
    }
}

/// Reads `__ignore__ n2`, where `n2` is a second marker, from a frame: a
/// group after `n2` is read in place of the three; a `dollar` marker is
/// dropped along with `__ignore__`.
#[verifier::rlimit(100)]
#[verifier::spinoff_prover]
fn advance_ignored(
    top: &mut Frame,
    name: Ghost<Seq<char>>,
    span: Span,
    n2: String,
    s2: Span,
    Ghost(before): Ghost<FrameV>,
) -> (a: Advance)
    requires
        marker_of(name@, span) == Some(Macro::Ignore),
        marker_then(before, old(top)@, name@, span, Tok::Ident { name: n2@, span: s2 }),
    ensures
        advanced(before, final(top)@, a),
{
    let ghost after = top@.cursor;
    proof {
        lemma_marker_then(before, top@, name@, span, Tok::Ident { name: n2@, span: s2 });
    }
    match Macro::from_name(n2.as_str(), s2) {
        None => Advance::Fail(fault("Expected '(' or builtin macro", s2)),
        Some(Macro::Dollar) => {
            proof {
                assert(tok_size(Tok::Ident { name: n2@, span: s2 }) == 1);
            }
            Advance::Continue
        },
        Some(_) => {
            let t3 = match pop_token(top) {
                None => return Advance::Fail(fault("Expected '('", s2)),
                Some(t3) => t3,
            };
            let ghost after2 = top@.cursor;
            let ghost t3v = tok_of(t3);
            proof {
                let rest = before.cursor.drop_first();
                assert(rest.len() >= 2);
                assert(rest[1] == tok_of(t3));
                assert(rest.subrange(2, rest.len() as int) =~= after2);
                assert(after[0] == t3v);
                assert(after.drop_first() =~= after2);
                lemma_size_front(after);
            }
            match t3 {
                Token::Group { delim: d3, tokens: g3, span: sp3 } => {
                    let ghost gv = toks_of(g3@);
                    proof {
                        assert(t3v == (Tok::Group { delim: d3, tokens: gv, span: sp3 }));
                        assert(tok_size(t3v) == 3 + seq_size(gv));
                    }
                    push_reversed(&mut top.rev, g3);
                    proof {
                        assert(top@.cursor =~= gv + after2);
                        lemma_size_concat(gv, after2);
                        assert(seq_size(top@.cursor) < seq_size(before.cursor));
                        assert(walk(before.cursor) == walk(gv + after2));
                    }
                    Advance::Continue
                },
                other => Advance::Fail(fault("Expected '('", other.span())),
            }
        },
    }
}

/// Reads the arguments of the marker `name`, whose operation is `m`, from
/// the frame `top`; `before` is the frame as it was with the marker still
/// on its cursor.
fn advance_marker(top: &mut Frame, name: String, span: Span, m: Macro, Ghost(before): Ghost<FrameV>) -> (a: Advance)
    requires
        marker_of(name@, span) == Some(m),
        !(m is Dollar),
        before.cursor == seq![Tok::Ident { name: name@, span }] + old(top)@.cursor,
        before.out == old(top)@.out,
        before.pending == old(top)@.pending,
        before.delim == old(top)@.delim,
        before.span == old(top)@.span,
    ensures
        advanced(before, final(top)@, a),
{
    let ghost rest = top@.cursor;
    proof {
        assert(before.cursor[0] == (Tok::Ident { name: name@, span }));
        assert(before.cursor.drop_first() =~= rest);
    }
    let t2 = match pop_token(top) {
        None => return Advance::Fail(fault("Expected '(' after builtin macro", span)),
        Some(t2) => t2,
    };
    proof {
        assert(before.cursor =~= seq![Tok::Ident { name: name@, span }, tok_of(t2)] + top@.cursor);
    }
    match t2 {
        Token::Group { delim: d, tokens: args, span: gs } => advance_call(
            top,
            name,
            span,
            m,
            d,
            args,
            gs,
            Ghost(before),
        ),
        Token::Ident { name: n2, span: s2 } => {
            if !matches!(m, Macro::Ignore) {
                return Advance::Fail(fault("Expected '('", s2));
            }
            advance_ignored(top, Ghost(name@), span, n2, s2, Ghost(before))
        },
        other => Advance::Fail(fault("Expected '('", other.span())),
    }
}

/// Reads one token of a frame whose cursor is not empty.
fn advance(top: &mut Frame) -> (a: Advance)
    requires
        old(top)@.cursor.len() > 0,
    ensures
        advanced(old(top)@, final(top)@, a),
{
    let ghost before = top@;
    let t = match pop_token(top) {
        Some(t) => t,
        None => return Advance::Continue,
    };
    let ghost rest = top@.cursor;
    proof {
        assert(before.cursor[0] == tok_of(t));
        assert(before.cursor.drop_first() =~= rest);
        lemma_size_front(before.cursor);
    }
    match t {
        Token::Group { delim, tokens, span } => {
            let ghost inner = toks_of(tokens@);
            let mut rev: Vec<Token> = Vec::new();
            push_reversed(&mut rev, tokens);
            let nf = Frame { rev, pending: None, delim, span, out: Vec::new() };
            proof {
                assert(toks_of(rev@).reverse() =~= inner);
                assert(nf@.out =~= Seq::<Tok>::empty());
                if let Ok(b) = walk(inner) {
                    assert(Seq::<Tok>::empty() + b =~= b);
                    let gv = seq![Tok::Group { delim, tokens: b, span }];
                    lemma_prepend_assoc(before.out, gv, walk(rest));
                }
            }
            Advance::Push(nf)
        },
        Token::Ident { name, span } => {
            match Macro::from_name(name.as_str(), span) {
                None => {
                    let ghost tv = tok_of(Token::Ident { name, span });
                    top.out.push(Token::Ident { name, span });
                    proof {
                        assert(top@.out =~= before.out + seq![tv]);
                        lemma_prepend_assoc(before.out, seq![tv], walk(rest));
                    }
                    Advance::Continue
                },
                Some(Macro::Dollar) => {
                    top.out.push(Token::Punct { ch: '$', joint: false, span: Span::call_site() });
                    proof {
                        assert(top@.out =~= before.out + seq![dollar_tok()]);
                        lemma_prepend_assoc(before.out, seq![dollar_tok()], walk(rest));
                    }
                    Advance::Continue
                },
                Some(m) => advance_marker(top, name, span, m, Ghost(before)),
            }
        },
        other => {
            let ghost tv = tok_of(other);
            top.out.push(other);
            proof {
                assert(top@.out =~= before.out + seq![tv]);
                lemma_prepend_assoc(before.out, seq![tv], walk(rest));
            }
            Advance::Continue
        },
    }
}

/// A stack of frames whose bottom frame waits for no operation.
spec fn stack_ok(fs: Seq<Frame>) -> bool {
    fs.len() >= 1 && fs[0].pending is None
}

/// What one step of the walk leads to: `None` where the walk goes on with
/// the same outcome and less work, the outcome where it ends.
spec fn stepped(before: Seq<Frame>, after: Seq<Frame>, r: Option<Result<Vec<Token>, Diagnostic>>) -> bool {
    match r {
        None => stack_ok(after) && resume(stack_of(after)) == resume(stack_of(before)) && measure(
            stack_of(after),
        ) < measure(stack_of(before)),
        Some(res) => outcome_view(res) == resume(stack_of(before)),
    }
}

/// Reads one token of the top frame `top`, which was taken off `frames`.
fn step_advance(frames: &mut Vec<Frame>, top: Frame) -> (r: Option<Result<Vec<Token>, Diagnostic>>)
    requires
        stack_ok(old(frames)@.push(top)),
        top@.cursor.len() > 0,
    ensures
        stepped(old(frames)@.push(top), final(frames)@, r),
{
    let ghost below = frames@;
    let ghost fs = stack_of(frames@.push(top));
    let ghost n = frames@.len() + 1;
    let ghost topv = top@;
    let mut top = top;
    proof {
        lemma_stack_push(frames@, top);
        assert(fs[n - 1] == topv);
        lemma_measure_top(fs, topv);
        assert(fs.drop_last() =~= stack_of(below));
    }
    match advance(&mut top) {
        Advance::Continue => {
            proof {
                lemma_resume_top(fs, top@);
                lemma_measure_top(fs, top@);
            }
            frames.push(top);
            proof {
                lemma_stack_push(below, top);
                assert(stack_of(frames@) =~= fs.update(n - 1, top@));
                if n == 1 {
                    assert(frames@[0] == top);
                } else {
                    assert(frames@[0] == below[0]);
                }
            }
            None
        },
        Advance::Push(nf) => {
            proof {
                let g = top@;
                lemma_resume_push(fs, g, nf@);
                lemma_measure_top(fs, g);
                if let Ok(b) = finish(nf@) {
                    if let Ok(v) = close(nf@, b) {
                        lemma_resume_top(fs, with_out(g, g.out + v));
                    }
                }
            }
            frames.push(top);
            proof {
                lemma_stack_push(below, top);
                assert(stack_of(frames@) =~= fs.update(n - 1, top@));
                if n == 1 {
                    assert(frames@[0] == top);
                } else {
                    assert(frames@[0] == below[0]);
                }
            }
            let ghost mid = frames@;
            frames.push(nf);
            proof {
                lemma_stack_push(mid, nf);
                assert(frames@[0] == mid[0]);
                assert(stack_of(frames@).drop_last() =~= stack_of(mid));
            }
            None
        },
        Advance::Fail(d) => Some(Err(d)),
    }
}

/// Closes the top frame `top`, whose cursor is read to the end, into the
/// frame below it; at the bottom, its output is the result.
fn step_close(frames: &mut Vec<Frame>, top: Frame) -> (r: Option<Result<Vec<Token>, Diagnostic>>)
    requires
        stack_ok(old(frames)@.push(top)),
        top@.cursor.len() == 0,
    ensures
        stepped(old(frames)@.push(top), final(frames)@, r),
{
    let ghost below_frames = frames@;
    let ghost fs = stack_of(frames@.push(top));
    let ghost n = frames@.len() + 1;
    let ghost topv = top@;
    proof {
        lemma_stack_push(frames@, top);
        assert(fs[n - 1] == topv);
        assert(topv.cursor =~= Seq::<Tok>::empty());
        assert(topv.out + Seq::<Tok>::empty() =~= topv.out);
        assert(finish(topv) == Ok::<Seq<Tok>, Fault>(topv.out));
    }
    if frames.len() == 0 {
        return Some(Ok(top.out));
    }
    proof {
        lemma_stack_pop(frames@);
    }
    let mut below = frames.pop().unwrap();
    let ghost bv = below@;
    proof {
        assert(bv == fs[n - 2]);
    }
    let res = match top.pending {
        Some(m) => m.invoke(top.out),
        None => {
            let mut v: Vec<Token> = Vec::new();
            v.push(Token::Group { delim: top.delim, tokens: top.out, span: top.span });
            assert(toks_of(v@) =~= seq![
                Tok::Group { delim: topv.delim, tokens: topv.out, span: topv.span },
            ]);
            Ok(v)
        },
    };
    proof {
        assert(outcome_view(res) == close(topv, topv.out));
    }
    let mut v = match res {
        Err(d) => return Some(Err(d)),
        Ok(v) => v,
    };
    let ghost vv = toks_of(v@);
    below.out.append(&mut v);
    proof {
        assert(toks_of(below.out@) =~= bv.out + vv);
        assert(below@ == with_out(bv, bv.out + vv));
    }
    frames.push(below);
    proof {
        lemma_stack_push(below_frames.drop_last(), below);
        assert(below_frames.drop_last().push(below) =~= frames@);
        assert(stack_of(frames@) =~= fs.subrange(0, n - 2).push(with_out(bv, bv.out + vv)));
        assert(fs.drop_last().drop_last() =~= fs.subrange(0, n - 2));
        assert(stack_of(frames@).drop_last() =~= fs.subrange(0, n - 2));
        lemma_measure_top(fs.drop_last(), bv);
        lemma_measure_top(fs, topv);
        assert(frames@[0].pending is None) by {
            if n == 2 {
                assert(frames@[0] == below);
            } else {
                assert(frames@[0] == below_frames[0]);
            }
        }
    }
    None
}

/// Rewrites a token sequence, or gives the first diagnostic met.
pub fn place_op(input: Vec<Token>) -> (r: Result<Vec<Token>, Diagnostic>)
    ensures
        outcome_view(r) == walk(toks_of(input@)),
{
    let ghost s = toks_of(input@);
    let mut rev0: Vec<Token> = Vec::new();
    push_reversed(&mut rev0, input);
    let mut frames: Vec<Frame> = Vec::new();
    let f0 = Frame {
        rev: rev0,
        pending: None,
        delim: Delimiter::Invisible,
        span: Span::call_site(),
        out: Vec::new(),
    };
    proof {
        assert(toks_of(rev0@).reverse() =~= s);
        assert(f0@.cursor =~= s);
        assert(f0@.out =~= Seq::<Tok>::empty());
        if let Ok(w) = walk(s) {
            assert(Seq::<Tok>::empty() + w =~= w);
        }
    }
    frames.push(f0);
    proof {
        assert(stack_of(frames@) =~= seq![f0@]);
    }
    loop
        invariant
            stack_ok(frames@),
            s == toks_of(input@),
            resume(stack_of(frames@)) == walk(s),
        decreases measure(stack_of(frames@)),
    {
        let ghost old_frames = frames@;
        let top = frames.pop().unwrap();
        proof {
            assert(frames@.push(top) =~= old_frames);
            lemma_toks_of(top.rev@);
        }
        let ghost before = frames@.push(top);
        assert(before == old_frames);
        let r = if top.rev.len() > 0 {
            step_advance(&mut frames, top)
        } else {
            step_close(&mut frames, top)
        };
        assert(stepped(old_frames, frames@, r));
        match r {
            Some(res) => {
                assert(outcome_view(res) == walk(toks_of(input@)));
                return res;
            },
            None => {},
        }
    }
}

/// Rewrites a token sequence: each marker call is replaced by what its
/// operation gives for its rewritten arguments, innermost first. A malformed
/// call gives the tokens of a diagnostic instead of the whole result.
pub fn place(input: Vec<Token>) -> (r: Vec<Token>)
    ensures
        toks_of(r@) == emitted(walk(toks_of(input@))),
{
    emit(place_op(input))
}

} // verus!
