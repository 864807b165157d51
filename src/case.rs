//! Identifier case conversion.

use vstd::prelude::*;
use crate::text::same_text;

verus! {

/// A naming convention that an identifier can be rewritten into.
#[derive(Clone, Copy, Debug, PartialEq, Eq, Structural)]
pub enum CaseStyle {
    /// Words joined with no separator, all upper case.
    UpperFlat,
    /// Words joined with no separator, all lower case.
    Flat,
    /// camelCase.
    Camel,
    /// PascalCase.
    Pascal,
    /// snake_case.
    Snake,
    /// SCREAMING_SNAKE_CASE.
    UpperSnake,
}

/// The words of `s` rejoined in the given style.
pub uninterp spec fn recased(s: Seq<char>, style: CaseStyle) -> Seq<char>;

/// Relies on `convert_case::Casing::to_case`: splits the text into words
/// and joins them in the given style. The result depends on the text and
/// the style alone.
#[verifier::external_body]
pub(crate) fn convert(s: &str, style: CaseStyle) -> (r: String)
    ensures
        r@ == recased(s@, style),
{
    let case = match style {
        CaseStyle::UpperFlat => convert_case::Case::UpperFlat,
        CaseStyle::Flat => convert_case::Case::Flat,
        CaseStyle::Camel => convert_case::Case::Camel,
        CaseStyle::Pascal => convert_case::Case::Pascal,
        CaseStyle::Snake => convert_case::Case::Snake,
        CaseStyle::UpperSnake => convert_case::Case::UpperSnake,
    };
    convert_case::Casing::to_case(&s, case)
}

/// The style a case specifier names: each is the word "to case" written in
/// that style.
pub open spec fn style_of(spec: Seq<char>) -> Option<CaseStyle> {
    if spec == "TOCASE"@ {
        Some(CaseStyle::UpperFlat)
    } else if spec == "tocase"@ {
        Some(CaseStyle::Flat)
    } else if spec == "toCase"@ {
        Some(CaseStyle::Camel)
    } else if spec == "ToCase"@ {
        Some(CaseStyle::Pascal)
    } else if spec == "to_case"@ {
        Some(CaseStyle::Snake)
    } else if spec == "TO_CASE"@ {
        Some(CaseStyle::UpperSnake)
    } else {
        None
    }
}

/// The style a case specifier names, if any.
pub fn get_style(spec: &str) -> (r: Option<CaseStyle>)
    ensures
        r == style_of(spec@),
{
    if same_text(spec, "TOCASE") {
        Some(CaseStyle::UpperFlat)
    } else if same_text(spec, "tocase") {
        Some(CaseStyle::Flat)
    } else if same_text(spec, "toCase") {
        Some(CaseStyle::Camel)
    } else if same_text(spec, "ToCase") {
        Some(CaseStyle::Pascal)
    } else if same_text(spec, "to_case") {
        Some(CaseStyle::Snake)
    } else if same_text(spec, "TO_CASE") {
        Some(CaseStyle::UpperSnake)
    } else {
        None
    }
}

/// The lower-case form of a text.
pub uninterp spec fn lower_of(s: Seq<char>) -> Seq<char>;

/// Relies on `str::to_lowercase`: the Unicode lower-case mapping of each
/// character. The result depends on the text alone.
#[verifier::external_body]
pub(crate) fn lowercase(s: &str) -> (r: String)
    ensures
        r@ == lower_of(s@),
{
    s.to_lowercase()
}

/// The text without its leading underscores.
pub open spec fn trim_start(s: Seq<char>) -> Seq<char>
    decreases s.len(),
{
    if s.len() > 0 && s[0] == '_' {
        trim_start(s.drop_first())
    } else {
        s
    }
}

/// The text without its trailing underscores.
pub open spec fn trim_end(s: Seq<char>) -> Seq<char>
    decreases s.len(),
{
    if s.len() > 0 && s[s.len() - 1] == '_' {
        trim_end(s.drop_last())
    } else {
        s
    }
}

/// The text without its leading and trailing underscores.
pub open spec fn trim_underscores(s: Seq<char>) -> Seq<char> {
    trim_end(trim_start(s))
}

/// The text without its leading and trailing underscores.
pub fn trimmed(s: &str) -> (r: &str)
    ensures
        r@ == trim_underscores(s@),
{
    let n = s.unicode_len();
    let mut a: usize = 0;
    assert(s@.subrange(0, n as int) =~= s@);
    while a < n && s.get_char(a) == '_'
        invariant
            n == s@.len(),
            a <= n,
            trim_start(s@) == trim_start(s@.subrange(a as int, n as int)),
        decreases n - a,
    {
        assert(s@.subrange(a + 1, n as int) =~= s@.subrange(a as int, n as int).drop_first());
        a = a + 1;
    }
    let ghost t = s@.subrange(a as int, n as int);
    assert(trim_start(s@) == t);
    let mut b: usize = n;
    assert(trim_start(s@) == trim_start(t));
    while b > a && s.get_char(b - 1) == '_'
        invariant
            n == s@.len(),
            a <= b <= n,
            t == s@.subrange(a as int, n as int),
            trim_end(t) == trim_end(s@.subrange(a as int, b as int)),
        decreases b,
    {
        assert(s@.subrange(a as int, b - 1) =~= s@.subrange(a as int, b as int).drop_last());
        b = b - 1;
    }
    s.substring_char(a, b)
}

} // verus!
