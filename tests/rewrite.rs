use place_macro::{place, Delimiter, Span, Token};

fn at(id: u64) -> Span {
    Span { id }
}

fn ident(name: &str) -> Token {
    Token::Ident { name: name.to_string(), span: at(1) }
}

fn ident_at(name: &str, id: u64) -> Token {
    Token::Ident { name: name.to_string(), span: at(id) }
}

fn punct(ch: char) -> Token {
    Token::Punct { ch, joint: false, span: at(2) }
}

fn lit(raw: &str) -> Token {
    Token::Literal { raw: raw.to_string(), float_value: None, span: at(3) }
}

fn paren(tokens: Vec<Token>) -> Token {
    Token::Group { delim: Delimiter::Parenthesis, tokens, span: at(4) }
}

fn bracket(tokens: Vec<Token>) -> Token {
    Token::Group { delim: Delimiter::Bracket, tokens, span: at(4) }
}

fn out_str(value: &str) -> Token {
    Token::Str { value: value.to_string(), span: Span::call_site() }
}

fn out_ident(name: &str) -> Token {
    Token::Ident { name: name.to_string(), span: Span::call_site() }
}

fn error(msg: &str, id: u64) -> Vec<Token> {
    vec![
        Token::Ident { name: "compile_error".to_string(), span: at(id) },
        Token::Punct { ch: '!', joint: false, span: Span::call_site() },
        Token::Group {
            delim: Delimiter::Parenthesis,
            tokens: vec![out_str(msg)],
            span: at(id),
        },
    ]
}

fn plain() -> Vec<Token> {
    vec![
        ident("fn"),
        ident("f"),
        paren(vec![]),
        Token::Group {
            delim: Delimiter::Brace,
            tokens: vec![ident("x"), punct('+'), lit("1"), bracket(vec![ident("__other__")])],
            span: at(9),
        },
    ]
}

#[test]
fn marker_free_input_passes_through() {
    assert_eq!(place(plain()), plain());
    assert_eq!(place(vec![]), vec![]);
}

#[test]
fn rewriting_marker_free_output_again_changes_nothing() {
    let input = vec![ident("a"), ident("__string__"), paren(vec![ident("b"), lit("2")])];
    let once = place(input);
    assert_eq!(once, vec![ident("a"), out_str("b2")]);
    let twice = place(place(vec![ident("a"), ident("__string__"), paren(vec![ident("b"), lit("2")])]));
    assert_eq!(twice, once);
}

#[test]
fn output_with_markers_is_rewritten_again() {
    // `__identity__(__string__)` puts a marker into the output, so a second
    // rewrite evaluates it.
    let input = || vec![ident("__identity__"), paren(vec![ident("__string__")]), paren(vec![ident("x")])];
    let once = place(input());
    assert_eq!(once, vec![ident("__string__"), paren(vec![ident("x")])]);
    assert_eq!(place(once), vec![out_str("x")]);
}

#[test]
fn nested_calls_run_innermost_first() {
    let input = vec![
        ident("__string__"),
        paren(vec![
            lit("1"),
            ident("__string__"),
            paren(vec![
                lit("2"),
                ident("__identity__"),
                paren(vec![lit("3"), ident("__string__"), paren(vec![lit("4")])]),
            ]),
        ]),
    ];
    assert_eq!(place(input), vec![out_str("123__string__4")]);
}

#[test]
fn marker_at_end_is_reported() {
    let input = vec![ident("a"), ident_at("__string__", 11)];
    assert_eq!(place(input), error("Expected '(' after builtin macro", 11));
}

#[test]
fn marker_before_other_token_is_reported() {
    let input = vec![ident("__head__"), ident_at("x", 12)];
    assert_eq!(place(input), error("Expected '('", 12));
    let input = vec![ident("__head__"), Token::Literal { raw: "1".to_string(), float_value: None, span: at(13) }];
    assert_eq!(place(input), error("Expected '('", 13));
}

fn out_dollar() -> Token {
    Token::Punct { ch: '$', joint: false, span: Span::call_site() }
}

#[test]
fn dollar_markers() {
    let input = vec![ident("__dollar__"), ident("x"), ident("__s__"), ident("y")];
    assert_eq!(place(input), vec![out_dollar(), ident("x"), out_dollar(), ident("y")]);
}

#[test]
fn identity_does_not_rewrite_its_arguments() {
    let input = vec![ident("__id__"), paren(vec![ident("__string__"), paren(vec![ident("x")])])];
    assert_eq!(place(input), vec![ident("__string__"), paren(vec![ident("x")])]);
}

#[test]
fn groups_are_rewritten_inside() {
    let input = vec![bracket(vec![ident("__str__"), paren(vec![ident("a")])])];
    assert_eq!(place(input), vec![bracket(vec![out_str("a")])]);
}

#[test]
fn sequence_markers() {
    let args = || vec![ident("a"), ident("b"), ident("c")];
    let call = |m: &str| vec![ident(m), paren(args())];
    assert_eq!(place(call("__head__")), vec![ident("a")]);
    assert_eq!(place(call("__tail__")), vec![ident("b"), ident("c")]);
    assert_eq!(place(call("__start__")), vec![ident("a"), ident("b")]);
    assert_eq!(place(call("__last__")), vec![ident("c")]);
    assert_eq!(place(call("__reverse__")), vec![ident("c"), ident("b"), ident("a")]);
    assert_eq!(place(call("__ignore__")), vec![]);
    assert_eq!(place(call("__ident__")), vec![out_ident("abc")]);
    assert_eq!(place(call("__strfy__")), vec![out_str("a b c")]);
}

#[test]
fn case_markers_take_their_style_from_their_spelling() {
    let call = |m: &str| vec![ident(m), paren(vec![ident("my_var")])];
    assert_eq!(place(call("__ToCase__")), vec![out_ident("MyVar")]);
    assert_eq!(place(call("__TO_CASE__")), vec![out_ident("MY_VAR")]);
    assert_eq!(place(call("__toCase__")), vec![out_ident("myVar")]);
    assert_eq!(place(call("__tocase__")), vec![out_ident("myvar")]);
    assert_eq!(place(call("__TOCASE__")), vec![out_ident("MYVAR")]);
    assert_eq!(place(call("__to_case__")), vec![out_ident("my_var")]);
}

#[test]
fn case_marker_with_unknown_spelling_is_reported() {
    let input = vec![ident_at("__To_Case__", 14), paren(vec![ident("my_var")])];
    assert_eq!(place(input), error("Unknown case specifier: 'To_Case'", 14));
}

#[test]
fn ignore_then_marker_reads_the_group_in_place() {
    let input = vec![
        ident("__ignore__"),
        ident("__string__"),
        paren(vec![ident("a"), ident("b")]),
        ident("c"),
    ];
    assert_eq!(place(input), vec![ident("a"), ident("b"), ident("c")]);
}

#[test]
fn ignore_then_dollar_drops_both() {
    let input = vec![ident("__ignore__"), ident("__s__"), ident("x")];
    assert_eq!(place(input), vec![ident("x")]);
}

#[test]
fn ignore_then_plain_identifier_is_reported() {
    let input = vec![ident("__ignore__"), ident_at("foo", 15)];
    assert_eq!(place(input), error("Expected '(' or builtin macro", 15));
}

#[test]
fn ignore_then_marker_without_group_is_reported() {
    let input = vec![ident("__ignore__"), ident_at("__string__", 16), ident_at("x", 17)];
    assert_eq!(place(input), error("Expected '('", 17));
    let input = vec![ident("__ignore__"), ident_at("__string__", 16)];
    assert_eq!(place(input), error("Expected '('", 16));
}

#[test]
fn diagnostic_of_an_operation_is_the_whole_result() {
    let input = vec![
        ident("before"),
        ident_at("__repstr__", 18),
        paren(vec![lit("\"a\"")]),
        ident("after"),
    ];
    assert_eq!(place(input), error("Expected more arguments", 18));
}

#[test]
fn replace_markers() {
    let input = vec![
        ident("__repnl__"),
        paren(vec![lit("\"a\\n  b\""), punct(','), lit("\" \"")]),
        ident("__str_replace__"),
        paren(vec![lit("\"x.y\""), punct(','), lit("\".\""), punct(','), lit("\"::\"")]),
    ];
    assert_eq!(place(input), vec![out_str("a b"), out_str("x::y")]);
}

#[test]
fn markers_inside_marker_arguments() {
    let input = vec![
        ident("__ident__"),
        paren(vec![
            ident("get_"),
            ident("__to_case__"),
            paren(vec![ident("FieldName")]),
        ]),
    ];
    assert_eq!(place(input), vec![out_ident("get_field_name")]);
}
