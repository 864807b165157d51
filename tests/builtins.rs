use place_macro::{
    dollar, head, identifier, identity, ignore, last, replace_newline, reverse, start,
    str_replace, string, tail, to_case, Delimiter, Span, Token,
};

fn at(id: u64) -> Span {
    Span { id }
}

fn ident(name: &str) -> Token {
    Token::Ident { name: name.to_string(), span: at(1) }
}

fn ident_at(name: &str, id: u64) -> Token {
    Token::Ident { name: name.to_string(), span: at(id) }
}

fn punct(ch: char) -> Token {
    Token::Punct { ch, joint: false, span: at(2) }
}

fn lit(raw: &str) -> Token {
    Token::Literal { raw: raw.to_string(), float_value: None, span: at(3) }
}

fn lit_at(raw: &str, id: u64) -> Token {
    Token::Literal { raw: raw.to_string(), float_value: None, span: at(id) }
}

fn group(delim: Delimiter, tokens: Vec<Token>) -> Token {
    Token::Group { delim, tokens, span: at(4) }
}

fn out_str(value: &str) -> Token {
    Token::Str { value: value.to_string(), span: Span::call_site() }
}

fn out_ident(name: &str) -> Token {
    Token::Ident { name: name.to_string(), span: Span::call_site() }
}

fn error(msg: &str, id: u64) -> Vec<Token> {
    vec![
        Token::Ident { name: "compile_error".to_string(), span: at(id) },
        Token::Punct { ch: '!', joint: false, span: Span::call_site() },
        Token::Group {
            delim: Delimiter::Parenthesis,
            tokens: vec![out_str(msg)],
            span: at(id),
        },
    ]
}

fn abc() -> Vec<Token> {
    vec![ident("a"), punct('+'), lit("1")]
}

#[test]
fn string_decodes_and_flattens() {
    let input = vec![
        lit("\"hello\""),
        punct('+'),
        punct(','),
        lit("\", \""),
        group(Delimiter::Brace, vec![group(Delimiter::Parenthesis, vec![ident("agent")])]),
        lit("' '"),
        lit("0x2F"),
    ];
    assert_eq!(string(input), vec![out_str("hello, agent 47")]);
}

#[test]
fn string_reads_every_literal_kind() {
    let input = vec![
        ident("true"),
        lit("false"),
        lit("1_000u32"),
        lit("'x'"),
        lit("b'a'"),
        lit("b\"yz\""),
        lit("r\"raw\""),
    ];
    assert_eq!(string(input), vec![out_str("truefalse1000xb'a'b\"yz\"raw")]);
}

#[test]
fn string_of_float_uses_host_value() {
    let input = vec![Token::Literal {
        raw: "1.50".to_string(),
        float_value: Some("1.5".to_string()),
        span: at(3),
    }];
    assert_eq!(string(input), vec![out_str("1.5")]);
}

#[test]
fn string_float_without_value_is_reported() {
    let input = vec![lit_at("2.5", 9)];
    assert_eq!(string(input), error("Floating-point literal without its value", 9));
}

#[test]
fn string_integer_too_large() {
    let input = vec![lit_at("340282366920938463463374607431768211456", 8)];
    assert_eq!(string(input), error("Integer is too large", 8));
}

#[test]
fn string_largest_integer() {
    let input = vec![lit("340282366920938463463374607431768211455")];
    assert_eq!(string(input), vec![out_str("340282366920938463463374607431768211455")]);
}

#[test]
fn string_of_nothing() {
    assert_eq!(string(vec![]), vec![out_str("")]);
}

#[test]
fn string_escapes_its_output() {
    let input = vec![lit("\"a\\\"b\\n\"")];
    assert_eq!(string(input), vec![out_str("a\"b\n")]);
}

#[test]
fn identifier_joins_texts() {
    let input = vec![ident("my"), punct('+'), ident("var")];
    assert_eq!(identifier(input), vec![out_ident("myvar")]);
}

#[test]
fn identifier_with_number() {
    let input = vec![ident("item"), lit("0b101")];
    assert_eq!(identifier(input), vec![out_ident("item5")]);
}

#[test]
fn ignore_discards() {
    assert_eq!(ignore(abc()), vec![]);
}

#[test]
fn identity_keeps() {
    assert_eq!(identity(abc()), abc());
}

#[test]
fn dollar_alone() {
    assert_eq!(
        dollar(vec![]),
        vec![Token::Punct { ch: '$', joint: false, span: Span::call_site() }]
    );
}

#[test]
fn dollar_with_arguments_is_reported() {
    assert_eq!(dollar(vec![ident_at("x", 7)]), error("Macro `dollar` has no arguments.", 7));
}

#[test]
fn head_and_tail() {
    assert_eq!(head(abc()), vec![ident("a")]);
    assert_eq!(tail(abc()), vec![punct('+'), lit("1")]);
    assert_eq!(head(vec![]), vec![]);
    assert_eq!(tail(vec![]), vec![]);
    assert_eq!(tail(vec![ident("a")]), vec![]);
}

#[test]
fn head_then_tail_rebuilds() {
    let mut joined = head(abc());
    joined.extend(tail(abc()));
    assert_eq!(joined, abc());
}

#[test]
fn start_and_last() {
    assert_eq!(start(abc()), vec![ident("a"), punct('+')]);
    assert_eq!(last(abc()), vec![lit("1")]);
    assert_eq!(start(vec![]), vec![]);
    assert_eq!(last(vec![]), vec![]);
}

#[test]
fn reverse_order() {
    assert_eq!(reverse(abc()), vec![lit("1"), punct('+'), ident("a")]);
    assert_eq!(reverse(vec![]), vec![]);
}

#[test]
fn reverse_twice_gives_back() {
    assert_eq!(reverse(reverse(abc())), abc());
}

#[test]
fn stringify_prints_surface() {
    let input = vec![
        ident("a"),
        Token::Punct { ch: ':', joint: true, span: at(2) },
        punct(':'),
        ident("b"),
        group(Delimiter::Parenthesis, vec![lit("1"), punct(','), lit("\"x\"")]),
        group(Delimiter::Brace, vec![ident("c")]),
        group(Delimiter::Brace, vec![]),
        group(Delimiter::Bracket, vec![]),
    ];
    assert_eq!(place_macro::stringify(input), vec![out_str("a :: b (1 , \"x\") { c } { } []")]);
}

#[test]
fn replace_newline_collapses() {
    let input = vec![lit("\"hello\\n    every body\\n\""), punct(','), lit("\", \"")];
    assert_eq!(replace_newline(input, at(5)), vec![out_str("hello, every body, ")]);
}

#[test]
fn replace_newline_consecutive_newlines() {
    let input = vec![lit("\"a\\n\\n  b\""), punct(','), lit("\"-\""), punct(',')];
    assert_eq!(replace_newline(input, at(5)), vec![out_str("a-b")]);
}

#[test]
fn replace_newline_argument_in_group() {
    let input = vec![
        group(Delimiter::Invisible, vec![lit("\"x\\ny\"")]),
        punct(','),
        lit("\" \""),
    ];
    assert_eq!(replace_newline(input, at(5)), vec![out_str("x y")]);
}

#[test]
fn replace_newline_missing_arguments() {
    assert_eq!(replace_newline(vec![], at(5)), error("Expected two arguments, got 0", 5));
    assert_eq!(
        replace_newline(vec![lit("\"a\"")], at(5)),
        error("Expected more arguments", 5)
    );
    assert_eq!(
        replace_newline(vec![lit("\"a\""), punct(',')], at(5)),
        error("Expected two arguments, got 1", 5)
    );
}

#[test]
fn replace_newline_structure_errors() {
    let no_comma = vec![lit("\"a\""), ident_at("x", 6), lit("\"b\"")];
    assert_eq!(replace_newline(no_comma, at(5)), error("Expected comma.", 6));
    let extra = vec![lit("\"a\""), punct(','), lit("\"b\""), punct(','), ident_at("c", 6)];
    assert_eq!(replace_newline(extra, at(5)), error("Macro takes only 2 arguments", 6));
    let odd = vec![lit("\"a\""), punct(','), lit("\"b\""), ident_at("c", 6)];
    assert_eq!(replace_newline(odd, at(5)), error("Unexpected token in macro invocation", 6));
}

#[test]
fn replace_newline_needs_string_literals() {
    let input = vec![lit_at("1", 6), punct(','), lit("\"b\"")];
    assert_eq!(replace_newline(input, at(5)), error("Expected string literal", 6));
    let input = vec![lit("\"a\""), punct(','), ident_at("b", 6)];
    assert_eq!(replace_newline(input, at(5)), error("Expected string literal", 6));
}

#[test]
fn str_replace_all_occurrences() {
    let input = vec![lit("\"a-b-c\""), punct(','), lit("\"-\""), punct(','), lit("\"+\"")];
    assert_eq!(str_replace(input, at(5)), vec![out_str("a+b+c")]);
}

#[test]
fn str_replace_not_overlapping() {
    let input = vec![lit("\"aaa\""), punct(','), lit("\"aa\""), punct(','), lit("\"b\"")];
    assert_eq!(str_replace(input, at(5)), vec![out_str("ba")]);
}

#[test]
fn str_replace_empty_pattern() {
    let input = vec![lit("\"ab\""), punct(','), lit("\"\""), punct(','), lit("\"-\"")];
    assert_eq!(str_replace(input, at(5)), vec![out_str("-a-b-")]);
}

#[test]
fn str_replace_absent_pattern_keeps_text() {
    let input = vec![lit("\"hello\""), punct(','), lit("\"xyz\""), punct(','), lit("\"q\"")];
    assert_eq!(str_replace(input, at(5)), vec![out_str("hello")]);
}

#[test]
fn str_replace_arity() {
    assert_eq!(str_replace(vec![], at(5)), error("Expected 3 arguments, got 0", 5));
    let two = vec![lit("\"a\""), punct(','), lit("\"b\""), punct(',')];
    assert_eq!(str_replace(two, at(5)), error("Expected 3 arguments, got 2", 5));
    let four = vec![
        lit("\"a\""),
        punct(','),
        lit("\"b\""),
        punct(','),
        lit("\"c\""),
        punct(','),
        lit_at("\"d\"", 6),
    ];
    assert_eq!(str_replace(four, at(5)), error("Macro takes only 3 arguments", 6));
}

#[test]
fn to_case_styles() {
    let cases = [
        ("TOCASE", "MYVAR"),
        ("tocase", "myvar"),
        ("toCase", "myVar"),
        ("ToCase", "MyVar"),
        ("to_case", "my_var"),
        ("TO_CASE", "MY_VAR"),
    ];
    for (spec, expected) in cases {
        let input = vec![lit(&format!("\"{}\"", spec)), punct(','), ident("my_var")];
        assert_eq!(to_case(input, at(5)), vec![out_ident(expected)]);
    }
}

#[test]
fn to_case_round_trip() {
    let there = vec![lit("\"ToCase\""), punct(','), ident("my_var")];
    let pascal = to_case(there, at(5));
    let mut back = vec![lit("\"to_case\""), punct(',')];
    back.extend(pascal);
    assert_eq!(to_case(back, at(5)), vec![out_ident("my_var")]);
}

#[test]
fn to_case_unknown_specifier() {
    let input = vec![lit("\"Title\""), punct(','), ident("x")];
    assert_eq!(to_case(input, at(5)), error("Unknown case specifier: 'Title'", 5));
}

#[test]
fn to_case_needs_identifier() {
    let input = vec![lit("\"ToCase\""), punct(','), lit_at("1", 6)];
    assert_eq!(to_case(input, at(5)), error("Expected identifier", 6));
    assert_eq!(to_case(vec![], at(5)), error("Expected 2 arguments.", 5));
}

#[test]
fn stringify_spells_made_strings() {
    let input = vec![Token::Str { value: "a\"b\\".to_string(), span: at(3) }, ident("c")];
    assert_eq!(place_macro::stringify(input), vec![out_str("\"a\\\"b\\\\\" c")]);
}

#[test]
fn string_reads_made_strings_by_value() {
    let input = vec![Token::Str { value: "x\"y".to_string(), span: at(3) }, ident("z")];
    assert_eq!(string(input), vec![out_str("x\"yz")]);
}
