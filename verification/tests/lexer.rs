use frontend::diagnostics::{DiagnosticMessage, Diagnostics, Severity};
use frontend::lex::{FileIterator, Token, TokenData, lex};

fn scan(input: &str) -> (Vec<Token>, bool, Diagnostics) {
    let mut diags = Diagnostics::new();
    let fiter = FileIterator::new(input.as_bytes().to_vec(), String::from("in.x"));
    let (tokens, success) = lex(fiter, &mut diags);
    (tokens, success, diags)
}

fn kinds(tokens: &[Token]) -> Vec<&TokenData> {
    tokens.iter().map(|t| &t.data).collect()
}

fn one_token_at_origin(input: &str, expected: TokenData) {
    let (tokens, success, diags) = scan(input);
    assert!(success, "input {:?} should tokenize", input);
    assert!(diags.entries.is_empty());
    assert_eq!(tokens.len(), 1, "input {:?} should yield one token", input);
    assert_eq!(tokens[0].data, expected);
    assert_eq!(tokens[0].fpos.line, 1);
    assert_eq!(tokens[0].fpos.column, 1);
    assert_eq!(tokens[0].fpos.filename, "in.x");
}

#[test]
fn surface_round_trip_close_curly() {
    one_token_at_origin("}", TokenData::CloseCurly);
}

#[test]
fn surface_round_trip_close_paren() {
    one_token_at_origin(")", TokenData::CloseParen);
}

#[test]
fn surface_round_trip_colon() {
    one_token_at_origin(":", TokenData::Colon);
}

#[test]
fn surface_round_trip_namespace() {
    one_token_at_origin("::", TokenData::Namespace);
}

#[test]
fn surface_round_trip_open_curly() {
    one_token_at_origin("{", TokenData::OpenCurly);
}

#[test]
fn surface_round_trip_open_paren() {
    one_token_at_origin("(", TokenData::OpenParen);
}

#[test]
fn surface_round_trip_return() {
    one_token_at_origin("return", TokenData::Return);
}

#[test]
fn surface_round_trip_right_arrow() {
    one_token_at_origin("->", TokenData::RightArrow);
}

#[test]
fn surface_round_trip_semicolon() {
    one_token_at_origin(";", TokenData::Semicolon);
}

#[test]
fn surface_round_trip_struct() {
    one_token_at_origin("struct", TokenData::Struct);
}

#[test]
fn surface_round_trip_word() {
    one_token_at_origin("abc_1", TokenData::Word(String::from("abc_1")));
}

#[test]
fn surface_round_trip_comma() {
    one_token_at_origin(",", TokenData::Comma);
}

#[test]
fn surface_round_trip_assign() {
    one_token_at_origin("=", TokenData::Assign);
}

#[test]
fn surface_round_trip_minus() {
    one_token_at_origin("-", TokenData::Minus);
}

#[test]
fn surface_round_trip_plus() {
    one_token_at_origin("+", TokenData::Plus);
}

#[test]
fn surface_round_trip_fun() {
    assert_eq!(TokenData::Fun.surface_text(), "fun");
    one_token_at_origin("fun", TokenData::Fun);
}

#[test]
fn fn_is_an_ordinary_word() {
    one_token_at_origin("fn", TokenData::Word(String::from("fn")));
}

#[test]
fn surface_texts() {
    assert_eq!(TokenData::CloseCurly.surface_text(), "}");
    assert_eq!(TokenData::Fun.surface_text(), "fun");
    assert_eq!(TokenData::Namespace.surface_text(), "::");
    assert_eq!(TokenData::RightArrow.surface_text(), "->");
    assert_eq!(TokenData::Return.surface_text(), "return");
    assert_eq!(
        TokenData::Word(String::from("hello")).surface_text(),
        "hello"
    );
}

#[test]
fn maximal_munch_arrow() {
    let (tokens, success, _) = scan("->");
    assert!(success);
    assert_eq!(kinds(&tokens), vec![&TokenData::RightArrow]);
}

#[test]
fn maximal_munch_namespace() {
    let (tokens, success, _) = scan("::");
    assert!(success);
    assert_eq!(kinds(&tokens), vec![&TokenData::Namespace]);
}

#[test]
fn minus_then_word() {
    let (tokens, success, _) = scan("-x");
    assert!(success);
    assert_eq!(
        kinds(&tokens),
        vec![&TokenData::Minus, &TokenData::Word(String::from("x"))]
    );
}

#[test]
fn trailing_minus_still_emitted() {
    let (tokens, success, _) = scan("a -");
    assert!(success);
    assert_eq!(
        kinds(&tokens),
        vec![&TokenData::Word(String::from("a")), &TokenData::Minus]
    );
}

#[test]
fn trailing_colon_still_emitted() {
    let (tokens, success, _) = scan("a:");
    assert!(success);
    assert_eq!(
        kinds(&tokens),
        vec![&TokenData::Word(String::from("a")), &TokenData::Colon]
    );
}

#[test]
fn empty_input() {
    let (tokens, success, diags) = scan("");
    assert!(success);
    assert!(tokens.is_empty());
    assert!(diags.entries.is_empty());
}

#[test]
fn positions_across_lines() {
    let (tokens, success, _) = scan("ab cd\nef");
    assert!(success);
    assert_eq!(tokens.len(), 3);
    assert_eq!((tokens[0].fpos.line, tokens[0].fpos.column), (1, 1));
    assert_eq!((tokens[1].fpos.line, tokens[1].fpos.column), (1, 4));
    assert_eq!((tokens[2].fpos.line, tokens[2].fpos.column), (2, 1));
}

#[test]
fn position_monotonicity_on_sample() {
    let (tokens, success, _) = scan("f: fun( a, b ) ->\n  x::y { return; }\n+ -");
    assert!(success);
    for pair in tokens.windows(2) {
        assert!(pair[1].fpos.line >= pair[0].fpos.line);
        if pair[1].fpos.line == pair[0].fpos.line {
            assert!(pair[1].fpos.column > pair[0].fpos.column);
        }
    }
}

#[test]
fn leading_whitespace_counts_columns() {
    let (tokens, success, _) = scan("  {");
    assert!(success);
    assert_eq!((tokens[0].fpos.line, tokens[0].fpos.column), (1, 3));
}

#[test]
fn unrecognized_character_fails() {
    let (tokens, success, diags) = scan("$");
    assert!(!success);
    assert!(tokens.is_empty());
    assert_eq!(diags.entries.len(), 1);
    let d = &diags.entries[0];
    assert_eq!(d.severity, Severity::Error);
    assert_eq!(d.message, DiagnosticMessage::UnrecognizedCharacter('$'));
    let fpos = d.fpos.as_ref().expect("a lexing error carries a position");
    assert_eq!((fpos.line, fpos.column), (1, 1));
}

#[test]
fn unrecognized_character_keeps_earlier_tokens() {
    let (tokens, success, diags) = scan("ab $");
    assert!(!success);
    assert_eq!(kinds(&tokens), vec![&TokenData::Word(String::from("ab"))]);
    let fpos = diags.entries[0].fpos.as_ref().unwrap();
    assert_eq!((fpos.line, fpos.column), (1, 4));
}

#[test]
fn keywords_and_words() {
    let (tokens, success, _) = scan("fun struct return funky");
    assert!(success);
    assert_eq!(
        kinds(&tokens),
        vec![
            &TokenData::Fun,
            &TokenData::Struct,
            &TokenData::Return,
            &TokenData::Word(String::from("funky")),
        ]
    );
}

#[test]
fn compound_positions() {
    let (tokens, success, _) = scan("a->b");
    assert!(success);
    assert_eq!(tokens.len(), 3);
    assert_eq!(tokens[1].data, TokenData::RightArrow);
    assert_eq!((tokens[1].fpos.line, tokens[1].fpos.column), (1, 2));
    assert_eq!((tokens[2].fpos.line, tokens[2].fpos.column), (1, 4));
}
