use frontend::diagnostics::{DiagnosticMessage, Diagnostics};
use frontend::lex::{FileIterator, Token, lex};
use frontend::parse::{
    DefiningTypeExpression, Expression, Peekable, Statement, TypeExpression,
    VariableDeclaration, parse, parse_expression, parse_namespaced_word,
};

fn scan(input: &str) -> Vec<Token> {
    let mut diags = Diagnostics::new();
    let fiter = FileIterator::new(input.as_bytes().to_vec(), String::from("in.x"));
    let (tokens, success) = lex(fiter, &mut diags);
    assert!(success, "test input {:?} must tokenize", input);
    tokens
}

fn name(text: &str) -> Expression {
    Expression::Name(String::from(text))
}

fn plus(left: Expression, right: Expression) -> Expression {
    Expression::Plus(frontend::parse::BinaryExpression {
        left: Box::new(left),
        right: Box::new(right),
    })
}

fn minus(left: Expression, right: Expression) -> Expression {
    Expression::Minus(frontend::parse::BinaryExpression {
        left: Box::new(left),
        right: Box::new(right),
    })
}

fn assign(left: Expression, right: Expression) -> Expression {
    Expression::Assign(frontend::parse::BinaryExpression {
        left: Box::new(left),
        right: Box::new(right),
    })
}

fn comma(left: Expression, right: Expression) -> Expression {
    Expression::Comma(frontend::parse::BinaryExpression {
        left: Box::new(left),
        right: Box::new(right),
    })
}

#[test]
fn qualified_identifier_concatenation() {
    let mut diags = Diagnostics::new();
    let mut stream = Peekable::new(scan("a::b::c"));
    let (word, fpos) = parse_namespaced_word(&mut stream, &mut diags).expect("parses");
    assert_eq!(word, "a::b::c");
    assert_eq!((fpos.line, fpos.column), (1, 1));
    assert!(diags.entries.is_empty());
}

#[test]
fn qualified_identifier_single_segment() {
    let mut diags = Diagnostics::new();
    let mut stream = Peekable::new(scan("alpha beta"));
    let (word, _) = parse_namespaced_word(&mut stream, &mut diags).expect("parses");
    assert_eq!(word, "alpha");
}

#[test]
fn qualified_identifier_needs_word() {
    let mut diags = Diagnostics::new();
    let mut stream = Peekable::new(scan("::"));
    assert!(parse_namespaced_word(&mut stream, &mut diags).is_err());
    assert_eq!(diags.entries[0].message, DiagnosticMessage::ExpectedWord);
}

#[test]
fn qualified_identifier_needs_word_after_namespace() {
    let mut diags = Diagnostics::new();
    let mut stream = Peekable::new(scan("a::;"));
    assert!(parse_namespaced_word(&mut stream, &mut diags).is_err());
    assert_eq!(
        diags.entries[0].message,
        DiagnosticMessage::ExpectedWordAfterNamespace
    );
    let fpos = diags.entries[0].fpos.as_ref().unwrap();
    assert_eq!((fpos.line, fpos.column), (1, 4));
}

#[test]
fn additive_chain_is_left_associative() {
    let mut diags = Diagnostics::new();
    let mut stream = Peekable::new(scan("a + b - c"));
    let e = parse_expression(&mut stream, &mut diags).expect("parses");
    assert_eq!(e, minus(plus(name("a"), name("b")), name("c")));
}

#[test]
fn comma_binds_loosest() {
    // With precedence Comma < Assign < Plus/Minus, the comma splits at the
    // top, so `a = b , c` is a comma expression whose left arm is the
    // assignment.
    let mut diags = Diagnostics::new();
    let mut stream = Peekable::new(scan("a = b, c"));
    let e = parse_expression(&mut stream, &mut diags).expect("parses");
    assert_eq!(e, comma(assign(name("a"), name("b")), name("c")));
}

#[test]
fn assignment_right_operand_is_additive() {
    let mut diags = Diagnostics::new();
    let mut stream = Peekable::new(scan("a = b + c"));
    let e = parse_expression(&mut stream, &mut diags).expect("parses");
    assert_eq!(e, assign(name("a"), plus(name("b"), name("c"))));
}

#[test]
fn round_trip_sample() {
    let mut diags = Diagnostics::new();
    let decls = parse(scan("f: fun() -> i { return; }"), &mut diags).expect("parses");
    assert!(diags.entries.is_empty());
    assert_eq!(decls.len(), 1);
    assert_eq!(decls[0].name, "f");
    match &decls[0].var_type {
        DefiningTypeExpression::Function(f) => {
            assert_eq!(f.name, "f");
            assert!(f.params.is_empty());
            assert_eq!(f.return_type, TypeExpression::Name(String::from("i")));
            assert_eq!(f.statements, vec![Statement::Return]);
        },
        other => panic!("expected a function declaration, got {:?}", other),
    }
}

#[test]
fn empty_input_parses_to_no_declarations() {
    let mut diags = Diagnostics::new();
    let decls = parse(Vec::new(), &mut diags).expect("parses");
    assert!(decls.is_empty());
}

#[test]
fn plain_type_declaration() {
    let mut diags = Diagnostics::new();
    let decls = parse(scan("x: a::b"), &mut diags).expect("parses");
    assert_eq!(
        decls,
        vec![VariableDeclaration {
            name: String::from("x"),
            var_type: DefiningTypeExpression::TypeExpression(TypeExpression::Name(
                String::from("a::b")
            )),
        }]
    );
}

#[test]
fn two_toplevel_declarations() {
    let mut diags = Diagnostics::new();
    let decls = parse(scan("x: int y: ptr"), &mut diags).expect("parses");
    assert_eq!(decls.len(), 2);
    assert_eq!(decls[0].name, "x");
    assert_eq!(decls[1].name, "y");
}

#[test]
fn function_with_parameters() {
    let mut diags = Diagnostics::new();
    let decls = parse(scan("f: fun(a: int, b: ptr) -> int { }"), &mut diags).expect("parses");
    match &decls[0].var_type {
        DefiningTypeExpression::Function(f) => {
            assert_eq!(f.params.len(), 2);
            assert_eq!(f.params[0].name, "a");
            assert_eq!(f.params[1].name, "b");
            assert_eq!(
                f.params[1].var_type,
                DefiningTypeExpression::TypeExpression(TypeExpression::Name(String::from("ptr")))
            );
            assert!(f.statements.is_empty());
        },
        other => panic!("expected a function, got {:?}", other),
    }
}

#[test]
fn body_with_declaration_and_expression_statements() {
    let mut diags = Diagnostics::new();
    let decls = parse(scan("f: fun() -> i { x: int; a = b; return; }"), &mut diags)
        .expect("parses");
    match &decls[0].var_type {
        DefiningTypeExpression::Function(f) => {
            assert_eq!(f.statements.len(), 3);
            match &f.statements[0] {
                Statement::VariableDeclaration(d) => assert_eq!(d.name, "x"),
                other => panic!("expected a declaration, got {:?}", other),
            }
            assert_eq!(
                f.statements[1],
                Statement::Expression(assign(name("a"), name("b")))
            );
            assert_eq!(f.statements[2], Statement::Return);
        },
        other => panic!("expected a function, got {:?}", other),
    }
}

#[test]
fn nested_function_declaration_statement() {
    // Inside a body every statement ends with `;`, a function-valued
    // declaration included.
    let mut diags = Diagnostics::new();
    let decls = parse(scan("f: fun() -> i { g: fun() -> j { }; }"), &mut diags).expect("parses");
    match &decls[0].var_type {
        DefiningTypeExpression::Function(f) => match &f.statements[0] {
            Statement::VariableDeclaration(d) => {
                assert_eq!(d.name, "g");
                assert!(matches!(d.var_type, DefiningTypeExpression::Function(_)));
            },
            other => panic!("expected a declaration, got {:?}", other),
        },
        other => panic!("expected a function, got {:?}", other),
    }
}

#[test]
fn qualified_return_type() {
    let mut diags = Diagnostics::new();
    let decls = parse(scan("f: fun() -> a::b { }"), &mut diags).expect("parses");
    match &decls[0].var_type {
        DefiningTypeExpression::Function(f) => {
            assert_eq!(f.return_type, TypeExpression::Name(String::from("a::b")));
        },
        other => panic!("expected a function, got {:?}", other),
    }
}

#[test]
fn input_ending_after_fun_is_end_of_input_failure() {
    let mut diags = Diagnostics::new();
    assert!(parse(scan("f: fun"), &mut diags).is_err());
    assert_eq!(diags.entries.len(), 1);
    assert_eq!(
        diags.entries[0].message,
        DiagnosticMessage::UnexpectedEndOfInput
    );
    assert!(diags.entries[0].fpos.is_none());
}

#[test]
fn bare_fun_keyword_is_not_a_declaration() {
    let mut diags = Diagnostics::new();
    assert!(parse(scan("fun"), &mut diags).is_err());
    assert_eq!(diags.entries[0].message, DiagnosticMessage::ExpectedWord);
    let fpos = diags.entries[0].fpos.as_ref().unwrap();
    assert_eq!((fpos.line, fpos.column), (1, 1));
}

#[test]
fn lexer_failure_skips_parsing() {
    // An unrecognized character fails the tokenizer; the caller then never
    // reaches the parser, as the pipeline in `app` does.
    let mut diags = Diagnostics::new();
    let fiter = FileIterator::new(b"a $ b".to_vec(), String::from("in.x"));
    let (tokens, success) = lex(fiter, &mut diags);
    assert!(!success);
    assert_eq!(diags.entries.len(), 1);
    // the tokens produced before the failure are still handed back
    assert_eq!(tokens.len(), 1);
}

#[test]
fn missing_colon_is_reported() {
    let mut diags = Diagnostics::new();
    assert!(parse(scan("f f"), &mut diags).is_err());
    assert_eq!(diags.entries[0].message, DiagnosticMessage::ExpectedColon);
}

#[test]
fn missing_open_paren_is_reported() {
    let mut diags = Diagnostics::new();
    assert!(parse(scan("f: fun x"), &mut diags).is_err());
    assert_eq!(
        diags.entries[0].message,
        DiagnosticMessage::ExpectedOpenParen
    );
}

#[test]
fn missing_parameter_separator_is_reported() {
    let mut diags = Diagnostics::new();
    assert!(parse(scan("f: fun(a: t b: u) -> i { }"), &mut diags).is_err());
    assert_eq!(
        diags.entries[0].message,
        DiagnosticMessage::ExpectedParameterSeparator
    );
}

#[test]
fn missing_right_arrow_is_reported() {
    let mut diags = Diagnostics::new();
    assert!(parse(scan("f: fun() i { }"), &mut diags).is_err());
    assert_eq!(
        diags.entries[0].message,
        DiagnosticMessage::ExpectedRightArrow
    );
}

#[test]
fn missing_open_curly_is_reported() {
    let mut diags = Diagnostics::new();
    assert!(parse(scan("f: fun() -> i i"), &mut diags).is_err());
    assert_eq!(
        diags.entries[0].message,
        DiagnosticMessage::ExpectedOpenCurly
    );
}

#[test]
fn missing_semicolon_is_reported() {
    let mut diags = Diagnostics::new();
    assert!(parse(scan("f: fun() -> i { return }"), &mut diags).is_err());
    assert_eq!(
        diags.entries[0].message,
        DiagnosticMessage::ExpectedSemicolon
    );
}

#[test]
fn failure_aborts_the_whole_parse() {
    // The first malformed declaration stops everything after it too.
    let mut diags = Diagnostics::new();
    assert!(parse(scan("x: : y: int"), &mut diags).is_err());
    assert_eq!(diags.entries.len(), 1);
}

#[test]
fn peek_is_stable() {
    let mut stream = Peekable::new(scan("a b"));
    let first = stream.peek().cloned();
    let again = stream.peek().cloned();
    assert_eq!(first, again);
    let taken = stream.next();
    assert_eq!(taken, first);
}
