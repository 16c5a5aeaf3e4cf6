use vstd::prelude::*;
use crate::diagnostics::{DiagnosticMessage, Diagnostics, SpecDiagnosticMessage, spec_error};
use crate::file_position::{FilePosition, SpecFilePosition};
use crate::lex::{SpecToken, SpecTokenData, Token, TokenData, spec_tokens};

verus! {

// ---------------------------------------------------------------------------
// The syntax tree
// ---------------------------------------------------------------------------

/// A binary node: its two operands, exclusively owned.
#[derive(Debug, PartialEq)]
pub struct BinaryExpression {
    pub left: Box<Expression>,
    pub right: Box<Expression>,
}

/// An expression: a qualified name, or one of the four binary forms.
#[derive(Debug, PartialEq)]
pub enum Expression {
    Name(String),
    Comma(BinaryExpression),
    Assign(BinaryExpression),
    Minus(BinaryExpression),
    Plus(BinaryExpression),
}

/// A referenced type: a qualified name, or a pointer to a type. No surface
/// syntax produces `Pointer` yet; the variant is reserved.
#[derive(Debug, PartialEq)]
pub enum TypeExpression {
    Pointer(Box<TypeExpression>),
    Name(String),
}

/// A callable: parameters, return type and body, with the declared name.
#[derive(Debug, PartialEq)]
pub struct Function {
    pub name: String,
    pub params: Vec<VariableDeclaration>,
    pub return_type: TypeExpression,
    pub statements: Vec<Statement>,
}

/// What a declaration binds its name to: a plain type, or a function.
#[derive(Debug, PartialEq)]
pub enum DefiningTypeExpression {
    TypeExpression(TypeExpression),
    Function(Function),
}

/// One named binding: a struct member, a parameter, a local variable, or a
/// top-level declaration.
#[derive(Debug, PartialEq)]
pub struct VariableDeclaration {
    pub name: String,
    pub var_type: DefiningTypeExpression,
}

/// One statement of a function body. `If` has no surface syntax yet and is
/// reserved; `Return` is produced by `return ;`.
#[derive(Debug, PartialEq)]
pub enum Statement {
    If(Box<Expression>, Vec<Statement>, Vec<Statement>),
    Return,
    VariableDeclaration(VariableDeclaration),
    Expression(Expression),
}

// ---------------------------------------------------------------------------
// Mathematical images of the tree
// ---------------------------------------------------------------------------

pub ghost struct SpecBinaryExpression {
    pub left: Box<SpecExpression>,
    pub right: Box<SpecExpression>,
}

pub ghost enum SpecExpression {
    Name(Seq<char>),
    Comma(SpecBinaryExpression),
    Assign(SpecBinaryExpression),
    Minus(SpecBinaryExpression),
    Plus(SpecBinaryExpression),
}

pub ghost enum SpecTypeExpression {
    Pointer(Box<SpecTypeExpression>),
    Name(Seq<char>),
}

pub ghost struct SpecFunction {
    pub name: Seq<char>,
    pub params: Seq<SpecVariableDeclaration>,
    pub return_type: SpecTypeExpression,
    pub statements: Seq<SpecStatement>,
}

pub ghost enum SpecDefiningTypeExpression {
    TypeExpression(SpecTypeExpression),
    Function(SpecFunction),
}

pub ghost struct SpecVariableDeclaration {
    pub name: Seq<char>,
    pub var_type: SpecDefiningTypeExpression,
}

pub ghost enum SpecStatement {
    If(Box<SpecExpression>, Seq<SpecStatement>, Seq<SpecStatement>),
    Return,
    VariableDeclaration(SpecVariableDeclaration),
    Expression(SpecExpression),
}

pub open spec fn spec_of_expression(e: Expression) -> SpecExpression
    decreases e,
{
    match e {
        Expression::Name(s) => SpecExpression::Name(s@),
        Expression::Comma(b) => SpecExpression::Comma(spec_of_binary(b)),
        Expression::Assign(b) => SpecExpression::Assign(spec_of_binary(b)),
        Expression::Minus(b) => SpecExpression::Minus(spec_of_binary(b)),
        Expression::Plus(b) => SpecExpression::Plus(spec_of_binary(b)),
    }
}

pub open spec fn spec_of_binary(b: BinaryExpression) -> SpecBinaryExpression
    decreases b,
{
    SpecBinaryExpression {
        left: Box::new(spec_of_expression(*b.left)),
        right: Box::new(spec_of_expression(*b.right)),
    }
}

pub open spec fn spec_of_type_expression(t: TypeExpression) -> SpecTypeExpression
    decreases t,
{
    match t {
        TypeExpression::Pointer(inner) => SpecTypeExpression::Pointer(
            Box::new(spec_of_type_expression(*inner)),
        ),
        TypeExpression::Name(s) => SpecTypeExpression::Name(s@),
    }
}

pub open spec fn spec_of_statement(s: Statement) -> SpecStatement
    decreases s, 0int,
{
    match s {
        Statement::If(e, a, b) => SpecStatement::If(
            Box::new(spec_of_expression(*e)),
            spec_of_statements(a, 0),
            spec_of_statements(b, 0),
        ),
        Statement::Return => SpecStatement::Return,
        Statement::VariableDeclaration(d) => SpecStatement::VariableDeclaration(
            spec_of_variable_declaration(d),
        ),
        Statement::Expression(e) => SpecStatement::Expression(spec_of_expression(e)),
    }
}

/// The images of the statements of `v` from index `i` on.
pub open spec fn spec_of_statements(v: Vec<Statement>, i: int) -> Seq<SpecStatement>
    decreases v, v.len() - i + 1int,
{
    if i < 0 || i >= v.len() {
        Seq::empty()
    } else {
        seq![spec_of_statement(v[i])] + spec_of_statements(v, i + 1)
    }
}

pub open spec fn spec_of_variable_declaration(d: VariableDeclaration) -> SpecVariableDeclaration
    decreases d, 0int,
{
    SpecVariableDeclaration { name: d.name@, var_type: spec_of_defining(d.var_type) }
}

pub open spec fn spec_of_defining(dt: DefiningTypeExpression) -> SpecDefiningTypeExpression
    decreases dt, 0int,
{
    match dt {
        DefiningTypeExpression::TypeExpression(t) => SpecDefiningTypeExpression::TypeExpression(
            spec_of_type_expression(t),
        ),
        DefiningTypeExpression::Function(f) => SpecDefiningTypeExpression::Function(
            spec_of_function(f),
        ),
    }
}

pub open spec fn spec_of_function(f: Function) -> SpecFunction
    decreases f, 0int,
{
    SpecFunction {
        name: f.name@,
        params: spec_of_variable_declarations(f.params, 0),
        return_type: spec_of_type_expression(f.return_type),
        statements: spec_of_statements(f.statements, 0),
    }
}

/// The images of the declarations of `v` from index `i` on.
pub open spec fn spec_of_variable_declarations(
    v: Vec<VariableDeclaration>,
    i: int,
) -> Seq<SpecVariableDeclaration>
    decreases v, v.len() - i + 1int,
{
    if i < 0 || i >= v.len() {
        Seq::empty()
    } else {
        seq![spec_of_variable_declaration(v[i])] + spec_of_variable_declarations(v, i + 1)
    }
}

// ---------------------------------------------------------------------------
// Parse failures
// ---------------------------------------------------------------------------

/// Why and where a parse stopped. The position is absent when the tokens
/// ran out, since no token remains to anchor one.
pub ghost struct SpecParseError {
    pub message: SpecDiagnosticMessage,
    pub fpos: Option<SpecFilePosition>,
}

/// A production's outcome: the parsed value, or the signal that the whole
/// parse stopped. The failure itself has then been reported to the
/// diagnostics sink by whichever production met it.
pub type ParseResult<T> = Result<T, ()>;

// ---------------------------------------------------------------------------
// The lookahead token stream
// ---------------------------------------------------------------------------

/// A token stream with one token of lookahead: `peek` shows the next token
/// without consuming it, `next` consumes it. Peeking twice without a `next`
/// in between shows the same token.
pub struct Peekable {
    pub tokens: Vec<Token>,
    pub index: usize,
}

impl Peekable {
    /// The images of the tokens not yet consumed.
    pub open spec fn remaining(&self) -> Seq<SpecToken> {
        spec_tokens(self.tokens@.skip(self.index as int))
    }

    pub open spec fn wf(&self) -> bool {
        self.index <= self.tokens@.len()
    }

    /// A stream at the start of `tokens`.
    pub fn new(tokens: Vec<Token>) -> (r: Peekable)
        ensures
            r.wf(),
            r.tokens == tokens,
            r.remaining() == spec_tokens(tokens@),
    {
        let r = Peekable { tokens, index: 0 };
        proof {
            assert(r.tokens@.skip(0) =~= r.tokens@);
        }
        r
    }

    /// Show the next token without consuming it.
    pub fn peek(&self) -> (r: Option<&Token>)
        requires
            self.wf(),
        ensures
            match r {
                Some(t) => self.remaining().len() > 0 && t@ == self.remaining()[0],
                None => self.remaining().len() == 0,
            },
    {
        if self.index < self.tokens.len() {
            Some(&self.tokens[self.index])
        } else {
            None
        }
    }

    /// Consume and return the next token.
    pub fn next(&mut self) -> (r: Option<Token>)
        requires
            old(self).wf(),
        ensures
            final(self).wf(),
            final(self).tokens == old(self).tokens,
            match r {
                Some(t) => {
                    &&& old(self).remaining().len() > 0
                    &&& t@ == old(self).remaining()[0]
                    &&& final(self).remaining() == old(self).remaining().skip(1)
                },
                None => old(self).remaining().len() == 0 && *final(self) == *old(self),
            },
    {
        if self.index < self.tokens.len() {
            let t = self.tokens[self.index].clone();
            self.index = self.index + 1;
            proof {
                assert(final(self).tokens@.skip(final(self).index as int) =~= old(
                    self,
                ).tokens@.skip(old(self).index as int).skip(1));
                assert(final(self).remaining() =~= old(self).remaining().skip(1));
            }
            Some(t)
        } else {
            None
        }
    }
}


// ---------------------------------------------------------------------------
// The grammar, stated as functions from token sequences to outcomes
// ---------------------------------------------------------------------------

/// A qualified identifier: a word, then any number of `::`-word pairs,
/// concatenated with `::` between segments. The position is the first
/// segment's.
pub open spec fn spec_parse_namespaced_word(ts: Seq<SpecToken>) -> Result<
    ((Seq<char>, SpecFilePosition), Seq<SpecToken>),
    SpecParseError,
> {
    if ts.len() == 0 {
        Err(SpecParseError { message: SpecDiagnosticMessage::UnexpectedEndOfInput, fpos: None })
    } else {
        match ts[0].data {
            SpecTokenData::Word(w) => spec_parse_ns_rest(ts.skip(1), w, ts[0].fpos),
            _ => Err(
                SpecParseError {
                    message: SpecDiagnosticMessage::ExpectedWord,
                    fpos: Some(ts[0].fpos),
                },
            ),
        }
    }
}

pub open spec fn spec_parse_ns_rest(ts: Seq<SpecToken>, acc: Seq<char>, p: SpecFilePosition) -> Result<
    ((Seq<char>, SpecFilePosition), Seq<SpecToken>),
    SpecParseError,
>
    decreases ts.len(),
{
    if ts.len() == 0 || !(ts[0].data is Namespace) {
        Ok(((acc, p), ts))
    } else if ts.len() == 1 {
        Err(SpecParseError { message: SpecDiagnosticMessage::UnexpectedEndOfInput, fpos: None })
    } else {
        match ts[1].data {
            SpecTokenData::Word(w) => spec_parse_ns_rest(ts.skip(2), acc + "::"@ + w, p),
            _ => Err(
                SpecParseError {
                    message: SpecDiagnosticMessage::ExpectedWordAfterNamespace,
                    fpos: Some(ts[1].fpos),
                },
            ),
        }
    }
}

pub proof fn lemma_ns_rest_len(ts: Seq<SpecToken>, acc: Seq<char>, p: SpecFilePosition)
    ensures
        spec_parse_ns_rest(ts, acc, p) matches Ok(v) ==> v.1.len() <= ts.len(),
    decreases ts.len(),
{
    if ts.len() >= 2 && ts[0].data is Namespace {
        if let SpecTokenData::Word(w) = ts[1].data {
            lemma_ns_rest_len(ts.skip(2), acc + "::"@ + w, p);
        }
    }
}

pub proof fn lemma_nsword_len(ts: Seq<SpecToken>)
    ensures
        spec_parse_namespaced_word(ts) matches Ok(v) ==> v.1.len() < ts.len(),
{
    if ts.len() > 0 {
        if let SpecTokenData::Word(w) = ts[0].data {
            lemma_ns_rest_len(ts.skip(1), w, ts[0].fpos);
        }
    }
}

/// The leaf of an expression: a qualified name.
pub open spec fn spec_parse_primary(ts: Seq<SpecToken>) -> Result<
    (SpecExpression, Seq<SpecToken>),
    SpecParseError,
> {
    match spec_parse_namespaced_word(ts) {
        Ok(v) => Ok((SpecExpression::Name(v.0.0), v.1)),
        Err(e) => Err(e),
    }
}

pub proof fn lemma_primary_len(ts: Seq<SpecToken>)
    ensures
        spec_parse_primary(ts) matches Ok(v) ==> v.1.len() < ts.len(),
{
    lemma_nsword_len(ts);
}

/// Fold further `+` and `-` operands onto `e`, left-associatively.
pub open spec fn spec_parse_additive_rest(e: SpecExpression, ts: Seq<SpecToken>) -> Result<
    (SpecExpression, Seq<SpecToken>),
    SpecParseError,
>
    decreases ts.len(),
    via spec_parse_additive_rest_decreases
{
    if ts.len() == 0 || !(ts[0].data is Plus || ts[0].data is Minus) {
        Ok((e, ts))
    } else {
        match spec_parse_primary(ts.skip(1)) {
            Ok(v) => {
                let b = SpecBinaryExpression { left: Box::new(e), right: Box::new(v.0) };
                let joined = if ts[0].data is Plus {
                    SpecExpression::Plus(b)
                } else {
                    SpecExpression::Minus(b)
                };
                spec_parse_additive_rest(joined, v.1)
            },
            Err(e2) => Err(e2),
        }
    }
}

#[via_fn]
proof fn spec_parse_additive_rest_decreases(e: SpecExpression, ts: Seq<SpecToken>) {
    if ts.len() != 0 {
        lemma_primary_len(ts.skip(1));
    }
}

/// The `+`/`-` level: a primary, then further primaries folded in.
pub open spec fn spec_parse_additive(ts: Seq<SpecToken>) -> Result<
    (SpecExpression, Seq<SpecToken>),
    SpecParseError,
> {
    match spec_parse_primary(ts) {
        Ok(v) => spec_parse_additive_rest(v.0, v.1),
        Err(e) => Err(e),
    }
}

pub proof fn lemma_additive_rest_len(e: SpecExpression, ts: Seq<SpecToken>)
    ensures
        spec_parse_additive_rest(e, ts) matches Ok(v) ==> v.1.len() <= ts.len(),
    decreases ts.len(),
{
    if ts.len() != 0 && (ts[0].data is Plus || ts[0].data is Minus) {
        lemma_primary_len(ts.skip(1));
        if let Ok(v) = spec_parse_primary(ts.skip(1)) {
            let b = SpecBinaryExpression { left: Box::new(e), right: Box::new(v.0) };
            let joined = if ts[0].data is Plus {
                SpecExpression::Plus(b)
            } else {
                SpecExpression::Minus(b)
            };
            lemma_additive_rest_len(joined, v.1);
        }
    }
}

pub proof fn lemma_additive_len(ts: Seq<SpecToken>)
    ensures
        spec_parse_additive(ts) matches Ok(v) ==> v.1.len() < ts.len(),
{
    lemma_primary_len(ts);
    if let Ok(v) = spec_parse_primary(ts) {
        lemma_additive_rest_len(v.0, v.1);
    }
}

/// Fold further `=` operands onto `e`, left-associatively.
pub open spec fn spec_parse_assign_rest(e: SpecExpression, ts: Seq<SpecToken>) -> Result<
    (SpecExpression, Seq<SpecToken>),
    SpecParseError,
>
    decreases ts.len(),
    via spec_parse_assign_rest_decreases
{
    if ts.len() == 0 || !(ts[0].data is Assign) {
        Ok((e, ts))
    } else {
        match spec_parse_additive(ts.skip(1)) {
            Ok(v) => spec_parse_assign_rest(
                SpecExpression::Assign(
                    SpecBinaryExpression { left: Box::new(e), right: Box::new(v.0) },
                ),
                v.1,
            ),
            Err(e2) => Err(e2),
        }
    }
}

#[via_fn]
proof fn spec_parse_assign_rest_decreases(e: SpecExpression, ts: Seq<SpecToken>) {
    if ts.len() != 0 {
        lemma_additive_len(ts.skip(1));
    }
}

/// The `=` level: an additive expression, then further ones folded in.
pub open spec fn spec_parse_assign(ts: Seq<SpecToken>) -> Result<
    (SpecExpression, Seq<SpecToken>),
    SpecParseError,
> {
    match spec_parse_additive(ts) {
        Ok(v) => spec_parse_assign_rest(v.0, v.1),
        Err(e) => Err(e),
    }
}

pub proof fn lemma_assign_rest_len(e: SpecExpression, ts: Seq<SpecToken>)
    ensures
        spec_parse_assign_rest(e, ts) matches Ok(v) ==> v.1.len() <= ts.len(),
    decreases ts.len(),
{
    if ts.len() != 0 && ts[0].data is Assign {
        lemma_additive_len(ts.skip(1));
        if let Ok(v) = spec_parse_additive(ts.skip(1)) {
            lemma_assign_rest_len(
                SpecExpression::Assign(
                    SpecBinaryExpression { left: Box::new(e), right: Box::new(v.0) },
                ),
                v.1,
            );
        }
    }
}

pub proof fn lemma_assign_len(ts: Seq<SpecToken>)
    ensures
        spec_parse_assign(ts) matches Ok(v) ==> v.1.len() < ts.len(),
{
    lemma_additive_len(ts);
    if let Ok(v) = spec_parse_additive(ts) {
        lemma_assign_rest_len(v.0, v.1);
    }
}

/// Fold further `,` operands onto `e`, left-associatively.
pub open spec fn spec_parse_comma_rest(e: SpecExpression, ts: Seq<SpecToken>) -> Result<
    (SpecExpression, Seq<SpecToken>),
    SpecParseError,
>
    decreases ts.len(),
    via spec_parse_comma_rest_decreases
{
    if ts.len() == 0 || !(ts[0].data is Comma) {
        Ok((e, ts))
    } else {
        match spec_parse_assign(ts.skip(1)) {
            Ok(v) => spec_parse_comma_rest(
                SpecExpression::Comma(
                    SpecBinaryExpression { left: Box::new(e), right: Box::new(v.0) },
                ),
                v.1,
            ),
            Err(e2) => Err(e2),
        }
    }
}

#[via_fn]
proof fn spec_parse_comma_rest_decreases(e: SpecExpression, ts: Seq<SpecToken>) {
    if ts.len() != 0 {
        lemma_assign_len(ts.skip(1));
    }
}

/// A whole expression: the `,` level, which binds loosest.
pub open spec fn spec_parse_expression(ts: Seq<SpecToken>) -> Result<
    (SpecExpression, Seq<SpecToken>),
    SpecParseError,
> {
    match spec_parse_assign(ts) {
        Ok(v) => spec_parse_comma_rest(v.0, v.1),
        Err(e) => Err(e),
    }
}

// ---------------------------------------------------------------------------
// The recursive-descent parser
// ---------------------------------------------------------------------------

/// Parse a qualified identifier: a word, then `::`-word pairs as long as
/// the lookahead is `::`. Returns the combined text and the position of the
/// first segment. On failure, reports once and stops the whole parse.
pub fn parse_namespaced_word(tokens: &mut Peekable, diags: &mut Diagnostics) -> (r: ParseResult<
    (String, FilePosition),
>)
    requires
        old(tokens).wf(),
    ensures
        final(tokens).wf(),
        final(tokens).tokens == old(tokens).tokens,
        ({
            let sp = spec_parse_namespaced_word(old(tokens).remaining());
            match r {
                Ok(v) => {
                    &&& sp == Ok::<((Seq<char>, SpecFilePosition), Seq<SpecToken>), SpecParseError>(
                        ((v.0@, v.1@), final(tokens).remaining()),
                    )
                    &&& final(tokens).remaining().len() < old(tokens).remaining().len()
                    &&& final(diags)@ == old(diags)@
                },
                Err(_) => sp matches Err(e) && final(diags)@ == old(diags)@.push(
                    spec_error(e.message, e.fpos),
                ),
            }
        }),
{
    let first = tokens.next();
    let (mut word, fpos) = match first {
        Some(Token { data: TokenData::Word(w), fpos: f }) => (w, f),
        Some(t) => {
            diags.report_error(DiagnosticMessage::ExpectedWord, Some(t.fpos));
            return Err(());
        },
        None => {
            diags.report_error(DiagnosticMessage::UnexpectedEndOfInput, None);
            return Err(());
        },
    };
    loop
        invariant
            tokens.wf(),
            tokens.tokens == old(tokens).tokens,
            diags@ == old(diags)@,
            tokens.remaining().len() < old(tokens).remaining().len(),
            spec_parse_namespaced_word(old(tokens).remaining()) == spec_parse_ns_rest(
                tokens.remaining(),
                word@,
                fpos@,
            ),
        ensures
            tokens.wf(),
            tokens.tokens == old(tokens).tokens,
            diags@ == old(diags)@,
            tokens.remaining().len() < old(tokens).remaining().len(),
            spec_parse_namespaced_word(old(tokens).remaining()) == Ok::<
                ((Seq<char>, SpecFilePosition), Seq<SpecToken>),
                SpecParseError,
            >(((word@, fpos@), tokens.remaining())),
        decreases tokens.remaining().len(),
    {
        let has_ns = match tokens.peek() {
            Some(t) => matches!(t.data, TokenData::Namespace),
            None => false,
        };
        if !has_ns {
            break;
        }
        let ghost rem0 = tokens.remaining();
        let _ns = tokens.next();
        match tokens.next() {
            Some(Token { data: TokenData::Word(w2), fpos: _ }) => {
                word.append("::");
                word.append(w2.as_str());
                proof {
                    assert(rem0.skip(1).skip(1) =~= rem0.skip(2));
                }
            },
            Some(t) => {
                proof {
                    assert(rem0.skip(1)[0] == rem0[1]);
                }
                diags.report_error(DiagnosticMessage::ExpectedWordAfterNamespace, Some(t.fpos));
                return Err(());
            },
            None => {
                diags.report_error(DiagnosticMessage::UnexpectedEndOfInput, None);
                return Err(());
            },
        }
    }
    Ok((word, fpos))
}

/// Parse the leaf of an expression: a qualified name.
fn parse_primary(tokens: &mut Peekable, diags: &mut Diagnostics) -> (r: ParseResult<Expression>)
    requires
        old(tokens).wf(),
    ensures
        final(tokens).wf(),
        final(tokens).tokens == old(tokens).tokens,
        ({
            let sp = spec_parse_primary(old(tokens).remaining());
            match r {
                Ok(e) => {
                    &&& sp == Ok::<(SpecExpression, Seq<SpecToken>), SpecParseError>(
                        (spec_of_expression(e), final(tokens).remaining()),
                    )
                    &&& final(tokens).remaining().len() < old(tokens).remaining().len()
                    &&& final(diags)@ == old(diags)@
                },
                Err(_) => sp matches Err(e) && final(diags)@ == old(diags)@.push(
                    spec_error(e.message, e.fpos),
                ),
            }
        }),
{
    match parse_namespaced_word(tokens, diags) {
        Ok(v) => Ok(Expression::Name(v.0)),
        Err(x) => Err(x),
    }
}

/// Fold further `+` and `-` operands onto `first`, left-associatively,
/// while the lookahead is `+` or `-`.
fn parse_additive_from(first: Expression, tokens: &mut Peekable, diags: &mut Diagnostics) -> (r:
    ParseResult<Expression>)
    requires
        old(tokens).wf(),
    ensures
        final(tokens).wf(),
        final(tokens).tokens == old(tokens).tokens,
        ({
            let sp = spec_parse_additive_rest(spec_of_expression(first), old(tokens).remaining());
            match r {
                Ok(e) => {
                    &&& sp == Ok::<(SpecExpression, Seq<SpecToken>), SpecParseError>(
                        (spec_of_expression(e), final(tokens).remaining()),
                    )
                    &&& final(tokens).remaining().len() <= old(tokens).remaining().len()
                    &&& final(diags)@ == old(diags)@
                },
                Err(_) => sp matches Err(e) && final(diags)@ == old(diags)@.push(
                    spec_error(e.message, e.fpos),
                ),
            }
        }),
{
    let mut e = first;
    loop
        invariant
            tokens.wf(),
            tokens.tokens == old(tokens).tokens,
            diags@ == old(diags)@,
            tokens.remaining().len() <= old(tokens).remaining().len(),
            spec_parse_additive_rest(spec_of_expression(first), old(tokens).remaining())
                == spec_parse_additive_rest(spec_of_expression(e), tokens.remaining()),
        ensures
            tokens.wf(),
            tokens.tokens == old(tokens).tokens,
            diags@ == old(diags)@,
            tokens.remaining().len() <= old(tokens).remaining().len(),
            spec_parse_additive_rest(spec_of_expression(first), old(tokens).remaining()) == Ok::<
                (SpecExpression, Seq<SpecToken>),
                SpecParseError,
            >((spec_of_expression(e), tokens.remaining())),
        decreases tokens.remaining().len(),
    {
        let is_plus = match tokens.peek() {
            Some(t) => matches!(t.data, TokenData::Plus),
            None => false,
        };
        let is_minus = match tokens.peek() {
            Some(t) => matches!(t.data, TokenData::Minus),
            None => false,
        };
        if !(is_plus || is_minus) {
            break;
        }
        let _op = tokens.next();
        let rhs = match parse_primary(tokens, diags) {
            Ok(v) => v,
            Err(x) => {
                return Err(x);
            },
        };
        e = if is_plus {
            Expression::Plus(BinaryExpression { left: Box::new(e), right: Box::new(rhs) })
        } else {
            Expression::Minus(BinaryExpression { left: Box::new(e), right: Box::new(rhs) })
        };
    }
    Ok(e)
}

/// Parse the `+`/`-` level: a primary, then operands folded in.
fn parse_additive(tokens: &mut Peekable, diags: &mut Diagnostics) -> (r: ParseResult<Expression>)
    requires
        old(tokens).wf(),
    ensures
        final(tokens).wf(),
        final(tokens).tokens == old(tokens).tokens,
        ({
            let sp = spec_parse_additive(old(tokens).remaining());
            match r {
                Ok(e) => {
                    &&& sp == Ok::<(SpecExpression, Seq<SpecToken>), SpecParseError>(
                        (spec_of_expression(e), final(tokens).remaining()),
                    )
                    &&& final(tokens).remaining().len() < old(tokens).remaining().len()
                    &&& final(diags)@ == old(diags)@
                },
                Err(_) => sp matches Err(e) && final(diags)@ == old(diags)@.push(
                    spec_error(e.message, e.fpos),
                ),
            }
        }),
{
    let e = match parse_primary(tokens, diags) {
        Ok(v) => v,
        Err(x) => {
            return Err(x);
        },
    };
    parse_additive_from(e, tokens, diags)
}

/// Fold further `=` operands onto `first`, left-associatively, while the
/// lookahead is `=`.
fn parse_assign_from(first: Expression, tokens: &mut Peekable, diags: &mut Diagnostics) -> (r:
    ParseResult<Expression>)
    requires
        old(tokens).wf(),
    ensures
        final(tokens).wf(),
        final(tokens).tokens == old(tokens).tokens,
        ({
            let sp = spec_parse_assign_rest(spec_of_expression(first), old(tokens).remaining());
            match r {
                Ok(e) => {
                    &&& sp == Ok::<(SpecExpression, Seq<SpecToken>), SpecParseError>(
                        (spec_of_expression(e), final(tokens).remaining()),
                    )
                    &&& final(tokens).remaining().len() <= old(tokens).remaining().len()
                    &&& final(diags)@ == old(diags)@
                },
                Err(_) => sp matches Err(e) && final(diags)@ == old(diags)@.push(
                    spec_error(e.message, e.fpos),
                ),
            }
        }),
{
    let mut e = first;
    loop
        invariant
            tokens.wf(),
            tokens.tokens == old(tokens).tokens,
            diags@ == old(diags)@,
            tokens.remaining().len() <= old(tokens).remaining().len(),
            spec_parse_assign_rest(spec_of_expression(first), old(tokens).remaining())
                == spec_parse_assign_rest(spec_of_expression(e), tokens.remaining()),
        ensures
            tokens.wf(),
            tokens.tokens == old(tokens).tokens,
            diags@ == old(diags)@,
            tokens.remaining().len() <= old(tokens).remaining().len(),
            spec_parse_assign_rest(spec_of_expression(first), old(tokens).remaining()) == Ok::<
                (SpecExpression, Seq<SpecToken>),
                SpecParseError,
            >((spec_of_expression(e), tokens.remaining())),
        decreases tokens.remaining().len(),
    {
        let has_assign = match tokens.peek() {
            Some(t) => matches!(t.data, TokenData::Assign),
            None => false,
        };
        if !has_assign {
            break;
        }
        let _op = tokens.next();
        let rhs = match parse_additive(tokens, diags) {
            Ok(v) => v,
            Err(x) => {
                return Err(x);
            },
        };
        e = Expression::Assign(BinaryExpression { left: Box::new(e), right: Box::new(rhs) });
    }
    Ok(e)
}

/// Parse the `=` level: an additive expression, then operands folded in.
fn parse_assign(tokens: &mut Peekable, diags: &mut Diagnostics) -> (r: ParseResult<Expression>)
    requires
        old(tokens).wf(),
    ensures
        final(tokens).wf(),
        final(tokens).tokens == old(tokens).tokens,
        ({
            let sp = spec_parse_assign(old(tokens).remaining());
            match r {
                Ok(e) => {
                    &&& sp == Ok::<(SpecExpression, Seq<SpecToken>), SpecParseError>(
                        (spec_of_expression(e), final(tokens).remaining()),
                    )
                    &&& final(tokens).remaining().len() < old(tokens).remaining().len()
                    &&& final(diags)@ == old(diags)@
                },
                Err(_) => sp matches Err(e) && final(diags)@ == old(diags)@.push(
                    spec_error(e.message, e.fpos),
                ),
            }
        }),
{
    let e = match parse_additive(tokens, diags) {
        Ok(v) => v,
        Err(x) => {
            return Err(x);
        },
    };
    parse_assign_from(e, tokens, diags)
}

/// Fold further `,` operands onto `first`, left-associatively, while the
/// lookahead is `,`.
fn parse_comma_from(first: Expression, tokens: &mut Peekable, diags: &mut Diagnostics) -> (r:
    ParseResult<Expression>)
    requires
        old(tokens).wf(),
    ensures
        final(tokens).wf(),
        final(tokens).tokens == old(tokens).tokens,
        ({
            let sp = spec_parse_comma_rest(spec_of_expression(first), old(tokens).remaining());
            match r {
                Ok(e) => {
                    &&& sp == Ok::<(SpecExpression, Seq<SpecToken>), SpecParseError>(
                        (spec_of_expression(e), final(tokens).remaining()),
                    )
                    &&& final(tokens).remaining().len() <= old(tokens).remaining().len()
                    &&& final(diags)@ == old(diags)@
                },
                Err(_) => sp matches Err(e) && final(diags)@ == old(diags)@.push(
                    spec_error(e.message, e.fpos),
                ),
            }
        }),
{
    let mut e = first;
    loop
        invariant
            tokens.wf(),
            tokens.tokens == old(tokens).tokens,
            diags@ == old(diags)@,
            tokens.remaining().len() <= old(tokens).remaining().len(),
            spec_parse_comma_rest(spec_of_expression(first), old(tokens).remaining())
                == spec_parse_comma_rest(spec_of_expression(e), tokens.remaining()),
        ensures
            tokens.wf(),
            tokens.tokens == old(tokens).tokens,
            diags@ == old(diags)@,
            tokens.remaining().len() <= old(tokens).remaining().len(),
            spec_parse_comma_rest(spec_of_expression(first), old(tokens).remaining()) == Ok::<
                (SpecExpression, Seq<SpecToken>),
                SpecParseError,
            >((spec_of_expression(e), tokens.remaining())),
        decreases tokens.remaining().len(),
    {
        let has_comma = match tokens.peek() {
            Some(t) => matches!(t.data, TokenData::Comma),
            None => false,
        };
        if !has_comma {
            break;
        }
        let _op = tokens.next();
        let rhs = match parse_assign(tokens, diags) {
            Ok(v) => v,
            Err(x) => {
                return Err(x);
            },
        };
        e = Expression::Comma(BinaryExpression { left: Box::new(e), right: Box::new(rhs) });
    }
    Ok(e)
}

/// Parse a whole expression: the `,` level, which binds loosest.
pub fn parse_expression(tokens: &mut Peekable, diags: &mut Diagnostics) -> (r: ParseResult<
    Expression,
>)
    requires
        old(tokens).wf(),
    ensures
        final(tokens).wf(),
        final(tokens).tokens == old(tokens).tokens,
        ({
            let sp = spec_parse_expression(old(tokens).remaining());
            match r {
                Ok(e) => {
                    &&& sp == Ok::<(SpecExpression, Seq<SpecToken>), SpecParseError>(
                        (spec_of_expression(e), final(tokens).remaining()),
                    )
                    &&& final(tokens).remaining().len() < old(tokens).remaining().len()
                    &&& final(diags)@ == old(diags)@
                },
                Err(_) => sp matches Err(e) && final(diags)@ == old(diags)@.push(
                    spec_error(e.message, e.fpos),
                ),
            }
        }),
{
    let e = match parse_assign(tokens, diags) {
        Ok(v) => v,
        Err(x) => {
            return Err(x);
        },
    };
    parse_comma_from(e, tokens, diags)
}

/// A type expression: a qualified name. A pointer sigil would wrap the
/// inner type in `Pointer`, but no token produces one yet.
pub open spec fn spec_parse_type_expression(ts: Seq<SpecToken>) -> Result<
    (SpecTypeExpression, Seq<SpecToken>),
    SpecParseError,
> {
    match spec_parse_namespaced_word(ts) {
        Ok(v) => Ok((SpecTypeExpression::Name(v.0.0), v.1)),
        Err(e) => Err(e),
    }
}

pub proof fn lemma_type_expression_len(ts: Seq<SpecToken>)
    ensures
        spec_parse_type_expression(ts) matches Ok(v) ==> v.1.len() < ts.len(),
{
    lemma_nsword_len(ts);
}

pub proof fn lemma_type_expression_len_all()
    ensures
        forall|ts: Seq<SpecToken>|
            (#[trigger] spec_parse_type_expression(ts)) matches Ok(v) ==> v.1.len() < ts.len(),
{
    assert forall|ts: Seq<SpecToken>|
        (#[trigger] spec_parse_type_expression(ts)) matches Ok(v) ==> v.1.len() < ts.len() by {
        lemma_type_expression_len(ts);
    }
}

// In the four spec functions below, a branch fails on a rest that did not
// shrink. The grammar always consumes tokens there, so the branch cannot be
// taken (the parser's contracts show as much); it only bounds the recursion.

/// A function, from the `fun` keyword on: `fun ( params ) -> type { body }`.
/// The name was declared before the `:` and is passed in.
pub open spec fn spec_parse_function(name: Seq<char>, ts: Seq<SpecToken>) -> Result<
    (SpecFunction, Seq<SpecToken>),
    SpecParseError,
>
    decreases ts.len(), 0int,
    via spec_parse_function_decreases
{
    if ts.len() == 0 {
        Err(SpecParseError { message: SpecDiagnosticMessage::UnexpectedEndOfInput, fpos: None })
    } else if !(ts[0].data is Fun) {
        Err(SpecParseError { message: SpecDiagnosticMessage::ExpectedFun, fpos: Some(ts[0].fpos) })
    } else if ts.len() == 1 {
        Err(SpecParseError { message: SpecDiagnosticMessage::UnexpectedEndOfInput, fpos: None })
    } else if !(ts[1].data is OpenParen) {
        Err(
            SpecParseError {
                message: SpecDiagnosticMessage::ExpectedOpenParen,
                fpos: Some(ts[1].fpos),
            },
        )
    } else {
        match spec_parse_params(ts.skip(2)) {
            Err(e) => Err(e),
            Ok(pv) => {
                let params = pv.0;
                let ts3 = pv.1;
                if ts3.len() >= ts.len() {
                    Err(
                        SpecParseError {
                            message: SpecDiagnosticMessage::UnexpectedEndOfInput,
                            fpos: None,
                        },
                    )
                } else if ts3.len() == 0 {
                    Err(
                        SpecParseError {
                            message: SpecDiagnosticMessage::UnexpectedEndOfInput,
                            fpos: None,
                        },
                    )
                } else if !(ts3[0].data is RightArrow) {
                    Err(
                        SpecParseError {
                            message: SpecDiagnosticMessage::ExpectedRightArrow,
                            fpos: Some(ts3[0].fpos),
                        },
                    )
                } else {
                    match spec_parse_type_expression(ts3.skip(1)) {
                        Err(e) => Err(e),
                        Ok(tv) => {
                            let ts4 = tv.1;
                            if ts4.len() == 0 {
                                Err(
                                    SpecParseError {
                                        message: SpecDiagnosticMessage::UnexpectedEndOfInput,
                                        fpos: None,
                                    },
                                )
                            } else if !(ts4[0].data is OpenCurly) {
                                Err(
                                    SpecParseError {
                                        message: SpecDiagnosticMessage::ExpectedOpenCurly,
                                        fpos: Some(ts4[0].fpos),
                                    },
                                )
                            } else {
                                match spec_parse_statements(Seq::empty(), ts4.skip(1)) {
                                    Err(e) => Err(e),
                                    Ok(sv) => Ok(
                                        (
                                            SpecFunction {
                                                name,
                                                params,
                                                return_type: tv.0,
                                                statements: sv.0,
                                            },
                                            sv.1,
                                        ),
                                    ),
                                }
                            }
                        },
                    }
                }
            },
        }
    }
}

#[via_fn]
proof fn spec_parse_function_decreases(name: Seq<char>, ts: Seq<SpecToken>) {
    lemma_type_expression_len_all();
}

/// The parameter list after `(`: empty, or declarations separated by `,`,
/// closed by `)`.
pub open spec fn spec_parse_params(ts: Seq<SpecToken>) -> Result<
    (Seq<SpecVariableDeclaration>, Seq<SpecToken>),
    SpecParseError,
>
    decreases ts.len(), 3int,
{
    if ts.len() == 0 {
        Err(SpecParseError { message: SpecDiagnosticMessage::UnexpectedEndOfInput, fpos: None })
    } else if ts[0].data is CloseParen {
        Ok((Seq::empty(), ts.skip(1)))
    } else {
        match spec_parse_variable_declaration(ts) {
            Err(e) => Err(e),
            Ok(v) => {
                if v.1.len() >= ts.len() {
                    Err(
                        SpecParseError {
                            message: SpecDiagnosticMessage::UnexpectedEndOfInput,
                            fpos: None,
                        },
                    )
                } else {
                    spec_parse_params_rest(seq![v.0], v.1)
                }
            },
        }
    }
}

pub open spec fn spec_parse_params_rest(
    acc: Seq<SpecVariableDeclaration>,
    ts: Seq<SpecToken>,
) -> Result<(Seq<SpecVariableDeclaration>, Seq<SpecToken>), SpecParseError>
    decreases ts.len(), 3int,
{
    if ts.len() == 0 {
        Err(SpecParseError { message: SpecDiagnosticMessage::UnexpectedEndOfInput, fpos: None })
    } else if ts[0].data is CloseParen {
        Ok((acc, ts.skip(1)))
    } else if ts[0].data is Comma {
        match spec_parse_variable_declaration(ts.skip(1)) {
            Err(e) => Err(e),
            Ok(v) => {
                if v.1.len() >= ts.len() {
                    Err(
                        SpecParseError {
                            message: SpecDiagnosticMessage::UnexpectedEndOfInput,
                            fpos: None,
                        },
                    )
                } else {
                    spec_parse_params_rest(acc.push(v.0), v.1)
                }
            },
        }
    } else {
        Err(
            SpecParseError {
                message: SpecDiagnosticMessage::ExpectedParameterSeparator,
                fpos: Some(ts[0].fpos),
            },
        )
    }
}

/// What a declared name is bound to, from the `:` on: a function if the
/// token after the `:` is `fun`, else a type expression.
pub open spec fn spec_parse_decl_after_name(name: Seq<char>, ts: Seq<SpecToken>) -> Result<
    (SpecVariableDeclaration, Seq<SpecToken>),
    SpecParseError,
>
    decreases ts.len(), 1int,
{
    if ts.len() == 0 {
        Err(SpecParseError { message: SpecDiagnosticMessage::UnexpectedEndOfInput, fpos: None })
    } else if !(ts[0].data is Colon) {
        Err(
            SpecParseError {
                message: SpecDiagnosticMessage::ExpectedColon,
                fpos: Some(ts[0].fpos),
            },
        )
    } else {
        let after = ts.skip(1);
        if after.len() > 0 && after[0].data is Fun {
            match spec_parse_function(name, after) {
                Err(e) => Err(e),
                Ok(fv) => Ok(
                    (
                        SpecVariableDeclaration {
                            name,
                            var_type: SpecDefiningTypeExpression::Function(fv.0),
                        },
                        fv.1,
                    ),
                ),
            }
        } else {
            match spec_parse_type_expression(after) {
                Err(e) => Err(e),
                Ok(tv) => Ok(
                    (
                        SpecVariableDeclaration {
                            name,
                            var_type: SpecDefiningTypeExpression::TypeExpression(tv.0),
                        },
                        tv.1,
                    ),
                ),
            }
        }
    }
}

/// One declaration: a qualified name, `:`, then what the name is bound to.
pub open spec fn spec_parse_variable_declaration(ts: Seq<SpecToken>) -> Result<
    (SpecVariableDeclaration, Seq<SpecToken>),
    SpecParseError,
>
    decreases ts.len(), 2int,
    via spec_parse_variable_declaration_decreases
{
    match spec_parse_namespaced_word(ts) {
        Err(e) => Err(e),
        Ok(v) => spec_parse_decl_after_name(v.0.0, v.1),
    }
}

#[via_fn]
proof fn spec_parse_variable_declaration_decreases(ts: Seq<SpecToken>) {
    lemma_nsword_len(ts);
}

/// One statement: `return ;`, a declaration ended by `;` when a qualified
/// name is followed by `:`, else an expression ended by `;`.
pub open spec fn spec_parse_statement(ts: Seq<SpecToken>) -> Result<
    (SpecStatement, Seq<SpecToken>),
    SpecParseError,
>
    decreases ts.len(), 3int,
    via spec_parse_statement_decreases
{
    if ts.len() == 0 {
        Err(SpecParseError { message: SpecDiagnosticMessage::UnexpectedEndOfInput, fpos: None })
    } else if ts[0].data is Return {
        if ts.len() == 1 {
            Err(SpecParseError { message: SpecDiagnosticMessage::UnexpectedEndOfInput, fpos: None })
        } else if !(ts[1].data is Semicolon) {
            Err(
                SpecParseError {
                    message: SpecDiagnosticMessage::ExpectedSemicolon,
                    fpos: Some(ts[1].fpos),
                },
            )
        } else {
            Ok((SpecStatement::Return, ts.skip(2)))
        }
    } else {
        match spec_parse_namespaced_word(ts) {
            Err(e) => Err(e),
            Ok(v) => {
                let rest = v.1;
                if rest.len() > 0 && rest[0].data is Colon {
                    match spec_parse_decl_after_name(v.0.0, rest) {
                        Err(e) => Err(e),
                        Ok(dv) => {
                            if dv.1.len() == 0 {
                                Err(
                                    SpecParseError {
                                        message: SpecDiagnosticMessage::UnexpectedEndOfInput,
                                        fpos: None,
                                    },
                                )
                            } else if !(dv.1[0].data is Semicolon) {
                                Err(
                                    SpecParseError {
                                        message: SpecDiagnosticMessage::ExpectedSemicolon,
                                        fpos: Some(dv.1[0].fpos),
                                    },
                                )
                            } else {
                                Ok((SpecStatement::VariableDeclaration(dv.0), dv.1.skip(1)))
                            }
                        },
                    }
                } else {
                    match spec_parse_expression(ts) {
                        Err(e) => Err(e),
                        Ok(ev) => {
                            if ev.1.len() == 0 {
                                Err(
                                    SpecParseError {
                                        message: SpecDiagnosticMessage::UnexpectedEndOfInput,
                                        fpos: None,
                                    },
                                )
                            } else if !(ev.1[0].data is Semicolon) {
                                Err(
                                    SpecParseError {
                                        message: SpecDiagnosticMessage::ExpectedSemicolon,
                                        fpos: Some(ev.1[0].fpos),
                                    },
                                )
                            } else {
                                Ok((SpecStatement::Expression(ev.0), ev.1.skip(1)))
                            }
                        },
                    }
                }
            },
        }
    }
}

#[via_fn]
proof fn spec_parse_statement_decreases(ts: Seq<SpecToken>) {
    lemma_nsword_len(ts);
}

/// The statements of a body, up to the closing `}`.
pub open spec fn spec_parse_statements(acc: Seq<SpecStatement>, ts: Seq<SpecToken>) -> Result<
    (Seq<SpecStatement>, Seq<SpecToken>),
    SpecParseError,
>
    decreases ts.len(), 4int,
{
    if ts.len() == 0 {
        Err(SpecParseError { message: SpecDiagnosticMessage::UnexpectedEndOfInput, fpos: None })
    } else if ts[0].data is CloseCurly {
        Ok((acc, ts.skip(1)))
    } else {
        match spec_parse_statement(ts) {
            Err(e) => Err(e),
            Ok(sv) => {
                if sv.1.len() >= ts.len() {
                    Err(
                        SpecParseError {
                            message: SpecDiagnosticMessage::UnexpectedEndOfInput,
                            fpos: None,
                        },
                    )
                } else {
                    spec_parse_statements(acc.push(sv.0), sv.1)
                }
            },
        }
    }
}

/// The whole input: declarations until the tokens are exhausted.
pub open spec fn spec_parse_toplevel(
    acc: Seq<SpecVariableDeclaration>,
    ts: Seq<SpecToken>,
) -> Result<Seq<SpecVariableDeclaration>, SpecParseError>
    decreases ts.len(),
{
    if ts.len() == 0 {
        Ok(acc)
    } else {
        match spec_parse_variable_declaration(ts) {
            Err(e) => Err(e),
            Ok(v) => {
                if v.1.len() >= ts.len() {
                    Err(
                        SpecParseError {
                            message: SpecDiagnosticMessage::UnexpectedEndOfInput,
                            fpos: None,
                        },
                    )
                } else {
                    spec_parse_toplevel(acc.push(v.0), v.1)
                }
            },
        }
    }
}

/// What parsing a token sequence yields.
pub open spec fn spec_parse(ts: Seq<SpecToken>) -> Result<
    Seq<SpecVariableDeclaration>,
    SpecParseError,
> {
    spec_parse_toplevel(Seq::empty(), ts)
}

proof fn lemma_vds_push(
    v1: Vec<VariableDeclaration>,
    v2: Vec<VariableDeclaration>,
    d: VariableDeclaration,
    i: int,
)
    requires
        v2@ == v1@.push(d),
        0 <= i <= v1.len(),
    ensures
        spec_of_variable_declarations(v2, i) == spec_of_variable_declarations(v1, i).push(
            spec_of_variable_declaration(d),
        ),
    decreases v1@.len() - i,
{
    if i < v1.len() {
        lemma_vds_push(v1, v2, d, i + 1);
        assert(v2[i] == v1[i]);
        assert(spec_of_variable_declarations(v2, i) =~= spec_of_variable_declarations(v1, i).push(
            spec_of_variable_declaration(d),
        ));
    } else {
        assert(v2[i] == d);
        assert(spec_of_variable_declarations(v2, i + 1) =~= Seq::empty());
        assert(spec_of_variable_declarations(v1, i) =~= Seq::empty());
        assert(spec_of_variable_declarations(v2, i) =~= spec_of_variable_declarations(v1, i).push(
            spec_of_variable_declaration(d),
        ));
    }
}

proof fn lemma_stmts_push(v1: Vec<Statement>, v2: Vec<Statement>, d: Statement, i: int)
    requires
        v2@ == v1@.push(d),
        0 <= i <= v1.len(),
    ensures
        spec_of_statements(v2, i) == spec_of_statements(v1, i).push(spec_of_statement(d)),
    decreases v1@.len() - i,
{
    if i < v1.len() {
        lemma_stmts_push(v1, v2, d, i + 1);
        assert(v2[i] == v1[i]);
        assert(spec_of_statements(v2, i) =~= spec_of_statements(v1, i).push(spec_of_statement(d)));
    } else {
        assert(v2[i] == d);
        assert(spec_of_statements(v2, i + 1) =~= Seq::empty());
        assert(spec_of_statements(v1, i) =~= Seq::empty());
        assert(spec_of_statements(v2, i) =~= spec_of_statements(v1, i).push(spec_of_statement(d)));
    }
}

/// Parse a type expression: a qualified name.
pub fn parse_type_expression(tokens: &mut Peekable, diags: &mut Diagnostics) -> (r: ParseResult<
    TypeExpression,
>)
    requires
        old(tokens).wf(),
    ensures
        final(tokens).wf(),
        final(tokens).tokens == old(tokens).tokens,
        ({
            let sp = spec_parse_type_expression(old(tokens).remaining());
            match r {
                Ok(t) => {
                    &&& sp == Ok::<(SpecTypeExpression, Seq<SpecToken>), SpecParseError>(
                        (spec_of_type_expression(t), final(tokens).remaining()),
                    )
                    &&& final(tokens).remaining().len() < old(tokens).remaining().len()
                    &&& final(diags)@ == old(diags)@
                },
                Err(_) => sp matches Err(e) && final(diags)@ == old(diags)@.push(
                    spec_error(e.message, e.fpos),
                ),
            }
        }),
{
    match parse_namespaced_word(tokens, diags) {
        Ok(v) => Ok(TypeExpression::Name(v.0)),
        Err(x) => Err(x),
    }
}

/// Parse what a declared name is bound to, from the `:` on.
fn parse_decl_after_name(name: String, tokens: &mut Peekable, diags: &mut Diagnostics) -> (r:
    ParseResult<VariableDeclaration>)
    requires
        old(tokens).wf(),
    ensures
        final(tokens).wf(),
        final(tokens).tokens == old(tokens).tokens,
        ({
            let sp = spec_parse_decl_after_name(name@, old(tokens).remaining());
            match r {
                Ok(d) => {
                    &&& sp == Ok::<(SpecVariableDeclaration, Seq<SpecToken>), SpecParseError>(
                        (spec_of_variable_declaration(d), final(tokens).remaining()),
                    )
                    &&& final(tokens).remaining().len() < old(tokens).remaining().len()
                    &&& final(diags)@ == old(diags)@
                },
                Err(_) => sp matches Err(e) && final(diags)@ == old(diags)@.push(
                    spec_error(e.message, e.fpos),
                ),
            }
        }),
    decreases old(tokens).remaining().len(), 1int,
{
    match tokens.next() {
        None => {
            diags.report_error(DiagnosticMessage::UnexpectedEndOfInput, None);
            return Err(());
        },
        Some(t) => {
            if !matches!(t.data, TokenData::Colon) {
                diags.report_error(DiagnosticMessage::ExpectedColon, Some(t.fpos));
                return Err(());
            }
        },
    }
    let is_fun = match tokens.peek() {
        Some(t) => matches!(t.data, TokenData::Fun),
        None => false,
    };
    if is_fun {
        let decl_name = name.clone();
        match parse_function(name, tokens, diags) {
            Ok(f) => Ok(
                VariableDeclaration {
                    name: decl_name,
                    var_type: DefiningTypeExpression::Function(f),
                },
            ),
            Err(x) => Err(x),
        }
    } else {
        match parse_type_expression(tokens, diags) {
            Ok(t) => Ok(
                VariableDeclaration { name, var_type: DefiningTypeExpression::TypeExpression(t) },
            ),
            Err(x) => Err(x),
        }
    }
}

/// Parse one declaration: a qualified name, `:`, then what it is bound to.
pub fn parse_variable_declaration(tokens: &mut Peekable, diags: &mut Diagnostics) -> (r:
    ParseResult<VariableDeclaration>)
    requires
        old(tokens).wf(),
    ensures
        final(tokens).wf(),
        final(tokens).tokens == old(tokens).tokens,
        ({
            let sp = spec_parse_variable_declaration(old(tokens).remaining());
            match r {
                Ok(d) => {
                    &&& sp == Ok::<(SpecVariableDeclaration, Seq<SpecToken>), SpecParseError>(
                        (spec_of_variable_declaration(d), final(tokens).remaining()),
                    )
                    &&& final(tokens).remaining().len() < old(tokens).remaining().len()
                    &&& final(diags)@ == old(diags)@
                },
                Err(_) => sp matches Err(e) && final(diags)@ == old(diags)@.push(
                    spec_error(e.message, e.fpos),
                ),
            }
        }),
    decreases old(tokens).remaining().len(), 2int,
{
    let (word, _fpos) = match parse_namespaced_word(tokens, diags) {
        Ok(v) => v,
        Err(x) => {
            return Err(x);
        },
    };
    parse_decl_after_name(word, tokens, diags)
}

/// Parse a parameter list after `(`: empty, or declarations separated by
/// `,`, closed by `)`.
fn parse_params(tokens: &mut Peekable, diags: &mut Diagnostics) -> (r: ParseResult<
    Vec<VariableDeclaration>,
>)
    requires
        old(tokens).wf(),
    ensures
        final(tokens).wf(),
        final(tokens).tokens == old(tokens).tokens,
        ({
            let sp = spec_parse_params(old(tokens).remaining());
            match r {
                Ok(v) => {
                    &&& sp == Ok::<
                        (Seq<SpecVariableDeclaration>, Seq<SpecToken>),
                        SpecParseError,
                    >((spec_of_variable_declarations(v, 0), final(tokens).remaining()))
                    &&& final(tokens).remaining().len() < old(tokens).remaining().len()
                    &&& final(diags)@ == old(diags)@
                },
                Err(_) => sp matches Err(e) && final(diags)@ == old(diags)@.push(
                    spec_error(e.message, e.fpos),
                ),
            }
        }),
    decreases old(tokens).remaining().len(), 3int,
{
    let mut params: Vec<VariableDeclaration> = Vec::new();
    let is_close = match tokens.peek() {
        Some(t) => matches!(t.data, TokenData::CloseParen),
        None => {
            diags.report_error(DiagnosticMessage::UnexpectedEndOfInput, None);
            return Err(());
        },
    };
    if is_close {
        let _close = tokens.next();
        proof {
            assert(spec_of_variable_declarations(params, 0) =~= Seq::empty());
        }
        return Ok(params);
    }
    let first = match parse_variable_declaration(tokens, diags) {
        Ok(v) => v,
        Err(x) => {
            return Err(x);
        },
    };
    let ghost before_first = params;
    proof {
        assert(spec_of_variable_declarations(before_first, 0) =~= Seq::empty());
    }
    params.push(first);
    proof {
        lemma_vds_push(before_first, params, first, 0);
        assert(spec_of_variable_declarations(params, 0) =~= seq![
            spec_of_variable_declaration(first),
        ]);
    }
    loop
        invariant
            tokens.wf(),
            tokens.tokens == old(tokens).tokens,
            diags@ == old(diags)@,
            tokens.remaining().len() < old(tokens).remaining().len(),
            spec_parse_params(old(tokens).remaining()) == spec_parse_params_rest(
                spec_of_variable_declarations(params, 0),
                tokens.remaining(),
            ),
        decreases tokens.remaining().len(),
    {
        match tokens.next() {
            None => {
                diags.report_error(DiagnosticMessage::UnexpectedEndOfInput, None);
                return Err(());
            },
            Some(t) => {
                if matches!(t.data, TokenData::CloseParen) {
                    return Ok(params);
                } else if matches!(t.data, TokenData::Comma) {
                    let d = match parse_variable_declaration(tokens, diags) {
                        Ok(v) => v,
                        Err(x) => {
                            return Err(x);
                        },
                    };
                    let ghost before = params;
                    params.push(d);
                    proof {
                        lemma_vds_push(before, params, d, 0);
                    }
                } else {
                    diags.report_error(
                        DiagnosticMessage::ExpectedParameterSeparator,
                        Some(t.fpos),
                    );
                    return Err(());
                }
            },
        }
    }
}

/// Parse a function, from the `fun` keyword on:
/// `fun ( params ) -> type { body }`.
fn parse_function(name: String, tokens: &mut Peekable, diags: &mut Diagnostics) -> (r: ParseResult<
    Function,
>)
    requires
        old(tokens).wf(),
    ensures
        final(tokens).wf(),
        final(tokens).tokens == old(tokens).tokens,
        ({
            let sp = spec_parse_function(name@, old(tokens).remaining());
            match r {
                Ok(f) => {
                    &&& sp == Ok::<(SpecFunction, Seq<SpecToken>), SpecParseError>(
                        (spec_of_function(f), final(tokens).remaining()),
                    )
                    &&& final(tokens).remaining().len() < old(tokens).remaining().len()
                    &&& final(diags)@ == old(diags)@
                },
                Err(_) => sp matches Err(e) && final(diags)@ == old(diags)@.push(
                    spec_error(e.message, e.fpos),
                ),
            }
        }),
    decreases old(tokens).remaining().len(), 0int,
{
    let ghost ts0 = tokens.remaining();
    match tokens.next() {
        None => {
            diags.report_error(DiagnosticMessage::UnexpectedEndOfInput, None);
            return Err(());
        },
        Some(t) => {
            if !matches!(t.data, TokenData::Fun) {
                diags.report_error(DiagnosticMessage::ExpectedFun, Some(t.fpos));
                return Err(());
            }
        },
    }
    match tokens.next() {
        None => {
            diags.report_error(DiagnosticMessage::UnexpectedEndOfInput, None);
            return Err(());
        },
        Some(t) => {
            if !matches!(t.data, TokenData::OpenParen) {
                diags.report_error(DiagnosticMessage::ExpectedOpenParen, Some(t.fpos));
                return Err(());
            }
        },
    }
    proof {
        assert(tokens.remaining() =~= ts0.skip(2));
    }
    let params = match parse_params(tokens, diags) {
        Ok(v) => v,
        Err(x) => {
            return Err(x);
        },
    };
    match tokens.next() {
        None => {
            diags.report_error(DiagnosticMessage::UnexpectedEndOfInput, None);
            return Err(());
        },
        Some(t) => {
            if !matches!(t.data, TokenData::RightArrow) {
                diags.report_error(DiagnosticMessage::ExpectedRightArrow, Some(t.fpos));
                return Err(());
            }
        },
    }
    let return_type = match parse_type_expression(tokens, diags) {
        Ok(v) => v,
        Err(x) => {
            return Err(x);
        },
    };
    match tokens.next() {
        None => {
            diags.report_error(DiagnosticMessage::UnexpectedEndOfInput, None);
            return Err(());
        },
        Some(t) => {
            if !matches!(t.data, TokenData::OpenCurly) {
                diags.report_error(DiagnosticMessage::ExpectedOpenCurly, Some(t.fpos));
                return Err(());
            }
        },
    }
    let mut statements: Vec<Statement> = Vec::new();
    let ghost ps = spec_of_variable_declarations(params, 0);
    let ghost rt = spec_of_type_expression(return_type);
    proof {
        assert(spec_of_statements(statements, 0) =~= Seq::empty());
    }
    loop
        invariant
            tokens.wf(),
            tokens.tokens == old(tokens).tokens,
            diags@ == old(diags)@,
            tokens.remaining().len() < old(tokens).remaining().len(),
            ps == spec_of_variable_declarations(params, 0),
            rt == spec_of_type_expression(return_type),
            ({
                let sp = spec_parse_function(name@, old(tokens).remaining());
                match spec_parse_statements(spec_of_statements(statements, 0), tokens.remaining()) {
                    Ok(sv) => sp == Ok::<(SpecFunction, Seq<SpecToken>), SpecParseError>(
                        (
                            SpecFunction {
                                name: name@,
                                params: ps,
                                return_type: rt,
                                statements: sv.0,
                            },
                            sv.1,
                        ),
                    ),
                    Err(e) => sp == Err::<(SpecFunction, Seq<SpecToken>), SpecParseError>(e),
                }
            }),
        decreases tokens.remaining().len(),
    {
        let is_close = match tokens.peek() {
            Some(t) => matches!(t.data, TokenData::CloseCurly),
            None => {
                diags.report_error(DiagnosticMessage::UnexpectedEndOfInput, None);
                return Err(());
            },
        };
        if is_close {
            let _close = tokens.next();
            return Ok(Function { name, params, return_type, statements });
        }
        let st = match parse_statement(tokens, diags) {
            Ok(v) => v,
            Err(x) => {
                return Err(x);
            },
        };
        let ghost before = statements;
        statements.push(st);
        proof {
            lemma_stmts_push(before, statements, st, 0);
        }
    }
}

/// Parse one statement: `return ;`, a declaration ended by `;` when a
/// qualified name is followed by `:`, else an expression ended by `;`.
pub fn parse_statement(tokens: &mut Peekable, diags: &mut Diagnostics) -> (r: ParseResult<
    Statement,
>)
    requires
        old(tokens).wf(),
    ensures
        final(tokens).wf(),
        final(tokens).tokens == old(tokens).tokens,
        ({
            let sp = spec_parse_statement(old(tokens).remaining());
            match r {
                Ok(st) => {
                    &&& sp == Ok::<(SpecStatement, Seq<SpecToken>), SpecParseError>(
                        (spec_of_statement(st), final(tokens).remaining()),
                    )
                    &&& final(tokens).remaining().len() < old(tokens).remaining().len()
                    &&& final(diags)@ == old(diags)@
                },
                Err(_) => sp matches Err(e) && final(diags)@ == old(diags)@.push(
                    spec_error(e.message, e.fpos),
                ),
            }
        }),
    decreases old(tokens).remaining().len(), 3int,
{
    let ghost ts0 = tokens.remaining();
    let is_return = match tokens.peek() {
        Some(t) => matches!(t.data, TokenData::Return),
        None => {
            diags.report_error(DiagnosticMessage::UnexpectedEndOfInput, None);
            return Err(());
        },
    };
    if is_return {
        let _ret = tokens.next();
        match tokens.next() {
            None => {
                diags.report_error(DiagnosticMessage::UnexpectedEndOfInput, None);
                return Err(());
            },
            Some(t) => {
                if matches!(t.data, TokenData::Semicolon) {
                    proof {
                        assert(tokens.remaining() =~= ts0.skip(2));
                    }
                    return Ok(Statement::Return);
                } else {
                    diags.report_error(DiagnosticMessage::ExpectedSemicolon, Some(t.fpos));
                    return Err(());
                }
            },
        }
    }
    let (word, _fpos) = match parse_namespaced_word(tokens, diags) {
        Ok(v) => v,
        Err(x) => {
            return Err(x);
        },
    };
    let is_colon = match tokens.peek() {
        Some(t) => matches!(t.data, TokenData::Colon),
        None => false,
    };
    if is_colon {
        let d = match parse_decl_after_name(word, tokens, diags) {
            Ok(v) => v,
            Err(x) => {
                return Err(x);
            },
        };
        match tokens.next() {
            None => {
                diags.report_error(DiagnosticMessage::UnexpectedEndOfInput, None);
                return Err(());
            },
            Some(t) => {
                if matches!(t.data, TokenData::Semicolon) {
                    return Ok(Statement::VariableDeclaration(d));
                } else {
                    diags.report_error(DiagnosticMessage::ExpectedSemicolon, Some(t.fpos));
                    return Err(());
                }
            },
        }
    } else {
        let e0 = Expression::Name(word);
        let e1 = match parse_additive_from(e0, tokens, diags) {
            Ok(v) => v,
            Err(x) => {
                return Err(x);
            },
        };
        let e2 = match parse_assign_from(e1, tokens, diags) {
            Ok(v) => v,
            Err(x) => {
                return Err(x);
            },
        };
        let e3 = match parse_comma_from(e2, tokens, diags) {
            Ok(v) => v,
            Err(x) => {
                return Err(x);
            },
        };
        match tokens.next() {
            None => {
                diags.report_error(DiagnosticMessage::UnexpectedEndOfInput, None);
                return Err(());
            },
            Some(t) => {
                if matches!(t.data, TokenData::Semicolon) {
                    return Ok(Statement::Expression(e3));
                } else {
                    diags.report_error(DiagnosticMessage::ExpectedSemicolon, Some(t.fpos));
                    return Err(());
                }
            },
        }
    }
}

/// Parse the whole token sequence: declarations until it is exhausted. The
/// first failure aborts the parse; the diagnostic for it has then been
/// reported.
pub fn parse(tokens: Vec<Token>, diags: &mut Diagnostics) -> (r: ParseResult<
    Vec<VariableDeclaration>,
>)
    ensures
        ({
            let sp = spec_parse(spec_tokens(tokens@));
            match r {
                Ok(v) => sp == Ok::<Seq<SpecVariableDeclaration>, SpecParseError>(
                    spec_of_variable_declarations(v, 0),
                ) && final(diags)@ == old(diags)@,
                Err(_) => sp matches Err(e) && final(diags)@ == old(diags)@.push(
                    spec_error(e.message, e.fpos),
                ),
            }
        }),
{
    let mut stream = Peekable::new(tokens);
    let mut decls: Vec<VariableDeclaration> = Vec::new();
    proof {
        assert(spec_of_variable_declarations(decls, 0) =~= Seq::empty());
    }
    loop
        invariant
            stream.wf(),
            diags@ == old(diags)@,
            spec_tokens(stream.tokens@) == spec_tokens(tokens@),
            spec_parse(spec_tokens(tokens@)) == spec_parse_toplevel(
                spec_of_variable_declarations(decls, 0),
                stream.remaining(),
            ),
        decreases stream.remaining().len(),
    {
        let done = match stream.peek() {
            Some(_) => false,
            None => true,
        };
        if done {
            return Ok(decls);
        }
        let d = match parse_variable_declaration(&mut stream, diags) {
            Ok(v) => v,
            Err(x) => {
                return Err(x);
            },
        };
        let ghost before = decls;
        decls.push(d);
        proof {
            lemma_vds_push(before, decls, d, 0);
        }
    }
}

} // verus!
