use vstd::prelude::*;
use crate::diagnostics::{DiagnosticMessage, Diagnostics, SpecDiagnosticMessage, spec_error};
use crate::file_position::{FilePosition, SpecFilePosition, spec_advance};

verus! {

// ---------------------------------------------------------------------------
// Tokens
// ---------------------------------------------------------------------------

/// The classified lexical units of the language: structural punctuation,
/// operators, the two compound operators that need look-ahead, the three
/// keywords, and identifiers.
#[derive(Debug, PartialEq)]
pub enum TokenData {
    CloseCurly,
    CloseParen,
    Colon,
    Fun,
    Namespace,
    OpenCurly,
    OpenParen,
    Return,
    RightArrow,
    Semicolon,
    Struct,
    Word(String),
    Comma,
    Assign,
    Minus,
    Plus,
}

/// Mathematical image of a `TokenData`.
pub ghost enum SpecTokenData {
    CloseCurly,
    CloseParen,
    Colon,
    Fun,
    Namespace,
    OpenCurly,
    OpenParen,
    Return,
    RightArrow,
    Semicolon,
    Struct,
    Word(Seq<char>),
    Comma,
    Assign,
    Minus,
    Plus,
}

impl View for TokenData {
    type V = SpecTokenData;

    open spec fn view(&self) -> SpecTokenData {
        match self {
            TokenData::CloseCurly => SpecTokenData::CloseCurly,
            TokenData::CloseParen => SpecTokenData::CloseParen,
            TokenData::Colon => SpecTokenData::Colon,
            TokenData::Fun => SpecTokenData::Fun,
            TokenData::Namespace => SpecTokenData::Namespace,
            TokenData::OpenCurly => SpecTokenData::OpenCurly,
            TokenData::OpenParen => SpecTokenData::OpenParen,
            TokenData::Return => SpecTokenData::Return,
            TokenData::RightArrow => SpecTokenData::RightArrow,
            TokenData::Semicolon => SpecTokenData::Semicolon,
            TokenData::Struct => SpecTokenData::Struct,
            TokenData::Word(s) => SpecTokenData::Word(s@),
            TokenData::Comma => SpecTokenData::Comma,
            TokenData::Assign => SpecTokenData::Assign,
            TokenData::Minus => SpecTokenData::Minus,
            TokenData::Plus => SpecTokenData::Plus,
        }
    }
}

impl Clone for TokenData {
    fn clone(&self) -> (r: Self)
        ensures
            r == *self,
    {
        match self {
            TokenData::CloseCurly => TokenData::CloseCurly,
            TokenData::CloseParen => TokenData::CloseParen,
            TokenData::Colon => TokenData::Colon,
            TokenData::Fun => TokenData::Fun,
            TokenData::Namespace => TokenData::Namespace,
            TokenData::OpenCurly => TokenData::OpenCurly,
            TokenData::OpenParen => TokenData::OpenParen,
            TokenData::Return => TokenData::Return,
            TokenData::RightArrow => TokenData::RightArrow,
            TokenData::Semicolon => TokenData::Semicolon,
            TokenData::Struct => TokenData::Struct,
            TokenData::Word(s) => TokenData::Word(s.clone()),
            TokenData::Comma => TokenData::Comma,
            TokenData::Assign => TokenData::Assign,
            TokenData::Minus => TokenData::Minus,
            TokenData::Plus => TokenData::Plus,
        }
    }
}

/// One token: what it is and where its first character stood.
#[derive(Debug, PartialEq)]
pub struct Token {
    pub data: TokenData,
    pub fpos: FilePosition,
}

/// Mathematical image of a `Token`.
pub ghost struct SpecToken {
    pub data: SpecTokenData,
    pub fpos: SpecFilePosition,
}

impl View for Token {
    type V = SpecToken;

    open spec fn view(&self) -> SpecToken {
        SpecToken { data: self.data@, fpos: self.fpos@ }
    }
}

impl Clone for Token {
    fn clone(&self) -> (r: Self)
        ensures
            r == *self,
    {
        Token { data: self.data.clone(), fpos: self.fpos.clone() }
    }
}

/// The sequence of token images behind a token vector.
pub open spec fn spec_tokens(v: Seq<Token>) -> Seq<SpecToken> {
    v.map(|i: int, t: Token| t@)
}

// ---------------------------------------------------------------------------
// Character classes (one byte decodes to one character, so only the
// ASCII classes matter)
// ---------------------------------------------------------------------------

/// The characters skipped between tokens.
pub open spec fn is_space_char(c: char) -> bool {
    c == ' ' || c == '\t' || c == '\n' || c == '\r' || c == '\u{b}' || c == '\u{c}'
}

/// The characters that may start an identifier.
pub open spec fn is_alpha_char(c: char) -> bool {
    (('a' as int) <= (c as int) && (c as int) <= ('z' as int)) || (('A' as int) <= (c as int)
        && (c as int) <= ('Z' as int))
}

/// The characters that may continue an identifier.
pub open spec fn is_word_char(c: char) -> bool {
    is_alpha_char(c) || (('0' as int) <= (c as int) && (c as int) <= ('9' as int)) || c == '_'
}

fn is_space(c: char) -> (r: bool)
    ensures
        r == is_space_char(c),
{
    c == ' ' || c == '\t' || c == '\n' || c == '\r' || c == '\u{b}' || c == '\u{c}'
}

fn is_alpha(c: char) -> (r: bool)
    ensures
        r == is_alpha_char(c),
{
    let u = c as u32;
    (('a' as u32) <= u && u <= ('z' as u32)) || (('A' as u32) <= u && u <= ('Z' as u32))
}

fn is_word(c: char) -> (r: bool)
    ensures
        r == is_word_char(c),
{
    let u = c as u32;
    is_alpha(c) || (('0' as u32) <= u && u <= ('9' as u32)) || c == '_'
}

/// The token that a lone character makes, when it makes one.
pub open spec fn spec_single_char_token(c: char) -> Option<SpecTokenData> {
    if c == '{' {
        Some(SpecTokenData::OpenCurly)
    } else if c == '}' {
        Some(SpecTokenData::CloseCurly)
    } else if c == '(' {
        Some(SpecTokenData::OpenParen)
    } else if c == ')' {
        Some(SpecTokenData::CloseParen)
    } else if c == ';' {
        Some(SpecTokenData::Semicolon)
    } else if c == '+' {
        Some(SpecTokenData::Plus)
    } else if c == '=' {
        Some(SpecTokenData::Assign)
    } else if c == ',' {
        Some(SpecTokenData::Comma)
    } else {
        None
    }
}

fn single_char_token(c: char) -> (r: Option<TokenData>)
    ensures
        match r {
            Some(t) => spec_single_char_token(c) == Some(t@),
            None => spec_single_char_token(c) is None,
        },
{
    if c == '{' {
        Some(TokenData::OpenCurly)
    } else if c == '}' {
        Some(TokenData::CloseCurly)
    } else if c == '(' {
        Some(TokenData::OpenParen)
    } else if c == ')' {
        Some(TokenData::CloseParen)
    } else if c == ';' {
        Some(TokenData::Semicolon)
    } else if c == '+' {
        Some(TokenData::Plus)
    } else if c == '=' {
        Some(TokenData::Assign)
    } else if c == ',' {
        Some(TokenData::Comma)
    } else {
        None
    }
}

/// What an identifier run classifies to: one of the three keywords, or a word.
pub open spec fn spec_word_token(w: Seq<char>) -> SpecTokenData {
    if w == "fun"@ {
        SpecTokenData::Fun
    } else if w == "struct"@ {
        SpecTokenData::Struct
    } else if w == "return"@ {
        SpecTokenData::Return
    } else {
        SpecTokenData::Word(w)
    }
}

/// Relies on `String::push`: it appends exactly the given character.
#[verifier::external_body]
fn push_char(s: &mut String, c: char)
    ensures
        final(s)@ == old(s)@.push(c),
{
    s.push(c)
}

fn classify_word(s: String) -> (r: TokenData)
    ensures
        r@ == spec_word_token(s@),
{
    if s == String::from_str("fun") {
        TokenData::Fun
    } else if s == String::from_str("struct") {
        TokenData::Struct
    } else if s == String::from_str("return") {
        TokenData::Return
    } else {
        TokenData::Word(s)
    }
}

// ---------------------------------------------------------------------------
// The tokenization of a character sequence, stated as a function
// ---------------------------------------------------------------------------

/// How many leading characters of `cs` continue an identifier.
pub open spec fn word_run_len(cs: Seq<char>) -> int
    decreases cs.len(),
{
    if cs.len() == 0 || !is_word_char(cs[0]) {
        0
    } else {
        1 + word_run_len(cs.skip(1))
    }
}

pub proof fn lemma_word_run_len(cs: Seq<char>)
    ensures
        0 <= word_run_len(cs) <= cs.len(),
        forall|k: int| 0 <= k < word_run_len(cs) ==> is_word_char(cs[k]),
        word_run_len(cs) < cs.len() ==> !is_word_char(cs[word_run_len(cs)]),
    decreases cs.len(),
{
    if cs.len() != 0 && is_word_char(cs[0]) {
        lemma_word_run_len(cs.skip(1));
        assert forall|k: int| 0 <= k < word_run_len(cs) implies is_word_char(cs[k]) by {
            if k > 0 {
                assert(cs.skip(1)[k - 1] == cs[k]);
            }
        }
        if word_run_len(cs) < cs.len() {
            assert(cs.skip(1)[word_run_len(cs) - 1] == cs[word_run_len(cs)]);
        }
    }
}

/// What tokenizing yields: the tokens produced, and the unrecognized
/// character with its position when one stopped the scan.
pub ghost struct SpecLexResult {
    pub tokens: Seq<SpecToken>,
    pub err: Option<(char, SpecFilePosition)>,
}

/// The tokenization of `cs`, starting just after a character at position `p`
/// (so the first character of `cs` stands at `spec_advance(p, cs[0])`).
/// Whitespace separates tokens; an identifier run is as long as possible;
/// `-` and `:` merge with a following `>` or `:`; every token carries the
/// position of its first character.
pub open spec fn spec_lex(cs: Seq<char>, p: SpecFilePosition) -> SpecLexResult
    decreases cs.len(),
    via spec_lex_decreases
{
    if cs.len() == 0 {
        SpecLexResult { tokens: Seq::empty(), err: None }
    } else {
        let c = cs[0];
        let p1 = spec_advance(p, c);
        if is_space_char(c) {
            spec_lex(cs.skip(1), p1)
        } else if is_alpha_char(c) {
            let n = 1 + word_run_len(cs.skip(1));
            let tok = SpecToken { data: spec_word_token(cs.take(n)), fpos: p1 };
            let after = SpecFilePosition {
                filename: p1.filename,
                line: p1.line,
                column: p1.column + n - 1,
            };
            let rest = spec_lex(cs.skip(n), after);
            SpecLexResult { tokens: seq![tok] + rest.tokens, err: rest.err }
        } else if c == '-' || c == ':' {
            let expected = if c == '-' { '>' } else { ':' };
            if cs.len() >= 2 && cs[1] == expected {
                let data = if c == '-' { SpecTokenData::RightArrow } else { SpecTokenData::Namespace };
                let tok = SpecToken { data, fpos: p1 };
                let rest = spec_lex(cs.skip(2), spec_advance(p1, cs[1]));
                SpecLexResult { tokens: seq![tok] + rest.tokens, err: rest.err }
            } else {
                let data = if c == '-' { SpecTokenData::Minus } else { SpecTokenData::Colon };
                let tok = SpecToken { data, fpos: p1 };
                let rest = spec_lex(cs.skip(1), p1);
                SpecLexResult { tokens: seq![tok] + rest.tokens, err: rest.err }
            }
        } else {
            match spec_single_char_token(c) {
                Some(data) => {
                    let tok = SpecToken { data, fpos: p1 };
                    let rest = spec_lex(cs.skip(1), p1);
                    SpecLexResult { tokens: seq![tok] + rest.tokens, err: rest.err }
                },
                None => SpecLexResult { tokens: Seq::empty(), err: Some((c, p1)) },
            }
        }
    }
}

#[via_fn]
proof fn spec_lex_decreases(cs: Seq<char>, p: SpecFilePosition) {
    if cs.len() != 0 {
        lemma_word_run_len(cs.skip(1));
    }
}

// ---------------------------------------------------------------------------
// The position-tracked source reader
// ---------------------------------------------------------------------------

/// Decodes a byte source one character at a time, keeping the position of
/// the character handed out last. Each byte decodes to one character.
pub struct FileIterator {
    pub bytes: Vec<u8>,
    pub index: usize,
    pub fpos: FilePosition,
}

impl FileIterator {
    /// The characters not yet handed out.
    pub open spec fn remaining(&self) -> Seq<char> {
        self.bytes@.skip(self.index as int).map(|i: int, b: u8| b as char)
    }

    /// The reader can advance to the end without its counters leaving usize.
    pub open spec fn wf(&self) -> bool {
        &&& self.index <= self.bytes@.len()
        &&& self.fpos@.line + (self.bytes@.len() - self.index) <= usize::MAX
        &&& self.fpos@.column + (self.bytes@.len() - self.index) <= usize::MAX
    }

    /// A reader at the start of `bytes`, at line 1, column 0.
    pub fn new(bytes: Vec<u8>, filename: String) -> (r: FileIterator)
        requires
            bytes@.len() < usize::MAX,
        ensures
            r.wf(),
            r.remaining() == bytes@.map(|i: int, b: u8| b as char),
            r.fpos@ == (SpecFilePosition { filename: filename@, line: 1, column: 0 }),
    {
        let r = FileIterator {
            bytes,
            index: 0,
            fpos: FilePosition { filename, line: 1, column: 0 },
        };
        proof {
            assert(r.bytes@.skip(0) =~= r.bytes@);
        }
        r
    }

    /// Hand out the next character, if any, and move the position past it.
    pub fn next(&mut self) -> (r: Option<char>)
        requires
            old(self).wf(),
        ensures
            final(self).wf(),
            final(self).bytes == old(self).bytes,
            old(self).remaining().len() == 0 ==> r is None && *final(self) == *old(self),
            old(self).remaining().len() > 0 ==> {
                &&& r == Some(old(self).remaining()[0])
                &&& final(self).remaining() == old(self).remaining().skip(1)
                &&& final(self).fpos@ == spec_advance(old(self).fpos@, old(self).remaining()[0])
            },
    {
        if self.index < self.bytes.len() {
            let b = self.bytes[self.index];
            self.index = self.index + 1;
            let c = b as char;
            if c == '\n' {
                self.fpos.line = self.fpos.line + 1;
                self.fpos.column = 0;
            } else {
                self.fpos.column = self.fpos.column + 1;
            }
            proof {
                assert(final(self).bytes@.skip(final(self).index as int).map(
                    |i: int, bb: u8| bb as char,
                ) =~= old(self).remaining().skip(1));
            }
            Some(c)
        } else {
            proof {
                assert(old(self).remaining().len() == 0);
            }
            None
        }
    }
}

/// The characters still to be scanned, counting a held-over current one.
pub open spec fn spec_with_cur(cur: Option<char>, rest: Seq<char>) -> Seq<char> {
    match cur {
        Some(c) => seq![c] + rest,
        None => rest,
    }
}

// ---------------------------------------------------------------------------
// The tokenizer
// ---------------------------------------------------------------------------

/// Turn the reader's characters into tokens. Every token produced before a
/// failure is returned; the second component tells whether the whole input
/// was consumed. An unrecognized character is reported once, with its
/// position, and stops the scan.
#[verifier::rlimit(100)]
pub fn lex(fiter: FileIterator, diags: &mut Diagnostics) -> (r: (Vec<Token>, bool))
    requires
        fiter.wf(),
    ensures
        ({
            let res = spec_lex(fiter.remaining(), fiter.fpos@);
            &&& spec_tokens(r.0@) == res.tokens
            &&& r.1 == (res.err is None)
            &&& match res.err {
                None => final(diags)@ == old(diags)@,
                Some(e) => final(diags)@ == old(diags)@.push(
                    spec_error(SpecDiagnosticMessage::UnrecognizedCharacter(e.0), Some(e.1)),
                ),
            }
        }),
{
    let mut it = fiter;
    let ghost cs0 = it.remaining();
    let ghost p0 = it.fpos@;
    let ghost d0 = diags@;
    let mut tokens: Vec<Token> = Vec::new();
    let ghost mut gp = it.fpos@;
    let mut cur: Option<char> = it.next();
    let mut success: bool = true;
    proof {
        assert(spec_with_cur(cur, it.remaining()) =~= cs0);
        assert(spec_tokens(tokens@) =~= Seq::<SpecToken>::empty());
    }
    loop
        invariant_except_break
            it.wf(),
            diags@ == d0,
            success,
            match cur {
                Some(c) => it.fpos@ == spec_advance(gp, c),
                None => it.remaining().len() == 0,
            },
            spec_lex(cs0, p0).tokens == spec_tokens(tokens@) + spec_lex(
                spec_with_cur(cur, it.remaining()),
                gp,
            ).tokens,
            spec_lex(cs0, p0).err == spec_lex(spec_with_cur(cur, it.remaining()), gp).err,
        ensures
            spec_lex(cs0, p0).tokens == spec_tokens(tokens@),
            success == (spec_lex(cs0, p0).err is None),
            match spec_lex(cs0, p0).err {
                None => diags@ == d0,
                Some(e) => diags@ == d0.push(
                    spec_error(SpecDiagnosticMessage::UnrecognizedCharacter(e.0), Some(e.1)),
                ),
            },
        decreases spec_with_cur(cur, it.remaining()).len(),
    {
        match cur {
            None => {
                proof {
                    assert(spec_with_cur(cur, it.remaining()) =~= Seq::<char>::empty());
                    assert(spec_tokens(tokens@) + Seq::<SpecToken>::empty() =~= spec_tokens(
                        tokens@,
                    ));
                }
                break;
            },
            Some(c) => {
                let fpos = it.fpos.clone();
                let ghost gp0 = gp;
                let ghost wc = spec_with_cur(cur, it.remaining());
                let ghost rem = it.remaining();
                let ghost p1 = it.fpos@;
                proof {
                    assert(wc[0] == c);
                    assert(wc.skip(1) =~= rem);
                    assert(p1 == spec_advance(gp0, c));
                }
                if is_space(c) {
                    proof {
                        gp = p1;
                    }
                    cur = it.next();
                    proof {
                        assert(spec_with_cur(cur, it.remaining()) =~= rem);
                        assert(spec_lex(wc, gp0) == spec_lex(rem, p1));
                    }
                } else if is_alpha(c) {
                    let ghost rest = it.remaining();
                    let mut s = String::new();
                    push_char(&mut s, c);
                    let ghost toks0 = tokens@;
                    let ghost mut j: int = 0;
                    proof {
                        lemma_word_run_len(rest);
                        assert(s@ =~= seq![c] + rest.take(0));
                    }
                    let ghost n = word_run_len(rest);
                    loop
                        invariant_except_break
                            it.wf(),
                            diags@ == d0,
                            tokens@ == toks0,
                            0 <= j <= rest.len(),
                            forall|k: int| 0 <= k < j ==> is_word_char(rest[k]),
                            n == word_run_len(rest),
                            0 <= n <= rest.len(),
                            forall|k: int| 0 <= k < n ==> is_word_char(rest[k]),
                            n < rest.len() ==> !is_word_char(rest[n]),
                            j <= n,
                            s@ == seq![c] + rest.take(j),
                            it.remaining() == rest.skip(j),
                            it.fpos@ == (SpecFilePosition {
                                filename: p1.filename,
                                line: p1.line,
                                column: p1.column + j,
                            }),
                        ensures
                            it.wf(),
                            diags@ == d0,
                            tokens@ == toks0,
                            n == word_run_len(rest),
                            s@ == seq![c] + rest.take(n),
                            spec_with_cur(cur, it.remaining()) == rest.skip(n),
                            gp == (SpecFilePosition {
                                filename: p1.filename,
                                line: p1.line,
                                column: p1.column + n,
                            }),
                            match cur {
                                Some(c2) => it.fpos@ == spec_advance(gp, c2),
                                None => it.remaining().len() == 0,
                            },
                        decreases rest.len() - j,
                    {
                        let ghost pre = it.fpos@;
                        match it.next() {
                            Some(ch) => {
                                proof {
                                    assert(rest.skip(j)[0] == rest[j]);
                                }
                                if is_word(ch) {
                                    push_char(&mut s, ch);
                                    proof {
                                        j = j + 1;
                                        assert(s@ =~= seq![c] + rest.take(j));
                                        assert(it.remaining() =~= rest.skip(j));
                                        assert(ch != '\n');
                                    }
                                } else {
                                    cur = Some(ch);
                                    proof {
                                        gp = pre;
                                        assert(!is_word_char(rest[j]));
                                        assert(n == j);
                                        assert(spec_with_cur(cur, it.remaining()) =~= rest.skip(
                                            n,
                                        ));
                                    }
                                    break;
                                }
                            },
                            None => {
                                cur = None;
                                proof {
                                    gp = it.fpos@;
                                    assert(j == rest.len());
                                    assert(n == j);
                                    assert(spec_with_cur(cur, it.remaining()) =~= rest.skip(n));
                                }
                                break;
                            },
                        }
                    }
                    let data = classify_word(s);
                    tokens.push(Token { data, fpos });
                    proof {
                        let nn = 1 + n;
                        assert(wc.skip(1) =~= rest);
                        assert(word_run_len(wc.skip(1)) == n);
                        assert(wc.take(nn) =~= seq![c] + rest.take(n));
                        assert(wc.skip(nn) =~= rest.skip(n));
                        let tok = SpecToken { data: spec_word_token(wc.take(nn)), fpos: p1 };
                        assert(spec_lex(wc, gp0).tokens =~= seq![tok] + spec_lex(
                            spec_with_cur(cur, it.remaining()),
                            gp,
                        ).tokens);
                        assert(spec_tokens(tokens@) =~= spec_tokens(toks0).push(tok));
                        assert(spec_tokens(toks0) + spec_lex(wc, gp0).tokens =~= spec_tokens(
                            tokens@,
                        ) + spec_lex(spec_with_cur(cur, it.remaining()), gp).tokens);
                    }
                } else if c == '-' || c == ':' {
                    let expected = if c == '-' {
                        '>'
                    } else {
                        ':'
                    };
                    let ghost pre = it.fpos@;
                    let ghost toks0 = tokens@;
                    match it.next() {
                        Some(ch) => {
                            proof {
                                assert(rem[0] == ch);
                                assert(wc[1] == ch);
                            }
                            if ch == expected {
                                let data = if c == '-' {
                                    TokenData::RightArrow
                                } else {
                                    TokenData::Namespace
                                };
                                tokens.push(Token { data, fpos });
                                proof {
                                    gp = it.fpos@;
                                    assert(gp == spec_advance(p1, ch));
                                }
                                cur = it.next();
                                proof {
                                    assert(spec_with_cur(cur, it.remaining()) =~= rem.skip(1));
                                    assert(wc.skip(2) =~= rem.skip(1));
                                    let tok = SpecToken {
                                        data: if c == '-' {
                                            SpecTokenData::RightArrow
                                        } else {
                                            SpecTokenData::Namespace
                                        },
                                        fpos: p1,
                                    };
                                    assert(spec_tokens(tokens@) =~= spec_tokens(toks0).push(tok));
                                    assert(spec_tokens(toks0) + spec_lex(wc, gp0).tokens
                                        =~= spec_tokens(tokens@) + spec_lex(
                                        spec_with_cur(cur, it.remaining()),
                                        gp,
                                    ).tokens);
                                }
                            } else {
                                let data = if c == '-' {
                                    TokenData::Minus
                                } else {
                                    TokenData::Colon
                                };
                                tokens.push(Token { data, fpos });
                                cur = Some(ch);
                                proof {
                                    gp = pre;
                                    assert(spec_with_cur(cur, it.remaining()) =~= rem);
                                    assert(wc.skip(1) =~= rem);
                                    let tok = SpecToken {
                                        data: if c == '-' {
                                            SpecTokenData::Minus
                                        } else {
                                            SpecTokenData::Colon
                                        },
                                        fpos: p1,
                                    };
                                    assert(spec_tokens(tokens@) =~= spec_tokens(toks0).push(tok));
                                    assert(spec_tokens(toks0) + spec_lex(wc, gp0).tokens
                                        =~= spec_tokens(tokens@) + spec_lex(
                                        spec_with_cur(cur, it.remaining()),
                                        gp,
                                    ).tokens);
                                }
                            }
                        },
                        None => {
                            let data = if c == '-' {
                                TokenData::Minus
                            } else {
                                TokenData::Colon
                            };
                            tokens.push(Token { data, fpos });
                            cur = None;
                            proof {
                                gp = pre;
                                assert(rem.len() == 0);
                                assert(wc.len() == 1);
                                assert(wc.skip(1) =~= rem);
                                let tok = SpecToken {
                                    data: if c == '-' {
                                        SpecTokenData::Minus
                                    } else {
                                        SpecTokenData::Colon
                                    },
                                    fpos: p1,
                                };
                                assert(spec_tokens(tokens@) =~= spec_tokens(toks0).push(tok));
                                assert(spec_tokens(toks0) + spec_lex(wc, gp0).tokens =~= spec_tokens(
                                    tokens@,
                                ) + spec_lex(spec_with_cur(cur, it.remaining()), gp).tokens);
                            }
                        },
                    }
                } else {
                    match single_char_token(c) {
                        Some(data) => {
                            let ghost dv = data@;
                            let ghost toks0 = tokens@;
                            tokens.push(Token { data, fpos });
                            proof {
                                gp = p1;
                            }
                            cur = it.next();
                            proof {
                                assert(spec_with_cur(cur, it.remaining()) =~= rem);
                                assert(wc.skip(1) =~= rem);
                                let tok = SpecToken { data: dv, fpos: p1 };
                                assert(spec_tokens(tokens@) =~= spec_tokens(toks0).push(tok));
                                assert(spec_tokens(toks0) + spec_lex(wc, gp0).tokens =~= spec_tokens(
                                    tokens@,
                                ) + spec_lex(spec_with_cur(cur, it.remaining()), gp).tokens);
                            }
                        },
                        None => {
                            diags.report_error(
                                DiagnosticMessage::UnrecognizedCharacter(c),
                                Some(fpos),
                            );
                            success = false;
                            proof {
                                assert(spec_lex(wc, gp0).err == Some((c, p1)));
                                assert(spec_lex(wc, gp0).tokens =~= Seq::<SpecToken>::empty());
                                assert(spec_tokens(tokens@) + Seq::<SpecToken>::empty()
                                    =~= spec_tokens(tokens@));
                            }
                            break;
                        },
                    }
                }
            },
        }
    }
    (tokens, success)
}


// ---------------------------------------------------------------------------
// Surface text
// ---------------------------------------------------------------------------

/// The canonical surface form of each token kind, as the debug dump prints
/// it.
pub open spec fn spec_surface_text(d: SpecTokenData) -> Seq<char> {
    match d {
        SpecTokenData::CloseCurly => "}"@,
        SpecTokenData::CloseParen => ")"@,
        SpecTokenData::Colon => ":"@,
        SpecTokenData::Fun => "fun"@,
        SpecTokenData::Namespace => "::"@,
        SpecTokenData::OpenCurly => "{"@,
        SpecTokenData::OpenParen => "("@,
        SpecTokenData::Return => "return"@,
        SpecTokenData::RightArrow => "->"@,
        SpecTokenData::Semicolon => ";"@,
        SpecTokenData::Struct => "struct"@,
        SpecTokenData::Word(s) => s,
        SpecTokenData::Comma => ","@,
        SpecTokenData::Assign => "="@,
        SpecTokenData::Minus => "-"@,
        SpecTokenData::Plus => "+"@,
    }
}

impl TokenData {
    /// The canonical surface text of this token.
    pub fn surface_text(&self) -> (r: String)
        ensures
            r@ == spec_surface_text(self@),
    {
        match self {
            TokenData::CloseCurly => String::from_str("}"),
            TokenData::CloseParen => String::from_str(")"),
            TokenData::Colon => String::from_str(":"),
            TokenData::Fun => String::from_str("fun"),
            TokenData::Namespace => String::from_str("::"),
            TokenData::OpenCurly => String::from_str("{"),
            TokenData::OpenParen => String::from_str("("),
            TokenData::Return => String::from_str("return"),
            TokenData::RightArrow => String::from_str("->"),
            TokenData::Semicolon => String::from_str(";"),
            TokenData::Struct => String::from_str("struct"),
            TokenData::Word(s) => s.clone(),
            TokenData::Comma => String::from_str(","),
            TokenData::Assign => String::from_str("="),
            TokenData::Minus => String::from_str("-"),
            TokenData::Plus => String::from_str("+"),
        }
    }
}

// ---------------------------------------------------------------------------
// Laws of the tokenizer
// ---------------------------------------------------------------------------

/// One position comes strictly before another: the line grew, or the line
/// is the same and the column grew.
pub open spec fn spec_pos_lt(p: SpecFilePosition, q: SpecFilePosition) -> bool {
    p.line < q.line || (p.line == q.line && p.column < q.column)
}

/// Position monotonicity: in any produced token list, each token's line is
/// at least the previous token's line; on an unchanged line the column
/// strictly grows; the column falls back only when the line has grown. All
/// tokens stand strictly after the starting position. Holds of `lex`
/// through its contract, which equates its token list with `spec_lex`'s.
pub proof fn lemma_lex_positions_monotone(cs: Seq<char>, p: SpecFilePosition)
    ensures
        forall|k: int|
            0 <= k < spec_lex(cs, p).tokens.len() ==> spec_pos_lt(
                p,
                #[trigger] spec_lex(cs, p).tokens[k].fpos,
            ),
        forall|k: int|
            0 <= k && k + 1 < spec_lex(cs, p).tokens.len() ==> spec_pos_lt(
                #[trigger] spec_lex(cs, p).tokens[k].fpos,
                spec_lex(cs, p).tokens[k + 1].fpos,
            ),
    decreases cs.len(),
{
    if cs.len() == 0 {
    } else {
        let c = cs[0];
        let p1 = spec_advance(p, c);
        assert(spec_pos_lt(p, p1));
        if is_space_char(c) {
            lemma_lex_positions_monotone(cs.skip(1), p1);
        } else if is_alpha_char(c) {
            lemma_word_run_len(cs.skip(1));
            let n = 1 + word_run_len(cs.skip(1));
            let after = SpecFilePosition {
                filename: p1.filename,
                line: p1.line,
                column: p1.column + n - 1,
            };
            lemma_lex_positions_monotone(cs.skip(n), after);
            assert(after.line == p1.line && p1.column <= after.column);
        } else if c == '-' || c == ':' {
            let expected = if c == '-' { '>' } else { ':' };
            if cs.len() >= 2 && cs[1] == expected {
                lemma_lex_positions_monotone(cs.skip(2), spec_advance(p1, cs[1]));
                assert(spec_pos_lt(p1, spec_advance(p1, cs[1])));
            } else {
                lemma_lex_positions_monotone(cs.skip(1), p1);
            }
        } else {
            match spec_single_char_token(c) {
                Some(_) => {
                    lemma_lex_positions_monotone(cs.skip(1), p1);
                },
                None => {},
            }
        }
    }
}

/// Every character of `w` continues an identifier.
pub open spec fn is_word_text(w: Seq<char>) -> bool {
    w.len() > 0 && is_alpha_char(w[0]) && (forall|i: int| 0 <= i < w.len() ==> is_word_char(w[i]))
}

pub proof fn lemma_word_run_full(cs: Seq<char>)
    requires
        forall|i: int| 0 <= i < cs.len() ==> is_word_char(cs[i]),
    ensures
        word_run_len(cs) == cs.len(),
    decreases cs.len(),
{
    if cs.len() != 0 {
        assert(is_word_char(cs[0]));
        assert(forall|i: int| 0 <= i < cs.skip(1).len() ==> cs.skip(1)[i] == cs[i + 1]);
        lemma_word_run_full(cs.skip(1));
    }
}

/// Tokenizer round trip: each token kind's canonical surface text, scanned
/// from the start of a file, yields exactly one token of that kind at line
/// 1, column 1. The one exception is a `Word` whose text is not a plain
/// non-keyword identifier. The compound kinds `->` and `::` show maximal
/// munch: each scans to one token, never to two.
pub proof fn lemma_surface_round_trip(d: SpecTokenData, filename: Seq<char>)
    requires
        d matches SpecTokenData::Word(w) ==> is_word_text(w) && w != "fun"@ && w != "struct"@ && w != "return"@,
    ensures
        ({
            let start = SpecFilePosition { filename, line: 1, column: 0 };
            let one = SpecFilePosition { filename, line: 1, column: 1 };
            let r = spec_lex(spec_surface_text(d), start);
            r.err is None && r.tokens == seq![SpecToken { data: d, fpos: one }]
        }),
{
    let start = SpecFilePosition { filename, line: 1, column: 0 };
    let one = SpecFilePosition { filename, line: 1, column: 1 };
    let text = spec_surface_text(d);
    reveal_strlit("}");
    reveal_strlit(")");
    reveal_strlit(":");
    reveal_strlit("::");
    reveal_strlit("{");
    reveal_strlit("(");
    reveal_strlit("fun");
    reveal_strlit("return");
    reveal_strlit("->");
    reveal_strlit(";");
    reveal_strlit("struct");
    reveal_strlit(",");
    reveal_strlit("=");
    reveal_strlit("-");
    reveal_strlit("+");
    match d {
        SpecTokenData::Word(w) => {
            lemma_word_run_full(w.skip(1));
            assert(w.take(1 + w.skip(1).len() as int) =~= w);
            assert(w.skip(1 + w.skip(1).len() as int).len() == 0);
            assert(spec_lex(
                w.skip(w.len() as int),
                SpecFilePosition { filename, line: 1, column: w.len() as int },
            ).tokens =~= Seq::<SpecToken>::empty());
            assert(spec_lex(text, start).tokens =~= seq![SpecToken { data: d, fpos: one }]);
        },
        SpecTokenData::Fun => {
            assert(text == "fun"@);
            assert(text.len() == 3);
            assert(forall|i: int| 0 <= i < text.skip(1).len() ==> text.skip(1)[i] == text[i + 1]);
            lemma_word_run_full(text.skip(1));
            assert(text.take(3) =~= text);
            assert(text.skip(3).len() == 0);
            assert(spec_lex(text.skip(3), SpecFilePosition { filename, line: 1, column: 3 }).tokens
                =~= Seq::<SpecToken>::empty());
            assert(spec_word_token(text) == SpecTokenData::Fun);
            assert(spec_lex(text, start).tokens =~= seq![SpecToken { data: d, fpos: one }]);
        },
        SpecTokenData::Struct => {
            assert(text == "struct"@);
            assert(text.len() == 6);
            assert(forall|i: int| 0 <= i < text.skip(1).len() ==> text.skip(1)[i] == text[i + 1]);
            lemma_word_run_full(text.skip(1));
            assert(text.take(6) =~= text);
            assert(text.skip(6).len() == 0);
            assert(spec_lex(text.skip(6), SpecFilePosition { filename, line: 1, column: 6 }).tokens
                =~= Seq::<SpecToken>::empty());
            assert(spec_word_token(text) == SpecTokenData::Struct);
            assert(spec_lex(text, start).tokens =~= seq![SpecToken { data: d, fpos: one }]);
        },
        SpecTokenData::Return => {
            assert(text == "return"@);
            assert(text.len() == 6);
            assert(forall|i: int| 0 <= i < text.skip(1).len() ==> text.skip(1)[i] == text[i + 1]);
            lemma_word_run_full(text.skip(1));
            assert(text.take(6) =~= text);
            assert(text.skip(6).len() == 0);
            assert(spec_lex(text.skip(6), SpecFilePosition { filename, line: 1, column: 6 }).tokens
                =~= Seq::<SpecToken>::empty());
            assert(spec_word_token(text) == SpecTokenData::Return);
            assert(spec_lex(text, start).tokens =~= seq![SpecToken { data: d, fpos: one }]);
        },
        SpecTokenData::Namespace => {
            assert(text.len() == 2 && text[0] == ':' && text[1] == ':');
            assert(text.skip(2).len() == 0);
            assert(spec_lex(text.skip(2), spec_advance(one, ':')).tokens
                =~= Seq::<SpecToken>::empty());
            assert(spec_lex(text, start).tokens =~= seq![SpecToken { data: d, fpos: one }]);
        },
        SpecTokenData::RightArrow => {
            assert(text.len() == 2 && text[0] == '-' && text[1] == '>');
            assert(text.skip(2).len() == 0);
            assert(spec_lex(text.skip(2), spec_advance(one, '>')).tokens
                =~= Seq::<SpecToken>::empty());
            assert(spec_lex(text, start).tokens =~= seq![SpecToken { data: d, fpos: one }]);
        },
        _ => {
            assert(text.len() == 1);
            assert(text.skip(1).len() == 0);
            assert(spec_lex(text.skip(1), one).tokens =~= Seq::<SpecToken>::empty());
            assert(spec_lex(text, start).tokens =~= seq![SpecToken { data: d, fpos: one }]);
        },
    }
}

} // verus!
