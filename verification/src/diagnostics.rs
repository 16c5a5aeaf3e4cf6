use vstd::prelude::*;
use crate::file_position::{FilePosition, SpecFilePosition, spec_opt_position};

verus! {

/// How severe a diagnostic is. Warnings do not halt processing; errors do.
#[derive(Debug, PartialEq, Eq, Structural, Clone, Copy)]
pub enum Severity {
    Error,
    Warning,
}

/// Everything the front end can report. The caller renders these to text;
/// the core only records which condition arose and what it saw.
#[derive(Debug, PartialEq)]
pub enum DiagnosticMessage {
    /// The tokenizer met a character that starts no token.
    UnrecognizedCharacter(char),
    /// A word was expected and something else stood there.
    ExpectedWord,
    /// A `::` was not followed by a word.
    ExpectedWordAfterNamespace,
    /// A declaration name was not followed by `:`.
    ExpectedColon,
    /// A function form did not begin with `fun`.
    ExpectedFun,
    /// A `fun` was not followed by `(`.
    ExpectedOpenParen,
    /// A parameter was not followed by `,` or `)`.
    ExpectedParameterSeparator,
    /// A parameter list was not followed by `->`.
    ExpectedRightArrow,
    /// A return type was not followed by `{`.
    ExpectedOpenCurly,
    /// A statement was not closed by `;`.
    ExpectedSemicolon,
    /// The tokens ran out while a production still expected input.
    UnexpectedEndOfInput,
    /// A command-line option that the program does not know.
    UnknownOption(String),
    /// A second file name on the command line.
    DuplicateFileArgument,
    /// No file name on the command line.
    MissingFileArgument,
}

/// Mathematical image of a `DiagnosticMessage`.
pub ghost enum SpecDiagnosticMessage {
    UnrecognizedCharacter(char),
    ExpectedWord,
    ExpectedWordAfterNamespace,
    ExpectedColon,
    ExpectedFun,
    ExpectedOpenParen,
    ExpectedParameterSeparator,
    ExpectedRightArrow,
    ExpectedOpenCurly,
    ExpectedSemicolon,
    UnexpectedEndOfInput,
    UnknownOption(Seq<char>),
    DuplicateFileArgument,
    MissingFileArgument,
}

impl View for DiagnosticMessage {
    type V = SpecDiagnosticMessage;

    open spec fn view(&self) -> SpecDiagnosticMessage {
        match self {
            DiagnosticMessage::UnrecognizedCharacter(c) => SpecDiagnosticMessage::UnrecognizedCharacter(*c),
            DiagnosticMessage::ExpectedWord => SpecDiagnosticMessage::ExpectedWord,
            DiagnosticMessage::ExpectedWordAfterNamespace => SpecDiagnosticMessage::ExpectedWordAfterNamespace,
            DiagnosticMessage::ExpectedColon => SpecDiagnosticMessage::ExpectedColon,
            DiagnosticMessage::ExpectedFun => SpecDiagnosticMessage::ExpectedFun,
            DiagnosticMessage::ExpectedOpenParen => SpecDiagnosticMessage::ExpectedOpenParen,
            DiagnosticMessage::ExpectedParameterSeparator => SpecDiagnosticMessage::ExpectedParameterSeparator,
            DiagnosticMessage::ExpectedRightArrow => SpecDiagnosticMessage::ExpectedRightArrow,
            DiagnosticMessage::ExpectedOpenCurly => SpecDiagnosticMessage::ExpectedOpenCurly,
            DiagnosticMessage::ExpectedSemicolon => SpecDiagnosticMessage::ExpectedSemicolon,
            DiagnosticMessage::UnexpectedEndOfInput => SpecDiagnosticMessage::UnexpectedEndOfInput,
            DiagnosticMessage::UnknownOption(s) => SpecDiagnosticMessage::UnknownOption(s@),
            DiagnosticMessage::DuplicateFileArgument => SpecDiagnosticMessage::DuplicateFileArgument,
            DiagnosticMessage::MissingFileArgument => SpecDiagnosticMessage::MissingFileArgument,
        }
    }
}

/// One recorded report: a severity, what happened, and where, when a
/// position exists to anchor it.
#[derive(Debug, PartialEq)]
pub struct Diagnostic {
    pub severity: Severity,
    pub message: DiagnosticMessage,
    pub fpos: Option<FilePosition>,
}

/// Mathematical image of a `Diagnostic`.
pub ghost struct SpecDiagnostic {
    pub severity: Severity,
    pub message: SpecDiagnosticMessage,
    pub fpos: Option<SpecFilePosition>,
}

impl View for Diagnostic {
    type V = SpecDiagnostic;

    open spec fn view(&self) -> SpecDiagnostic {
        SpecDiagnostic {
            severity: self.severity,
            message: self.message@,
            fpos: spec_opt_position(self.fpos),
        }
    }
}

/// The sink that the tokenizer and the parser report into. It only collects;
/// the caller decides how to render what was collected.
#[derive(Debug, PartialEq)]
pub struct Diagnostics {
    pub entries: Vec<Diagnostic>,
}

impl View for Diagnostics {
    type V = Seq<SpecDiagnostic>;

    open spec fn view(&self) -> Seq<SpecDiagnostic> {
        self.entries@.map(|i: int, d: Diagnostic| d@)
    }
}

/// The image of the entry that `report_error` appends.
pub open spec fn spec_error(message: SpecDiagnosticMessage, fpos: Option<SpecFilePosition>) -> SpecDiagnostic {
    SpecDiagnostic { severity: Severity::Error, message, fpos }
}

/// The image of the entry that `report_warning` appends.
pub open spec fn spec_warning(message: SpecDiagnosticMessage, fpos: Option<SpecFilePosition>) -> SpecDiagnostic {
    SpecDiagnostic { severity: Severity::Warning, message, fpos }
}

impl Diagnostics {
    /// A sink with nothing reported yet.
    pub fn new() -> (r: Diagnostics)
        ensures
            r@ == Seq::<SpecDiagnostic>::empty(),
    {
        let d = Diagnostics { entries: Vec::new() };
        proof {
            assert(d@ =~= Seq::<SpecDiagnostic>::empty());
        }
        d
    }

    /// Record an error, tied to a position when one exists.
    pub fn report_error(&mut self, message: DiagnosticMessage, fpos: Option<FilePosition>)
        ensures
            final(self)@ == old(self)@.push(spec_error(message@, spec_opt_position(fpos))),
    {
        let ghost before = self@;
        let ghost entry = spec_error(message@, spec_opt_position(fpos));
        self.entries.push(Diagnostic { severity: Severity::Error, message, fpos });
        proof {
            assert(self@ =~= before.push(entry));
        }
    }

    /// Record a warning, tied to a position when one exists.
    pub fn report_warning(&mut self, message: DiagnosticMessage, fpos: Option<FilePosition>)
        ensures
            final(self)@ == old(self)@.push(spec_warning(message@, spec_opt_position(fpos))),
    {
        let ghost before = self@;
        let ghost entry = spec_warning(message@, spec_opt_position(fpos));
        self.entries.push(Diagnostic { severity: Severity::Warning, message, fpos });
        proof {
            assert(self@ =~= before.push(entry));
        }
    }
}

} // verus!
