use vstd::prelude::*;

verus! {

/// Where a character or a token stands in the source: the name of the file it
/// came from, a 1-based line, and a column that counts the characters read so
/// far on that line (so the first character of a line is at column 1).
#[derive(Debug, PartialEq)]
pub struct FilePosition {
    pub filename: String,
    pub line: usize,
    pub column: usize,
}

/// Mathematical image of a `FilePosition`.
pub ghost struct SpecFilePosition {
    pub filename: Seq<char>,
    pub line: int,
    pub column: int,
}

impl View for FilePosition {
    type V = SpecFilePosition;

    open spec fn view(&self) -> SpecFilePosition {
        SpecFilePosition {
            filename: self.filename@,
            line: self.line as int,
            column: self.column as int,
        }
    }
}

impl Clone for FilePosition {
    fn clone(&self) -> (r: Self)
        ensures
            r == *self,
    {
        FilePosition { filename: self.filename.clone(), line: self.line, column: self.column }
    }
}

/// How a position moves when one character is consumed: a newline starts the
/// next line at column 0, any other character fills one more column.
pub open spec fn spec_advance(p: SpecFilePosition, c: char) -> SpecFilePosition {
    if c == '\n' {
        SpecFilePosition { filename: p.filename, line: p.line + 1, column: 0 }
    } else {
        SpecFilePosition { filename: p.filename, line: p.line, column: p.column + 1 }
    }
}

/// The image of an optional position.
pub open spec fn spec_opt_position(o: Option<FilePosition>) -> Option<SpecFilePosition> {
    match o {
        Some(p) => Some(p@),
        None => None,
    }
}

} // verus!
