use vstd::prelude::*;
use crate::diagnostics::{DiagnosticMessage, Diagnostics, SpecDiagnosticMessage, spec_error};

verus! {

/// What the command line asks for: the file to compile, and whether to dump
/// the token list or the syntax tree.
#[derive(Debug, PartialEq)]
pub struct Arguments {
    pub filename: String,
    pub dump_tokens: bool,
    pub dump_syntax_tree: bool,
}

/// Mathematical image of `Arguments`.
pub ghost struct SpecArguments {
    pub filename: Seq<char>,
    pub dump_tokens: bool,
    pub dump_syntax_tree: bool,
}

impl View for Arguments {
    type V = SpecArguments;

    open spec fn view(&self) -> SpecArguments {
        SpecArguments {
            filename: self.filename@,
            dump_tokens: self.dump_tokens,
            dump_syntax_tree: self.dump_syntax_tree,
        }
    }
}

/// The texts of the arguments.
pub open spec fn spec_arg_views(args: Seq<String>) -> Seq<Seq<char>> {
    args.map(|i: int, s: String| s@)
}

/// The scan from argument `i` on, carrying the file name seen so far and
/// the two dump flags. A `-compiler-dump=…` argument sets its flag; any
/// other argument starting with `-` is unknown; at most one bare argument,
/// the file name, is accepted, and one must be present in the end.
pub open spec fn spec_scan_arguments(
    args: Seq<Seq<char>>,
    i: int,
    filename: Option<Seq<char>>,
    dump_tokens: bool,
    dump_syntax_tree: bool,
) -> Result<SpecArguments, SpecDiagnosticMessage>
    decreases args.len() - i,
{
    if i < 0 || i >= args.len() {
        match filename {
            Some(f) => Ok(SpecArguments { filename: f, dump_tokens, dump_syntax_tree }),
            None => Err(SpecDiagnosticMessage::MissingFileArgument),
        }
    } else {
        let a = args[i];
        if a == "-compiler-dump=tokens"@ {
            spec_scan_arguments(args, i + 1, filename, true, dump_syntax_tree)
        } else if a == "-compiler-dump=syntax"@ {
            spec_scan_arguments(args, i + 1, filename, dump_tokens, true)
        } else if a.len() > 0 && a[0] == '-' {
            Err(SpecDiagnosticMessage::UnknownOption(a))
        } else if filename is Some {
            Err(SpecDiagnosticMessage::DuplicateFileArgument)
        } else {
            spec_scan_arguments(args, i + 1, Some(a), dump_tokens, dump_syntax_tree)
        }
    }
}

/// What the whole command line yields. The first argument is the program's
/// own name and is skipped.
pub open spec fn spec_parse_arguments(args: Seq<Seq<char>>) -> Result<
    SpecArguments,
    SpecDiagnosticMessage,
> {
    spec_scan_arguments(args, 1, None, false, false)
}

/// Read the command line. On a bad or missing argument, reports one error
/// and returns nothing.
pub fn parse_arguments(args: Vec<String>, diags: &mut Diagnostics) -> (r: Option<Arguments>)
    ensures
        ({
            let sp = spec_parse_arguments(spec_arg_views(args@));
            match r {
                Some(a) => sp == Ok::<SpecArguments, SpecDiagnosticMessage>(a@) && final(diags)@
                    == old(diags)@,
                None => sp matches Err(m) && final(diags)@ == old(diags)@.push(
                    spec_error(m, None),
                ),
            }
        }),
{
    let mut filename: Option<String> = None;
    let mut dump_tokens: bool = false;
    let mut dump_syntax_tree: bool = false;
    if args.len() == 0 {
        diags.report_error(DiagnosticMessage::MissingFileArgument, None);
        return None;
    }
    let mut i: usize = 1;
    while i < args.len()
        invariant
            1 <= i <= args.len(),
            diags@ == old(diags)@,
            spec_parse_arguments(spec_arg_views(args@)) == spec_scan_arguments(
                spec_arg_views(args@),
                i as int,
                match filename {
                    Some(f) => Some(f@),
                    None => None,
                },
                dump_tokens,
                dump_syntax_tree,
            ),
        decreases args.len() - i,
    {
        let a = &args[i];
        if *a == String::from_str("-compiler-dump=tokens") {
            dump_tokens = true;
        } else if *a == String::from_str("-compiler-dump=syntax") {
            dump_syntax_tree = true;
        } else {
            let starts_with_dash = if a.as_str().is_empty() {
                false
            } else {
                a.as_str().get_char(0) == '-'
            };
            if starts_with_dash {
                diags.report_error(DiagnosticMessage::UnknownOption(a.clone()), None);
                return None;
            }
            if filename.is_some() {
                diags.report_error(DiagnosticMessage::DuplicateFileArgument, None);
                return None;
            }
            filename = Some(a.clone());
        }
        i = i + 1;
    }
    match filename {
        Some(f) => Some(Arguments { filename: f, dump_tokens, dump_syntax_tree }),
        None => {
            diags.report_error(DiagnosticMessage::MissingFileArgument, None);
            None
        },
    }
}

} // verus!
