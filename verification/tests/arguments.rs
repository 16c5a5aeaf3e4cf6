use frontend::arguments::parse_arguments;
use frontend::diagnostics::{DiagnosticMessage, Diagnostics, Severity};

fn args(list: &[&str]) -> Vec<String> {
    list.iter().map(|s| String::from(*s)).collect()
}

#[test]
fn plain_filename() {
    let mut diags = Diagnostics::new();
    let a = parse_arguments(args(&["compiler", "file.x"]), &mut diags).expect("accepted");
    assert_eq!(a.filename, "file.x");
    assert!(!a.dump_tokens);
    assert!(!a.dump_syntax_tree);
    assert!(diags.entries.is_empty());
}

#[test]
fn dump_tokens_flag() {
    let mut diags = Diagnostics::new();
    let a = parse_arguments(args(&["compiler", "-compiler-dump=tokens", "f"]), &mut diags)
        .expect("accepted");
    assert!(a.dump_tokens);
    assert!(!a.dump_syntax_tree);
    assert_eq!(a.filename, "f");
}

#[test]
fn dump_syntax_flag_after_filename() {
    let mut diags = Diagnostics::new();
    let a = parse_arguments(args(&["compiler", "f", "-compiler-dump=syntax"]), &mut diags)
        .expect("accepted");
    assert!(!a.dump_tokens);
    assert!(a.dump_syntax_tree);
    assert_eq!(a.filename, "f");
}

#[test]
fn both_flags() {
    let mut diags = Diagnostics::new();
    let a = parse_arguments(
        args(&["compiler", "-compiler-dump=tokens", "-compiler-dump=syntax", "f"]),
        &mut diags,
    )
    .expect("accepted");
    assert!(a.dump_tokens);
    assert!(a.dump_syntax_tree);
}

#[test]
fn unknown_option_is_rejected() {
    let mut diags = Diagnostics::new();
    assert!(parse_arguments(args(&["compiler", "-x", "f"]), &mut diags).is_none());
    assert_eq!(diags.entries.len(), 1);
    assert_eq!(diags.entries[0].severity, Severity::Error);
    assert_eq!(
        diags.entries[0].message,
        DiagnosticMessage::UnknownOption(String::from("-x"))
    );
    assert!(diags.entries[0].fpos.is_none());
}

#[test]
fn second_filename_is_rejected() {
    let mut diags = Diagnostics::new();
    assert!(parse_arguments(args(&["compiler", "a", "b"]), &mut diags).is_none());
    assert_eq!(
        diags.entries[0].message,
        DiagnosticMessage::DuplicateFileArgument
    );
}

#[test]
fn missing_filename_is_rejected() {
    let mut diags = Diagnostics::new();
    assert!(parse_arguments(args(&["compiler"]), &mut diags).is_none());
    assert_eq!(
        diags.entries[0].message,
        DiagnosticMessage::MissingFileArgument
    );
}

#[test]
fn empty_command_line_is_rejected() {
    let mut diags = Diagnostics::new();
    assert!(parse_arguments(Vec::new(), &mut diags).is_none());
    assert_eq!(
        diags.entries[0].message,
        DiagnosticMessage::MissingFileArgument
    );
}

#[test]
fn diagnostics_collect_in_order() {
    let mut diags = Diagnostics::new();
    diags.report_warning(DiagnosticMessage::ExpectedWord, None);
    diags.report_error(DiagnosticMessage::UnexpectedEndOfInput, None);
    assert_eq!(diags.entries.len(), 2);
    assert_eq!(diags.entries[0].severity, Severity::Warning);
    assert_eq!(diags.entries[1].severity, Severity::Error);
}
