use oberon_compiler::cli::Cli;
use oberon_compiler::diagnostics::{Diagnostic, Severity};
use oberon_compiler::driver::{
    empty_input_finding, lex_finding, lex_source, output_or, output_path, run, scan_source,
};
use oberon_compiler::error::{severity_label, write_span_block, CompilerError, Report};
use oberon_compiler::lexer::{LexError, Token, TokenKind};
use oberon_compiler::source::SourceFile;
use oberon_compiler::span::Span;

fn cli(input: &str) -> Cli {
    Cli { input: input.to_string(), output: None, verbose: false }
}

fn load(path: &str, text: &str) -> SourceFile {
    SourceFile::load(path, text.as_bytes().to_vec()).unwrap()
}

fn finding(severity: Severity, message: &str, span: Option<Span>, note: Option<&str>) -> Diagnostic {
    Diagnostic { severity, message: message.to_string(), span, note: note.map(|n| n.to_string()) }
}

#[test]
fn severity_labels() {
    assert_eq!(severity_label(Severity::Error), "error");
    assert_eq!(severity_label(Severity::Warning), "warning");
    assert_eq!(severity_label(Severity::Note), "note");
}

#[test]
fn fatal_report_is_one_line() {
    let io = std::io::Error::new(std::io::ErrorKind::NotFound, "gone");
    let e = CompilerError::Io { path: "no_such_file.Mod".to_string(), source: io };
    assert_eq!(e.message(), "I/O error reading/writing file: no_such_file.Mod");
    assert_eq!(Report::from(e).render(), "error: I/O error reading/writing file: no_such_file.Mod\n");

    let e = SourceFile::load("Bad.Mod", vec![0xFF, 0xFE, 0xFF]).unwrap_err();
    let report: Report = e.into();
    assert_eq!(report.render(), "error: Source file is not valid UTF-8: Bad.Mod\n");
}

#[test]
fn report_without_findings_is_empty() {
    assert_eq!(Report::new(load("a.Mod", "x"), vec![]).render(), "");
}

#[test]
fn empty_input_gives_the_empty_file_report() {
    let report = run(&cli("Empty.Mod"), vec![]).unwrap_err();
    match &report {
        Report::Diagnostics { source, diagnostics } => {
            assert_eq!(diagnostics.len(), 1);
            assert_eq!(diagnostics[0].severity, Severity::Error);
            assert_eq!(diagnostics[0].message, "Input file is empty.");
            assert_eq!(diagnostics[0].span, Some(Span::new(0, 0)));
            assert_eq!(diagnostics[0].span, Some(source.span_whole()));
            assert_eq!(
                diagnostics[0].note.as_deref(),
                Some("Provide an Oberon module and try again.")
            );
        }
        Report::Fatal(e) => panic!("expected findings, got {:?}", e),
    }
    assert_eq!(
        report.render(),
        "error: Input file is empty.\n  --> Empty.Mod:1:1\n   |\n  1 | \n   | ^\nnote: Provide an Oberon module and try again.\n\n"
    );
}

#[test]
fn whitespace_only_input_counts_as_empty() {
    for text in [" ", "\n\n", " \t\r\n", "\u{a0}\u{2003}", "\u{b}"] {
        let report = run(&cli("Blank.Mod"), text.as_bytes().to_vec()).unwrap_err();
        match report {
            Report::Diagnostics { diagnostics, .. } => {
                assert_eq!(diagnostics.len(), 1);
                assert_eq!(diagnostics[0].message, "Input file is empty.");
                assert_eq!(diagnostics[0].span, Some(Span::new(0, text.len())));
            }
            Report::Fatal(e) => panic!("expected findings, got {:?}", e),
        }
    }
}

#[test]
fn run_hands_back_the_tokens() {
    let tokens = run(&cli("Hello.Mod"), b"IF a<=10\r\nIF b<2".to_vec()).unwrap();
    assert_eq!(tokens.len(), 9);
    assert_eq!(tokens[3], Token { kind: TokenKind::Number(10), span: Span::new(6, 8) });
    assert_eq!(tokens[8], Token { kind: TokenKind::Eof, span: Span::new(16, 16) });
    let tokens = run(&cli("One.Mod"), b" x ".to_vec()).unwrap();
    assert_eq!(
        tokens,
        vec![
            Token { kind: TokenKind::Identifier("x".to_string()), span: Span::new(1, 2) },
            Token { kind: TokenKind::Eof, span: Span::new(3, 3) },
        ]
    );
}

#[test]
fn run_reports_bytes_that_are_not_utf8() {
    let report = run(&cli("Bad.Mod"), vec![0xFF, 0xFE, 0xFF]).unwrap_err();
    assert!(matches!(report, Report::Fatal(CompilerError::Encoding { .. })));
    assert_eq!(report.render(), "error: Source file is not valid UTF-8: Bad.Mod\n");
}

#[test]
fn run_reports_the_first_lexical_error() {
    let report = run(&cli("x.Mod"), b"IF a @ b".to_vec()).unwrap_err();
    assert_eq!(
        report.render(),
        "error: Unexpected character: '@'\n  --> x.Mod:1:6\n   |\n  1 | IF a @ b\n   |      ^\n\n"
    );
    let report = run(&cli("Hello.Mod"), b"MODULE Hello; END Hello.\n".to_vec()).unwrap_err();
    assert_eq!(
        report.render(),
        "error: Unexpected character: ';'\n  --> Hello.Mod:1:13\n   |\n  1 | MODULE Hello; END Hello.\n   |             ^\n\n"
    );
    let report = run(&cli("n.Mod"), b"a\r\nb 99999999999999999999\r\n".to_vec()).unwrap_err();
    assert_eq!(
        report.render(),
        "error: Invalid integer literal: number too large to fit in target type\n  --> n.Mod:2:3\n   |\n  2 | b 99999999999999999999\r\n   |   ^\n\n"
    );
}

#[test]
fn scan_source_takes_the_blank_mark_as_given() {
    let report = scan_source(load("a.Mod", "x"), true).unwrap_err();
    match report {
        Report::Diagnostics { source, diagnostics } => {
            assert_eq!(source.text, "x");
            assert_eq!(diagnostics.len(), 1);
            assert_eq!(diagnostics[0].message, "Input file is empty.");
            assert_eq!(diagnostics[0].span, Some(Span::new(0, 1)));
        }
        Report::Fatal(e) => panic!("expected findings, got {:?}", e),
    }
    let tokens = scan_source(load("a.Mod", "  "), false).unwrap();
    assert_eq!(tokens, vec![Token { kind: TokenKind::Eof, span: Span::new(2, 2) }]);
}

#[test]
fn findings_are_built_from_their_parts() {
    let d = lex_finding(LexError { message: "m".to_string(), span: Span::new(2, 5) });
    assert_eq!(d.severity, Severity::Error);
    assert_eq!(d.message, "m");
    assert_eq!(d.span, Some(Span::new(2, 5)));
    assert_eq!(d.note, None);
    let d = empty_input_finding(Span::new(0, 7));
    assert_eq!(d.severity, Severity::Error);
    assert_eq!(d.message, "Input file is empty.");
    assert_eq!(d.span, Some(Span::new(0, 7)));
    assert_eq!(d.note.as_deref(), Some("Provide an Oberon module and try again."));
}

#[test]
fn findings_are_rendered_in_the_order_given() {
    let src = load("m.Mod", "first\nsecond line\nthird");
    let report = Report::new(
        src,
        vec![
            finding(Severity::Warning, "late", Some(Span::new(13, 17)), Some("look again")),
            finding(Severity::Note, "nowhere", None, None),
            finding(Severity::Error, "early", Some(Span::new(0, 5)), None),
            finding(Severity::Error, "hint only", None, Some("a hint")),
            finding(Severity::Error, "last line", Some(Span::new(22, 23)), None),
        ],
    );
    let expected = "\
warning: late
  --> m.Mod:2:8
   |
  2 | second line
   |        ^
note: look again

note: nowhere

error: early
  --> m.Mod:1:1
   |
  1 | first
   | ^

error: hint only
note: a hint

error: last line
  --> m.Mod:3:5
   |
  3 | third
   |     ^

";
    assert_eq!(report.render(), expected);
}

#[test]
fn span_block_is_appended() {
    let src = load("dir/a.Mod", "IF\r\nA");
    let mut out = String::from("head\n");
    write_span_block(&mut out, &src, Span::new(4, 5));
    assert_eq!(out, "head\n  --> dir/a.Mod:2:1\n   |\n  2 | A\n   | ^\n");
    let mut out = String::new();
    write_span_block(&mut out, &src, Span::new(1, 2));
    assert_eq!(out, "  --> dir/a.Mod:1:2\n   |\n  1 | IF\r\n   |  ^\n");
}

#[test]
fn span_behind_the_end_points_behind_the_last_line() {
    let src = load("a.Mod", "ab\ncd");
    let mut out = String::new();
    write_span_block(&mut out, &src, Span::new(9, 9));
    assert_eq!(out, "  --> a.Mod:2:7\n   |\n  2 | cd\n   |       ^\n");
}

#[test]
fn line_numbers_wider_than_the_gutter() {
    let mut text = "x\n".repeat(999);
    text.push_str("target\n");
    let src = load("big.Mod", &text);
    let report = Report::new(src, vec![finding(Severity::Error, "deep", Some(Span::new(1998 + 3, 1998 + 4)), None)]);
    assert_eq!(
        report.render(),
        "error: deep\n  --> big.Mod:1000:4\n   |\n1000 | target\n   |    ^\n\n"
    );
    let src = load("big.Mod", &text);
    let report = Report::new(src, vec![finding(Severity::Error, "mid", Some(Span::new(2 * 41, 2 * 41 + 1)), None)]);
    assert_eq!(report.render(), "error: mid\n  --> big.Mod:42:1\n   |\n 42 | x\n   | ^\n\n");
}

#[test]
fn lex_source_trims_before_it_scans() {
    let report = lex_source(load("a.Mod", " \u{2003}\n")).unwrap_err();
    assert_eq!(
        report.render(),
        "error: Input file is empty.\n  --> a.Mod:1:1\n   |\n  1 |  \u{2003}\n   | ^\nnote: Provide an Oberon module and try again.\n\n"
    );
    let tokens = lex_source(load("a.Mod", " <\n")).unwrap();
    assert_eq!(tokens.len(), 2);
    assert_eq!(tokens[0], Token { kind: TokenKind::Less, span: Span::new(1, 2) });
}

#[test]
fn output_path_defaults_to_the_input_with_bin() {
    assert_eq!(output_path(&cli("Hello.Mod")), "Hello.bin");
    assert_eq!(output_path(&cli("dir/Hello.Mod")), "dir/Hello.bin");
    assert_eq!(output_path(&cli("dir.d/Hello")), "dir.d/Hello.bin");
    assert_eq!(output_path(&cli("a.tar.gz")), "a.tar.bin");
}

#[test]
fn output_path_that_was_asked_for_wins() {
    let asked = Cli {
        input: "Hello.Mod".to_string(),
        output: Some("custom_output.bin".to_string()),
        verbose: true,
    };
    assert_eq!(output_path(&asked), "custom_output.bin");
    assert_eq!(output_or(&asked, "other".to_string()), "custom_output.bin");
    assert_eq!(output_or(&cli("Hello.Mod"), "other".to_string()), "other");
}
