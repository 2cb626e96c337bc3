use vstd::prelude::*;
use vstd::string::*;
use vstd::utf8::*;
use crate::cli::Cli;
use crate::diagnostics::{Diagnostic, Severity};
use crate::error::{CompilerError, Report};
use crate::grammar::{
    goes_on, lemma_scan_bounds, lemma_scans_end_once, lemma_scans_ordered, lemma_scans_spans, scan,
    scans, Fault, Lexeme, Scan,
};
use crate::lexer::{agrees, fault_message, span_of, LexError, Lexer, State, Token, TokenKind};
use crate::source::SourceFile;
use crate::span::Span;

verus! {

/// The text that `str::trim` leaves of a text.
pub uninterp spec fn trimmed_text(text: Seq<char>) -> Seq<char>;

/// `str::trim` cuts whitespace, as Unicode defines it, from both ends of a text. The
/// contract gives what is left a name, and says of it only that it is no longer than the
/// text.
pub assume_specification[ str::trim ](text: &str) -> (rest: &str)
    ensures
        rest@ == trimmed_text(text@),
        rest@.len() <= text@.len(),
;

/// The tokens agree, one by one, with the scans.
pub open spec fn tokens_agree(tokens: Seq<Token>, scans: Seq<Scan>) -> bool {
    &&& tokens.len() == scans.len()
    &&& forall|i: int|
        0 <= i < tokens.len() ==> agrees(Ok::<Token, LexError>(#[trigger] tokens[i]), scans[i])
}

/// The result of a full pass over a text: where the pass meets no fault, all its tokens,
/// the end marker being the last; else the error that reports the fault.
pub open spec fn pass_agrees(r: Result<Vec<Token>, LexError>, bytes: Seq<u8>) -> bool {
    match r {
        Ok(tokens) => tokens_agree(tokens@, scans(bytes, 0)),
        Err(e) => scans(bytes, 0).last().outcome is Err && agrees(
            Err::<Token, LexError>(e),
            scans(bytes, 0).last(),
        ),
    }
}

/// Scans a whole text: token after token up to the end marker, which is the last token
/// handed back, or up to the first fault, which is handed back alone.
pub fn tokenize(input: &str) -> (r: Result<Vec<Token>, LexError>)
    ensures
        pass_agrees(r, input.spec_bytes()),
{
    let mut lexer = Lexer::new(input);
    let mut tokens: Vec<Token> = Vec::new();
    let ghost bytes = input.spec_bytes();
    let ghost mut done: Seq<Scan> = Seq::empty();
    proof {
        assert(scans(bytes, 0) =~= done + scans(bytes, 0));
    }
    loop
        invariant
            lexer@.wf(),
            lexer@.state == State::Start,
            lexer@.bytes == bytes,
            bytes == input.spec_bytes(),
            scans(bytes, 0) == done + scans(bytes, lexer@.pos),
            tokens_agree(tokens@, done),
        decreases bytes.len() - lexer@.pos,
    {
        let ghost pos = lexer@.pos;
        let ghost next = scan(bytes, pos);
        proof {
            lemma_scan_bounds(bytes, pos);
            lemma_scans_end_once(bytes, pos);
        }
        match lexer.next_token() {
            Ok(token) => {
                let at_end = match token.kind {
                    TokenKind::Eof => true,
                    _ => false,
                };
                tokens.push(token);
                proof {
                    if at_end {
                        assert(scans(bytes, pos) == seq![next]);
                        assert(scans(bytes, 0) == done + seq![next]);
                    } else {
                        assert(goes_on(next));
                        assert(scans(bytes, pos) == seq![next] + scans(bytes, next.end));
                        assert(scans(bytes, 0) =~= (done + seq![next]) + scans(bytes, next.end));
                    }
                    done = done + seq![next];
                }
                if at_end {
                    return Ok(tokens);
                }
            },
            Err(e) => {
                proof {
                    assert(scans(bytes, pos) == seq![next]);
                    assert(scans(bytes, 0).last() == next);
                }
                return Err(e);
            },
        }
    }
}

/// The tokens of a full pass that meets no fault: the last one is the end marker, over the
/// empty span at the end of the text, and no other token is the end marker; every other
/// token covers at least one byte of the text; and the tokens follow one another without
/// overlap, each ending at or before the byte at which any later one begins.
pub proof fn lemma_token_stream(tokens: Seq<Token>, bytes: Seq<u8>)
    requires
        valid_utf8(bytes),
        bytes.len() <= usize::MAX,
        tokens_agree(tokens, scans(bytes, 0)),
    ensures
        tokens.len() >= 1,
        tokens.last().kind@ == Lexeme::Eof,
        tokens.last().span == (Span { start: bytes.len() as usize, end: bytes.len() as usize }),
        forall|i: int| 0 <= i < tokens.len() - 1 ==> (#[trigger] tokens[i]).kind@ != Lexeme::Eof,
        forall|i: int|
            0 <= i < tokens.len() - 1 ==> (#[trigger] tokens[i]).span.start < tokens[i].span.end
                <= bytes.len(),
        forall|i: int, j: int|
            0 <= i < j < tokens.len() ==> (#[trigger] tokens[i]).span.end <= (
            #[trigger] tokens[j]).span.start,
{
    let all = scans(bytes, 0);
    is_char_boundary_start_end_of_seq(bytes);
    lemma_scans_end_once(bytes, 0);
    lemma_scans_spans(bytes, 0);
    lemma_scans_ordered(bytes, 0);
    assert forall|i: int| 0 <= i < tokens.len() implies (#[trigger] tokens[i]).span == span_of(
        all[i],
    ) && all[i].outcome == Ok::<Lexeme, Fault>(tokens[i].kind@) && 0 <= all[i].start
        <= all[i].end <= bytes.len() by {
        assert(agrees(Ok::<Token, LexError>(tokens[i]), all[i]));
    }
    assert(tokens.last() == tokens[tokens.len() - 1]);
    assert(all.last() == all[all.len() - 1]);
    assert forall|i: int, j: int| 0 <= i < j < tokens.len() implies (#[trigger] tokens[i]).span.end
        <= (#[trigger] tokens[j]).span.start by {
        assert(all[i].end <= all[j].start);
    }
}

/// The finding that reports a file with nothing in it but whitespace.
pub open spec fn is_empty_input_finding(d: Diagnostic, whole: Span) -> bool {
    &&& d.severity == Severity::Error
    &&& d.message@ == "Input file is empty."@
    &&& d.span == Some(whole)
    &&& d.note matches Some(note) && note@ == "Provide an Oberon module and try again."@
}

/// The finding that reports an error of the scanner: its message, at its span.
pub open spec fn is_lex_finding(d: Diagnostic, message: Seq<char>, span: Span) -> bool {
    &&& d.severity == Severity::Error
    &&& d.message@ == message
    &&& d.span == Some(span)
    &&& d.note is None
}

/// The result of work on a loaded text. A text that is marked blank is reported as empty,
/// at the span of the whole text, and not scanned. Any other text is scanned in full: its
/// tokens are handed back, or the report of the first fault, which holds the text and one
/// finding.
pub open spec fn outcome_agrees(
    r: Result<Vec<Token>, Report>,
    source: SourceFile,
    blank: bool,
) -> bool {
    match r {
        Ok(tokens) => !blank && tokens_agree(tokens@, scans(source.bytes(), 0)),
        Err(Report::Diagnostics { source: reported, diagnostics }) => {
            &&& reported == source
            &&& diagnostics@.len() == 1
            &&& if blank {
                is_empty_input_finding(
                    diagnostics@[0],
                    Span { start: 0, end: source.bytes().len() as usize },
                )
            } else {
                let last = scans(source.bytes(), 0).last();
                &&& last.outcome matches Err(fault)
                &&& is_lex_finding(
                    diagnostics@[0],
                    fault_message(fault),
                    span_of(last),
                )
            }
        },
        Err(Report::Fatal(_)) => false,
    }
}

/// Turns an error of the scanner into a finding.
pub fn lex_finding(e: LexError) -> (d: Diagnostic)
    ensures
        is_lex_finding(d, e.message@, e.span),
{
    Diagnostic { severity: Severity::Error, message: e.message, span: Some(e.span), note: None }
}

/// The finding about a file with nothing in it but whitespace.
pub fn empty_input_finding(whole: Span) -> (d: Diagnostic)
    ensures
        is_empty_input_finding(d, whole),
{
    Diagnostic {
        severity: Severity::Error,
        message: String::from_str("Input file is empty."),
        span: Some(whole),
        note: Some(String::from_str("Provide an Oberon module and try again.")),
    }
}

/// Works on a loaded text, given whether trimming leaves nothing of it.
pub fn scan_source(source: SourceFile, blank: bool) -> (r: Result<Vec<Token>, Report>)
    requires
        source.wf(),
    ensures
        outcome_agrees(r, source, blank),
        r matches Err(report) ==> report.wf(),
{
    if blank {
        let finding = empty_input_finding(source.span_whole());
        let mut findings: Vec<Diagnostic> = Vec::new();
        findings.push(finding);
        return Err(Report::new(source, findings));
    }
    let scanned = tokenize(source.text.as_str());
    match scanned {
        Ok(tokens) => Ok(tokens),
        Err(e) => {
            let length = source.text.as_str().as_bytes().len();
            proof {
                let bytes = source.bytes();
                encode_utf8_valid_utf8(source.text@);
                is_char_boundary_start_end_of_seq(bytes);
                lemma_scans_spans(bytes, 0);
                let last = scans(bytes, 0).last();
                assert(last == scans(bytes, 0)[scans(bytes, 0).len() - 1]);
                assert(last.start <= last.end <= length);
            }
            let finding = lex_finding(e);
            let mut findings: Vec<Diagnostic> = Vec::new();
            findings.push(finding);
            Err(Report::new(source, findings))
        },
    }
}

/// Works on a loaded text: a text of which trimming leaves nothing is reported as empty,
/// any other text is scanned in full.
pub fn lex_source(source: SourceFile) -> (r: Result<Vec<Token>, Report>)
    requires
        source.wf(),
    ensures
        outcome_agrees(r, source, trimmed_text(source.text@).len() == 0),
        r matches Err(report) ==> report.wf(),
{
    let blank = source.text.as_str().trim().is_empty();
    scan_source(source, blank)
}

/// The result of work on the bytes of a file. Bytes that are not well-formed UTF-8 give a
/// fatal report that names the file. Else the text is indexed under the path, and worked on
/// as `scan_source` does, blank being a text of which trimming leaves nothing.
pub open spec fn run_agrees(
    r: Result<Vec<Token>, Report>,
    path: Seq<char>,
    bytes: Seq<u8>,
) -> bool {
    if valid_utf8(bytes) {
        match r {
            Ok(tokens) => trimmed_text(decode_utf8(bytes)).len() != 0 && tokens_agree(
                tokens@,
                scans(bytes, 0),
            ),
            Err(Report::Diagnostics { source, diagnostics }) => {
                &&& source.wf()
                &&& source.path@ == path
                &&& source.bytes() == bytes
                &&& outcome_agrees(r, source, trimmed_text(decode_utf8(bytes)).len() == 0)
            },
            Err(Report::Fatal(_)) => false,
        }
    } else {
        r matches Err(Report::Fatal(CompilerError::Encoding { path: refused, .. })) && refused@
            == path
    }
}

/// Loads the bytes of the input file and scans the text. The tokens are handed back, the
/// end marker last; what goes wrong is handed back as a report.
pub fn run(cli: &Cli, bytes: Vec<u8>) -> (r: Result<Vec<Token>, Report>)
    ensures
        run_agrees(r, cli.input@, bytes@),
        r matches Err(report) ==> report.wf(),
{
    match SourceFile::load(cli.input.as_str(), bytes) {
        Ok(source) => lex_source(source),
        Err(e) => Err(Report::from(e)),
    }
}

/// The path of the input with `bin` for its extension, as `PathBuf::set_extension` puts
/// it there. Nothing is claimed of the result: where the name of a file ends and its
/// extension begins is for the platform to say.
#[verifier::external_body]
fn default_output_path(input: &str) -> (output: String) {
    let mut p = std::path::PathBuf::from(input);
    p.set_extension("bin");
    p.display().to_string()
}

/// The path to write to, given the path to fall back on: the one that was asked for, if
/// one was.
pub fn output_or(cli: &Cli, fallback: String) -> (output: String)
    ensures
        output@ == match cli.output {
            Some(asked) => asked@,
            None => fallback@,
        },
{
    match &cli.output {
        Some(asked) => asked.clone(),
        None => fallback,
    }
}

/// The path to write to: the one that was asked for or, where none was, the path of the
/// input with `bin` for its extension.
pub fn output_path(cli: &Cli) -> (output: String)
    ensures
        cli.output matches Some(asked) ==> output@ == asked@,
{
    match &cli.output {
        Some(asked) => asked.clone(),
        None => output_or(cli, default_output_path(cli.input.as_str())),
    }
}

} // verus!
