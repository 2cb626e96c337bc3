use vstd::prelude::*;
use vstd::string::*;
use vstd::utf8::*;
use std::io::Error;
use std::string::FromUtf8Error;
use crate::diagnostics::{Diagnostic, Severity};
use crate::encoding::lemma_boundary_after_ascii;
use crate::format::{
    decimal, decimal_text, push_right_aligned, push_spaces, right_aligned, spaces,
};
use crate::source::SourceFile;
use crate::span::Span;

verus! {

/// The error of an operation on a file. Nothing is read from it.
#[verifier::external_type_specification]
#[verifier::external_body]
pub struct ExIoError(Error);

/// The errors that end work on a file before any of its text is looked at.
#[derive(Debug)]
pub enum CompilerError {
    Io { path: String, source: Error },
    Encoding { path: String, source: FromUtf8Error },
}

impl CompilerError {
    /// What the error says: what went wrong, and the path of the file.
    pub open spec fn message_text(&self) -> Seq<char> {
        match self {
            CompilerError::Io { path, .. } => "I/O error reading/writing file: "@ + path@,
            CompilerError::Encoding { path, .. } => "Source file is not valid UTF-8: "@ + path@,
        }
    }

    /// What the error says, as text.
    pub fn message(&self) -> (text: String)
        ensures
            text@ == self.message_text(),
    {
        match self {
            CompilerError::Io { path, .. } => {
                let mut text = String::from_str("I/O error reading/writing file: ");
                text.append(path.as_str());
                text
            },
            CompilerError::Encoding { path, .. } => {
                let mut text = String::from_str("Source file is not valid UTF-8: ");
                text.append(path.as_str());
                text
            },
        }
    }
}

/// The word that opens the line of a finding.
pub open spec fn label_text(s: Severity) -> Seq<char> {
    match s {
        Severity::Error => "error"@,
        Severity::Warning => "warning"@,
        Severity::Note => "note"@,
    }
}

/// A line of a text without the line feed that ends it.
pub open spec fn without_line_feed(line: Seq<u8>) -> Seq<u8> {
    if line.len() > 0 && line.last() == 0x0a {
        line.drop_last()
    } else {
        line
    }
}

/// The line that names a place: the path, the line and the column.
pub open spec fn locator_text(path: Seq<char>, line: nat, col: nat) -> Seq<char> {
    "  --> "@ + path + ":"@ + decimal_text(line) + ":"@ + decimal_text(col) + "\n"@
}

/// The line that shows a line of the text behind its number.
pub open spec fn source_line_text(line: nat, shown: Seq<char>) -> Seq<char> {
    right_aligned(decimal_text(line), 3) + " | "@ + shown + "\n"@
}

/// The line that holds a caret under a column.
pub open spec fn caret_text(col: nat) -> Seq<char> {
    "   | "@ + spaces(col - 1) + "^\n"@
}

/// The four lines that show where a span begins: the place as path, line and column; an
/// empty gutter; the line of the text behind its number; and a caret under the column.
pub open spec fn span_block_text(src: &SourceFile, span: Span) -> Seq<char> {
    let line = src.line_of(span.start as int);
    let col = span.start - src.starts()[line - 1] + 1;
    locator_text(src.path@, line as nat, col as nat) + "   |\n"@ + source_line_text(
        line as nat,
        decode_utf8(without_line_feed(src.line_bytes(line))),
    ) + caret_text(col as nat)
}

/// The line that opens a finding: its kind and what it says.
pub open spec fn headline_text(d: &Diagnostic) -> Seq<char> {
    label_text(d.severity) + ": "@ + d.message@ + "\n"@
}

/// The line that gives a hint.
pub open spec fn note_text(note: Seq<char>) -> Seq<char> {
    "note: "@ + note + "\n"@
}

/// The lines of one finding, closed by an empty line.
pub open spec fn diagnostic_text(src: &SourceFile, d: &Diagnostic) -> Seq<char> {
    headline_text(d) + (match d.span {
        Some(span) => span_block_text(src, span),
        None => Seq::<char>::empty(),
    }) + (match d.note {
        Some(note) => note_text(note@),
        None => Seq::<char>::empty(),
    }) + "\n"@
}

/// The lines of the first `n` findings, in the order in which they were collected.
pub open spec fn diagnostics_text(src: &SourceFile, ds: Seq<Diagnostic>, n: int) -> Seq<char>
    decreases n,
{
    if n <= 0 {
        Seq::<char>::empty()
    } else {
        diagnostics_text(src, ds, n - 1) + diagnostic_text(src, &ds[n - 1])
    }
}

/// The word that opens the line of a finding.
pub fn severity_label(s: Severity) -> (label: &'static str)
    ensures
        label@ == label_text(s),
{
    match s {
        Severity::Error => "error",
        Severity::Warning => "warning",
        Severity::Note => "note",
    }
}

fn locator_line(path: &str, line: usize, col: usize) -> (out: String)
    ensures
        out@ == locator_text(path@, line as nat, col as nat),
{
    let mut out = String::from_str("  --> ");
    out.append(path);
    out.append(":");
    out.append(decimal(line).as_str());
    out.append(":");
    out.append(decimal(col).as_str());
    out.append("\n");
    out
}

fn source_line(line: usize, shown: &str) -> (out: String)
    ensures
        out@ == source_line_text(line as nat, shown@),
{
    let mut out = String::new();
    push_right_aligned(&mut out, decimal(line).as_str(), 3);
    assert(out@ =~= right_aligned(decimal_text(line as nat), 3));
    out.append(" | ");
    out.append(shown);
    out.append("\n");
    out
}

fn caret_line(col: usize) -> (out: String)
    requires
        col >= 1,
    ensures
        out@ == caret_text(col as nat),
{
    let mut out = String::from_str("   | ");
    push_spaces(&mut out, col - 1);
    out.append("^\n");
    out
}

/// A line of the text without the line feed that ends it.
fn strip_line_feed(line: &str) -> (shown: &str)
    ensures
        shown@ == decode_utf8(without_line_feed(line.spec_bytes())),
{
    let bytes = line.as_bytes();
    proof {
        encode_utf8_valid_utf8(line@);
        encode_utf8_decode_utf8(line@);
    }
    if bytes.len() > 0 && bytes[bytes.len() - 1] == 0x0a {
        proof {
            lemma_boundary_after_ascii(bytes@, bytes@.len() - 1);
        }
        let (head, _) = line.split_at(bytes.len() - 1);
        proof {
            assert(head.spec_bytes() =~= without_line_feed(line.spec_bytes()));
            encode_utf8_decode_utf8(head@);
        }
        head
    } else {
        line
    }
}

/// Appends to `out` the lines that show where a span begins.
pub fn write_span_block(out: &mut String, src: &SourceFile, span: Span)
    requires
        src.wf(),
        span.start < usize::MAX,
    ensures
        final(out)@ == old(out)@ + span_block_text(src, span),
{
    let (line, col) = src.line_col(span.start);
    let text: &str = match src.line_text(line) {
        Some(text) => text,
        None => "",
    };
    let shown = strip_line_feed(text);
    let locator = locator_line(src.path.as_str(), line, col);
    let shown_line = source_line(line, shown);
    let caret = caret_line(col);
    out.append(locator.as_str());
    out.append("   |\n");
    out.append(shown_line.as_str());
    out.append(caret.as_str());
    assert(out@ =~= old(out)@ + span_block_text(src, span));
}

fn headline(d: &Diagnostic) -> (out: String)
    ensures
        out@ == headline_text(d),
{
    let mut out = String::from_str(severity_label(d.severity));
    out.append(": ");
    out.append(d.message.as_str());
    out.append("\n");
    out
}

fn note_line(note: &str) -> (out: String)
    ensures
        out@ == note_text(note@),
{
    let mut out = String::from_str("note: ");
    out.append(note);
    out.append("\n");
    out
}

/// Appends to `out` the lines of one finding.
fn write_diagnostic(out: &mut String, src: &SourceFile, d: &Diagnostic)
    requires
        src.wf(),
        locatable(*d),
    ensures
        final(out)@ == old(out)@ + diagnostic_text(src, d),
{
    out.append(headline(d).as_str());
    match d.span {
        Some(span) => {
            write_span_block(out, src, span);
        },
        None => {},
    }
    match &d.note {
        Some(note) => {
            out.append(note_line(note.as_str()).as_str());
        },
        None => {},
    }
    out.append("\n");
    assert(out@ =~= old(out)@ + diagnostic_text(src, d));
}

/// A finding that names a place begins below the largest offset that the machine can name,
/// so that its column can be counted.
pub open spec fn locatable(d: Diagnostic) -> bool {
    match d.span {
        Some(span) => span.start < usize::MAX,
        None => true,
    }
}

/// What is reported when work on a file ends early: either an error that stands for no
/// place in any text, or the findings about one text.
#[derive(Debug)]
pub enum Report {
    Fatal(CompilerError),
    Diagnostics { source: SourceFile, diagnostics: Vec<Diagnostic> },
}

impl Report {
    /// The text is indexed as it should be, and no finding begins at the largest offset
    /// that the machine can name.
    pub open spec fn wf(&self) -> bool {
        match self {
            Report::Fatal(_) => true,
            Report::Diagnostics { source, diagnostics } => {
                &&& source.wf()
                &&& forall|i: int|
                    0 <= i < diagnostics@.len() ==> locatable(#[trigger] diagnostics@[i])
            },
        }
    }

    /// The report as text.
    pub open spec fn text(&self) -> Seq<char> {
        match self {
            Report::Fatal(e) => "error: "@ + e.message_text() + "\n"@,
            Report::Diagnostics { source, diagnostics } => diagnostics_text(
                source,
                diagnostics@,
                diagnostics@.len() as int,
            ),
        }
    }

    /// The report of findings about a text.
    pub fn new(source: SourceFile, diagnostics: Vec<Diagnostic>) -> (report: Self)
        ensures
            report == (Report::Diagnostics { source, diagnostics }),
    {
        Report::Diagnostics { source, diagnostics }
    }

    /// The report of a fatal error.
    pub fn from(err: CompilerError) -> (report: Self)
        ensures
            report == Report::Fatal(err),
    {
        Report::Fatal(err)
    }

    /// Writes the report as text: for a fatal error one line, for findings the lines of
    /// each in turn.
    pub fn render(&self) -> (out: String)
        requires
            self.wf(),
        ensures
            out@ == self.text(),
    {
        match self {
            Report::Fatal(e) => {
                let mut out = String::from_str("error: ");
                out.append(e.message().as_str());
                out.append("\n");
                out
            },
            Report::Diagnostics { source, diagnostics } => {
                let mut out = String::new();
                let mut i: usize = 0;
                while i < diagnostics.len()
                    invariant
                        0 <= i <= diagnostics@.len(),
                        source.wf(),
                        forall|k: int|
                            0 <= k < diagnostics@.len() ==> locatable(#[trigger] diagnostics@[k]),
                        out@ == diagnostics_text(source, diagnostics@, i as int),
                    decreases diagnostics@.len() - i,
                {
                    write_diagnostic(&mut out, source, &diagnostics[i]);
                    i = i + 1;
                }
                out
            },
        }
    }
}

impl From<CompilerError> for Report {
    fn from(value: CompilerError) -> (report: Self) {
        Report::Fatal(value)
    }
}

impl vstd::std_specs::convert::FromSpecImpl<CompilerError> for Report {
    open spec fn obeys_from_spec() -> bool {
        true
    }

    open spec fn from_spec(value: CompilerError) -> Self {
        Report::Fatal(value)
    }
}

} // verus!
