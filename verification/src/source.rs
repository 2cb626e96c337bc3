use vstd::prelude::*;
use vstd::string::*;
use vstd::utf8::*;
use std::string::FromUtf8Error;
use crate::encoding::{lemma_boundary_after_ascii, lemma_boundary_in_prefix};
use crate::error::CompilerError;
use crate::span::Span;

verus! {

/// The error with which `String::from_utf8` refuses bytes. Nothing is read from it.
#[verifier::external_type_specification]
#[verifier::external_body]
pub struct ExFromUtf8Error(FromUtf8Error);

/// `String::from_utf8` accepts exactly the well-formed UTF-8 encodings, and the string it
/// then returns is made of the bytes it was given.
pub assume_specification[ String::from_utf8 ](vec: Vec<u8>) -> (r: Result<String, FromUtf8Error>)
    ensures
        r is Ok <==> valid_utf8(vec@),
        r matches Ok(text) ==> encode_utf8(text@) == vec@,
;

/// The offsets at which lines begin, as far as the first `n` bytes show them: offset 0,
/// and the offset behind each line feed, in rising order.
pub open spec fn line_starts_upto(bytes: Seq<u8>, n: int) -> Seq<int>
    decreases n,
{
    if n <= 0 {
        seq![0int]
    } else if bytes[n - 1] == 0x0a {
        line_starts_upto(bytes, n - 1).push(n)
    } else {
        line_starts_upto(bytes, n - 1)
    }
}

/// The offsets at which the lines of a text begin.
pub open spec fn line_starts_of(bytes: Seq<u8>) -> Seq<int> {
    line_starts_upto(bytes, bytes.len() as int)
}

/// The number of line feeds among the first `n` bytes.
pub open spec fn count_newlines(bytes: Seq<u8>, n: int) -> nat
    decreases n,
{
    if n <= 0 {
        0
    } else if bytes[n - 1] == 0x0a {
        count_newlines(bytes, n - 1) + 1
    } else {
        count_newlines(bytes, n - 1)
    }
}

/// The table of line starts opens with 0, rises strictly, stays inside the text, holds one
/// entry more than there are line feeds, and each later entry stands behind a line feed.
pub proof fn lemma_line_starts(bytes: Seq<u8>, n: int)
    requires
        0 <= n <= bytes.len(),
    ensures
        line_starts_upto(bytes, n).len() == 1 + count_newlines(bytes, n),
        line_starts_upto(bytes, n)[0] == 0,
        forall|i: int|
            0 <= i < line_starts_upto(bytes, n).len() ==> 0 <= #[trigger] line_starts_upto(
                bytes,
                n,
            )[i] <= n,
        forall|i: int, j: int|
            0 <= i < j < line_starts_upto(bytes, n).len() ==> #[trigger] line_starts_upto(
                bytes,
                n,
            )[i] < #[trigger] line_starts_upto(bytes, n)[j],
        forall|i: int|
            0 < i < line_starts_upto(bytes, n).len() ==> bytes[#[trigger] line_starts_upto(
                bytes,
                n,
            )[i] - 1] == 0x0a,
    decreases n,
{
    if n > 0 {
        lemma_line_starts(bytes, n - 1);
    }
}

/// Every offset that stands behind a line feed is in the table.
pub proof fn lemma_line_starts_complete(bytes: Seq<u8>, n: int, k: int)
    requires
        0 < k <= n <= bytes.len(),
        bytes[k - 1] == 0x0a,
    ensures
        line_starts_upto(bytes, n).contains(k),
    decreases n,
{
    if k == n {
        let prev = line_starts_upto(bytes, n - 1);
        assert(prev.push(n)[prev.len() as int] == n);
    } else {
        lemma_line_starts_complete(bytes, n - 1, k);
        let prev = line_starts_upto(bytes, n - 1);
        let i = choose|i: int| 0 <= i < prev.len() && prev[i] == k;
        if bytes[n - 1] == 0x0a {
            assert(prev.push(n)[i] == k);
        }
    }
}

/// The index of the last entry of a rising table that is at or below `offset`; 0 where
/// there is none.
pub open spec fn line_index(starts: Seq<int>, offset: int) -> int
    decreases starts.len(),
{
    if starts.len() <= 1 {
        0
    } else if starts.last() <= offset {
        starts.len() - 1
    } else {
        line_index(starts.drop_last(), offset)
    }
}

/// In a table that rises strictly from 0, the index found for an offset is the only one
/// whose entry is at or below the offset while the next entry, if there is one, is above.
pub proof fn lemma_line_index(starts: Seq<int>, offset: int, candidate: int)
    requires
        starts.len() > 0,
        starts[0] == 0,
        0 <= offset,
        forall|i: int, j: int| 0 <= i < j < starts.len() ==> starts[i] < starts[j],
    ensures
        0 <= line_index(starts, offset) < starts.len(),
        starts[line_index(starts, offset)] <= offset,
        line_index(starts, offset) + 1 < starts.len() ==> offset < starts[line_index(
            starts,
            offset,
        ) + 1],
        ({
            &&& 0 <= candidate < starts.len()
            &&& starts[candidate] <= offset
            &&& candidate + 1 < starts.len() ==> offset < starts[candidate + 1]
        }) ==> candidate == line_index(starts, offset),
    decreases starts.len(),
{
    if starts.len() > 1 && starts.last() > offset {
        lemma_line_index(starts.drop_last(), offset, candidate);
    }
}

/// A text, the path it was read from, and the table of its line starts.
#[derive(Debug, Clone)]
pub struct SourceFile {
    pub path: String,
    pub text: String,
    /// Start byte offset of each line (0-based). line_starts[0] == 0
    pub line_starts: Vec<usize>,
}

impl SourceFile {
    /// The text as bytes.
    pub open spec fn bytes(&self) -> Seq<u8> {
        encode_utf8(self.text@)
    }

    /// The table of line starts, as mathematical integers.
    pub open spec fn starts(&self) -> Seq<int> {
        self.line_starts@.map_values(|start: usize| start as int)
    }

    /// The table of line starts is the one that belongs to the text.
    pub open spec fn wf(&self) -> bool {
        self.starts() == line_starts_of(self.bytes())
    }

    /// The line, counted from 1, that holds a byte offset: the last one that begins at or
    /// before it.
    pub open spec fn line_of(&self, offset: int) -> int
        recommends
            self.wf(),
    {
        line_index(self.starts(), offset) + 1
    }

    /// The bytes of a line: from its start up to the start of the next line, or up to the
    /// end of the text for the last line.
    pub open spec fn line_bytes(&self, line: int) -> Seq<u8>
        recommends
            self.wf(),
            1 <= line <= self.starts().len(),
    {
        self.bytes().subrange(
            self.starts()[line - 1],
            if line < self.starts().len() {
                self.starts()[line]
            } else {
                self.bytes().len() as int
            },
        )
    }

    /// Decodes the bytes of a file and indexes its lines. Bytes that are not well-formed
    /// UTF-8 are refused as a whole.
    pub fn load(path: &str, bytes: Vec<u8>) -> (r: Result<Self, CompilerError>)
        ensures
            match r {
                Ok(source) => {
                    &&& valid_utf8(bytes@)
                    &&& source.wf()
                    &&& source.path@ == path@
                    &&& source.bytes() == bytes@
                    &&& source.text@ == decode_utf8(bytes@)
                },
                Err(CompilerError::Encoding { path: refused, .. }) => {
                    &&& !valid_utf8(bytes@)
                    &&& refused@ == path@
                },
                Err(_) => false,
            },
    {
        match String::from_utf8(bytes) {
            Ok(text) => {
                proof {
                    encode_utf8_decode_utf8(text@);
                }
                let line_starts = compute_line_starts(text.as_str());
                Ok(Self { path: path.to_owned(), text, line_starts })
            },
            Err(source) => Err(CompilerError::Encoding { path: path.to_owned(), source }),
        }
    }

    /// The table of a well-formed index opens with 0, rises strictly, and holds one entry
    /// more than the text holds line feeds.
    pub proof fn lemma_index_shape(&self)
        requires
            self.wf(),
        ensures
            self.starts().len() == 1 + count_newlines(self.bytes(), self.bytes().len() as int),
            self.starts()[0] == 0,
            forall|i: int, j: int|
                0 <= i < j < self.starts().len() ==> #[trigger] self.starts()[i]
                    < #[trigger] self.starts()[j],
            forall|i: int|
                0 <= i < self.starts().len() ==> 0 <= #[trigger] self.starts()[i]
                    <= self.bytes().len(),
    {
        lemma_line_starts(self.bytes(), self.bytes().len() as int);
    }

    /// The line and the column found for an offset inside the text lead back to the byte at
    /// that offset: it is the byte of that line at that column.
    pub proof fn lemma_line_col_locates(&self, offset: int)
        requires
            self.wf(),
            0 <= offset < self.bytes().len(),
        ensures
            1 <= self.line_of(offset) <= self.starts().len(),
            0 <= offset - self.starts()[self.line_of(offset) - 1] < self.line_bytes(
                self.line_of(offset),
            ).len(),
            self.line_bytes(self.line_of(offset))[offset - self.starts()[self.line_of(offset)
                - 1]] == self.bytes()[offset],
    {
        lemma_line_starts(self.bytes(), self.bytes().len() as int);
        lemma_line_index(self.starts(), offset, 0);
    }

    /// Each entry of the table is a character boundary of the text.
    pub proof fn lemma_starts_are_boundaries(&self, index: int)
        requires
            self.wf(),
            0 <= index < self.starts().len(),
        ensures
            0 <= self.starts()[index] <= self.bytes().len(),
            is_char_boundary(self.bytes(), self.starts()[index]),
    {
        let bytes = self.bytes();
        lemma_line_starts(bytes, bytes.len() as int);
        encode_utf8_valid_utf8(self.text@);
        if index == 0 {
            is_char_boundary_start_end_of_seq(bytes);
        } else {
            lemma_boundary_after_ascii(bytes, self.starts()[index] - 1);
        }
    }

    /// Convert byte offset -> (line, column), both 1-based.
    ///
    /// The line is the last one that begins at or before the offset, and the column counts
    /// the bytes from the start of that line. An offset behind the end of the text falls in
    /// the last line.
    pub fn line_col(&self, byte_offset: usize) -> (r: (usize, usize))
        requires
            self.wf(),
            byte_offset < usize::MAX,
        ensures
            r.0 == self.line_of(byte_offset as int),
            1 <= r.0 <= self.starts().len(),
            self.starts()[r.0 - 1] <= byte_offset,
            r.1 == byte_offset - self.starts()[r.0 - 1] + 1,
    {
        proof {
            lemma_line_starts(self.bytes(), self.bytes().len() as int);
        }
        let mut low: usize = 0;
        let mut high: usize = self.line_starts.len();
        while high - low > 1
            invariant
                0 <= low < high <= self.line_starts@.len(),
                self.line_starts@[low as int] <= byte_offset,
                high < self.line_starts@.len() ==> byte_offset < self.line_starts@[high as int],
            decreases high - low,
        {
            let mid: usize = low + (high - low) / 2;
            if self.line_starts[mid] <= byte_offset {
                low = mid;
            } else {
                high = mid;
            }
        }
        proof {
            lemma_line_index(self.starts(), byte_offset as int, low as int);
        }
        (low + 1, byte_offset - self.line_starts[low] + 1)
    }

    /// The text of a line, counted from 1, with the line feed that ends it, if there is
    /// one. There is none for line 0 and for a line behind the last.
    pub fn line_text(&self, line_1based: usize) -> (r: Option<&str>)
        requires
            self.wf(),
        ensures
            match r {
                Some(text) => {
                    &&& 1 <= line_1based <= self.starts().len()
                    &&& text.spec_bytes() == self.line_bytes(line_1based as int)
                },
                None => line_1based == 0 || line_1based > self.starts().len(),
            },
    {
        if line_1based == 0 || line_1based > self.line_starts.len() {
            return None;
        }
        let line_idx: usize = line_1based - 1;
        let start: usize = self.line_starts[line_idx];
        let text = self.text.as_str();
        let end: usize = if line_1based < self.line_starts.len() {
            self.line_starts[line_1based]
        } else {
            text.as_bytes().len()
        };
        proof {
            let bytes = self.bytes();
            lemma_line_starts(bytes, bytes.len() as int);
            encode_utf8_valid_utf8(self.text@);
            self.lemma_starts_are_boundaries(line_idx as int);
            if line_1based < self.line_starts.len() {
                self.lemma_starts_are_boundaries(line_1based as int);
            } else {
                is_char_boundary_start_end_of_seq(bytes);
            }
            lemma_boundary_in_prefix(bytes, start as int, end as int);
        }
        let (head, _) = text.split_at(end);
        let (_, line) = head.split_at(start);
        assert(line.spec_bytes() =~= self.line_bytes(line_1based as int));
        Some(line)
    }

    /// The span of the whole text, for findings about the file as such.
    pub fn span_whole(&self) -> (span: Span)
        ensures
            span.start == 0,
            span.end == self.bytes().len(),
    {
        Span::new(0, self.text.as_str().as_bytes().len())
    }
}

/// The table of line starts of a text.
pub fn compute_line_starts(s: &str) -> (starts: Vec<usize>)
    ensures
        starts@.map_values(|start: usize| start as int) == line_starts_of(s.spec_bytes()),
{
    let bytes = s.as_bytes();
    let mut starts: Vec<usize> = Vec::new();
    starts.push(0);
    let mut i: usize = 0;
    assert(starts@.map_values(|start: usize| start as int) =~= line_starts_upto(bytes@, 0));
    while i < bytes.len()
        invariant
            0 <= i <= bytes@.len(),
            starts@.map_values(|start: usize| start as int) == line_starts_upto(bytes@, i as int),
        decreases bytes@.len() - i,
    {
        let ghost before = starts@;
        if bytes[i] == 0x0a {
            starts.push(i + 1);
            assert(starts@.map_values(|start: usize| start as int) =~= before.map_values(
                |start: usize| start as int,
            ).push(i + 1));
        }
        i = i + 1;
    }
    starts
}

} // verus!
