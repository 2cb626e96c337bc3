use vstd::prelude::*;
use vstd::utf8::{is_char_boundary, valid_utf8};
use crate::chars::{
    is_digit, is_space, spec_is_ident_continue, spec_is_ident_start, spec_width, upper,
};
use crate::encoding::{ascii_text, char_at, lemma_boundary_advance, lemma_boundary_after_ascii};

verus! {

/// What a token is, with the text of an identifier as a sequence of characters.
pub enum Lexeme {
    Number(i64),
    Identifier(Seq<char>),
    KeywordIf,
    Less,
    LessEqual,
    Eof,
}

/// Why a scan yields no token.
pub enum Fault {
    /// A character that opens no token.
    UnexpectedCharacter(char),
    /// A run of digits whose value does not fit in 64 signed bits.
    InvalidIntegerLiteral,
}

/// One scan: the bytes `[start, end)` that it covers, and what they are.
pub struct Scan {
    pub start: int,
    pub end: int,
    pub outcome: Result<Lexeme, Fault>,
}

/// The reserved words.
#[derive(Debug, Clone, Copy, PartialEq, Eq, Structural)]
pub enum Keyword {
    If,
}

/// A cursor at a character boundary inside well-formed text.
pub open spec fn cursor_ok(bytes: Seq<u8>, pos: int) -> bool {
    &&& valid_utf8(bytes)
    &&& 0 <= pos <= bytes.len()
    &&& is_char_boundary(bytes, pos)
}

/// The class of the whitespace bytes.
pub open spec fn spaces() -> spec_fn(u8) -> bool {
    |b: u8| is_space(b)
}

/// The class of the decimal digits.
pub open spec fn digits() -> spec_fn(u8) -> bool {
    |b: u8| is_digit(b)
}

/// The class of the bytes that continue an identifier.
pub open spec fn ident_tail() -> spec_fn(u8) -> bool {
    |b: u8| spec_is_ident_continue(b)
}

/// The offset at which the longest run of bytes of one class that begins at `pos` ends.
pub open spec fn run_end(bytes: Seq<u8>, pos: int, class: spec_fn(u8) -> bool) -> int
    decreases bytes.len() - pos,
{
    if 0 <= pos < bytes.len() && class(bytes[pos]) {
        run_end(bytes, pos + 1, class)
    } else {
        pos
    }
}

/// The number that a run of decimal digits denotes.
pub open spec fn decimal_value(digits: Seq<u8>) -> nat
    decreases digits.len(),
{
    if digits.len() == 0 {
        0
    } else {
        decimal_value(digits.drop_last()) * 10 + (digits.last() - 0x30) as nat
    }
}

/// The spelling of a reserved word, in upper case.
pub open spec fn spelling(word: Keyword) -> Seq<u8> {
    match word {
        Keyword::If => seq![0x49u8, 0x46u8],
    }
}

/// The reserved word that a whole identifier spells when case is ignored, if there is one.
pub open spec fn keyword_of(text: Seq<u8>) -> Option<Keyword> {
    if text.map_values(|b: u8| upper(b)) == spelling(Keyword::If) {
        Some(Keyword::If)
    } else {
        None
    }
}

/// The token that begins at `start`, the first byte behind the whitespace, or the reason why
/// none does.
pub open spec fn scan_at(bytes: Seq<u8>, start: int) -> Scan {
    if !(0 <= start < bytes.len()) {
        Scan { start, end: start, outcome: Ok(Lexeme::Eof) }
    } else if is_digit(bytes[start]) {
        let end = run_end(bytes, start, digits());
        let value = decimal_value(bytes.subrange(start, end));
        Scan {
            start,
            end,
            outcome: if value <= i64::MAX {
                Ok(Lexeme::Number(value as i64))
            } else {
                Err(Fault::InvalidIntegerLiteral)
            },
        }
    } else if spec_is_ident_start(bytes[start]) {
        let end = run_end(bytes, start, ident_tail());
        let text = bytes.subrange(start, end);
        Scan {
            start,
            end,
            outcome: match keyword_of(text) {
                Some(Keyword::If) => Ok(Lexeme::KeywordIf),
                None => Ok(Lexeme::Identifier(ascii_text(text))),
            },
        }
    } else if bytes[start] == 0x3c {
        if start + 1 < bytes.len() && bytes[start + 1] == 0x3d {
            Scan { start, end: start + 2, outcome: Ok(Lexeme::LessEqual) }
        } else {
            Scan { start, end: start + 1, outcome: Ok(Lexeme::Less) }
        }
    } else {
        Scan {
            start,
            end: start + spec_width(bytes[start]),
            outcome: Err(Fault::UnexpectedCharacter(char_at(bytes, start))),
        }
    }
}

/// One scan from the cursor `pos`: whitespace is passed over, then a token is read.
pub open spec fn scan(bytes: Seq<u8>, pos: int) -> Scan {
    scan_at(bytes, run_end(bytes, pos, spaces()))
}

/// A scan after which scanning goes on: it yields a token other than the end marker.
pub open spec fn goes_on(s: Scan) -> bool {
    s.outcome is Ok && s.outcome != Ok::<Lexeme, Fault>(Lexeme::Eof)
}

/// The scans of a full pass over the text from the cursor `pos` on: each begins where the
/// one before it ended, and the first that yields the end marker or a fault is the last.
pub open spec fn scans(bytes: Seq<u8>, pos: int) -> Seq<Scan>
    decreases bytes.len() - pos,
{
    let first = scan(bytes, pos);
    if goes_on(first) && pos < first.end <= bytes.len() {
        seq![first] + scans(bytes, first.end)
    } else {
        seq![first]
    }
}

/// A run ends inside the text, holds only bytes of its class, and cannot be made longer.
pub proof fn lemma_run_end(bytes: Seq<u8>, pos: int, class: spec_fn(u8) -> bool)
    requires
        0 <= pos <= bytes.len(),
    ensures
        pos <= run_end(bytes, pos, class) <= bytes.len(),
        forall|i: int| pos <= i < run_end(bytes, pos, class) ==> class(#[trigger] bytes[i]),
        run_end(bytes, pos, class) < bytes.len() ==> !class(bytes[run_end(bytes, pos, class)]),
    decreases bytes.len() - pos,
{
    if pos < bytes.len() && class(bytes[pos]) {
        lemma_run_end(bytes, pos + 1, class);
    }
}

/// A run that is entered anywhere inside it ends where the whole run ends.
pub proof fn lemma_run_end_from_inside(
    bytes: Seq<u8>,
    pos: int,
    mid: int,
    class: spec_fn(u8) -> bool,
)
    requires
        0 <= pos <= mid <= bytes.len(),
        forall|i: int| pos <= i < mid ==> class(#[trigger] bytes[i]),
    ensures
        run_end(bytes, pos, class) == run_end(bytes, mid, class),
    decreases mid - pos,
{
    if pos < mid {
        assert(class(bytes[pos]));
        lemma_run_end_from_inside(bytes, pos + 1, mid, class);
    }
}

/// A scan covers bytes at or behind the cursor and inside the text, from one character
/// boundary to another. The end marker covers no byte and stands at the end of the text;
/// every other token, and every fault, covers at least one byte.
pub proof fn lemma_scan_bounds(bytes: Seq<u8>, pos: int)
    requires
        cursor_ok(bytes, pos),
    ensures
        pos <= scan(bytes, pos).start <= scan(bytes, pos).end <= bytes.len(),
        is_char_boundary(bytes, scan(bytes, pos).start),
        is_char_boundary(bytes, scan(bytes, pos).end),
        scan(bytes, pos).outcome == Ok::<Lexeme, Fault>(Lexeme::Eof) <==> scan(bytes, pos).start
            == bytes.len(),
        scan(bytes, pos).outcome == Ok::<Lexeme, Fault>(Lexeme::Eof) <==> scan(bytes, pos).start
            == scan(bytes, pos).end,
{
    let space = spaces();
    let start = run_end(bytes, pos, space);
    lemma_run_end(bytes, pos, space);
    lemma_run_boundary(bytes, pos, space);
    if start < bytes.len() {
        if is_digit(bytes[start]) {
            let digit = digits();
            lemma_run_end(bytes, start, digit);
            lemma_run_boundary(bytes, start, digit);
            assert(run_end(bytes, start, digit) == run_end(bytes, start + 1, digit));
            lemma_run_end(bytes, start + 1, digit);
        } else if spec_is_ident_start(bytes[start]) {
            let cont = ident_tail();
            lemma_run_end(bytes, start, cont);
            lemma_run_boundary(bytes, start, cont);
            assert(run_end(bytes, start, cont) == run_end(bytes, start + 1, cont));
            lemma_run_end(bytes, start + 1, cont);
        } else if bytes[start] == 0x3c {
            lemma_boundary_after_ascii(bytes, start);
            if start + 1 < bytes.len() && bytes[start + 1] == 0x3d {
                lemma_boundary_after_ascii(bytes, start + 1);
            }
        } else {
            lemma_boundary_advance(bytes, start);
        }
    }
}

/// A run of ASCII bytes that begins at a character boundary ends at one.
pub proof fn lemma_run_boundary(bytes: Seq<u8>, pos: int, class: spec_fn(u8) -> bool)
    requires
        valid_utf8(bytes),
        0 <= pos <= bytes.len(),
        is_char_boundary(bytes, pos),
        forall|b: u8| #[trigger] class(b) ==> b < 0x80,
    ensures
        is_char_boundary(bytes, run_end(bytes, pos, class)),
    decreases bytes.len() - pos,
{
    if pos < bytes.len() && class(bytes[pos]) {
        lemma_boundary_after_ascii(bytes, pos);
        lemma_run_boundary(bytes, pos + 1, class);
    }
}

/// A full pass is made of at least one scan; scanning goes on after each scan but the
/// last, and not after the last. So the end marker is yielded at most once, by the last
/// scan, and a pass that meets no fault yields it exactly once.
pub proof fn lemma_scans_end_once(bytes: Seq<u8>, pos: int)
    requires
        cursor_ok(bytes, pos),
    ensures
        scans(bytes, pos).len() >= 1,
        scans(bytes, pos)[0] == scan(bytes, pos),
        !goes_on(scans(bytes, pos).last()),
        forall|i: int|
            0 <= i < scans(bytes, pos).len() - 1 ==> goes_on(#[trigger] scans(bytes, pos)[i]),
        scans(bytes, pos).last().outcome is Ok ==> scans(bytes, pos).last().outcome == Ok::<
            Lexeme,
            Fault,
        >(Lexeme::Eof),
    decreases bytes.len() - pos,
{
    let first = scan(bytes, pos);
    lemma_scan_bounds(bytes, pos);
    if goes_on(first) && pos < first.end <= bytes.len() {
        lemma_scans_end_once(bytes, first.end);
        let rest = scans(bytes, first.end);
        let all = scans(bytes, pos);
        assert(all == seq![first] + rest);
        assert forall|i: int| 0 <= i < all.len() - 1 implies goes_on(#[trigger] all[i]) by {
            if i > 0 {
                assert(all[i] == rest[i - 1]);
            }
        }
        assert(all.last() == rest.last());
    }
}

/// Every scan of a full pass covers bytes inside the text, at or behind the cursor from
/// which the pass set out. A token other than the end marker covers at least one byte, and
/// so does a fault; the end marker covers none and stands at the end of the text.
pub proof fn lemma_scans_spans(bytes: Seq<u8>, pos: int)
    requires
        cursor_ok(bytes, pos),
    ensures
        forall|i: int|
            0 <= i < scans(bytes, pos).len() ==> {
                let s = #[trigger] scans(bytes, pos)[i];
                &&& pos <= s.start <= s.end <= bytes.len()
                &&& s.outcome != Ok::<Lexeme, Fault>(Lexeme::Eof) ==> s.start < s.end
                &&& s.outcome == Ok::<Lexeme, Fault>(Lexeme::Eof) ==> s.start == s.end
                    == bytes.len()
            },
    decreases bytes.len() - pos,
{
    let first = scan(bytes, pos);
    lemma_scan_bounds(bytes, pos);
    if goes_on(first) && pos < first.end <= bytes.len() {
        lemma_scans_spans(bytes, first.end);
        let rest = scans(bytes, first.end);
        let all = scans(bytes, pos);
        assert(all == seq![first] + rest);
        assert forall|i: int| 0 <= i < all.len() implies {
            let s = #[trigger] all[i];
            &&& pos <= s.start <= s.end <= bytes.len()
            &&& s.outcome != Ok::<Lexeme, Fault>(Lexeme::Eof) ==> s.start < s.end
            &&& s.outcome == Ok::<Lexeme, Fault>(Lexeme::Eof) ==> s.start == s.end == bytes.len()
        } by {
            if i > 0 {
                assert(all[i] == rest[i - 1]);
            }
        }
    }
}

/// The scans of a full pass follow one another without overlap: each ends at or before
/// the byte at which any later one begins.
pub proof fn lemma_scans_ordered(bytes: Seq<u8>, pos: int)
    requires
        cursor_ok(bytes, pos),
    ensures
        forall|i: int, j: int|
            0 <= i < j < scans(bytes, pos).len() ==> (#[trigger] scans(bytes, pos)[i]).end <= (
            #[trigger] scans(bytes, pos)[j]).start,
    decreases bytes.len() - pos,
{
    let first = scan(bytes, pos);
    lemma_scan_bounds(bytes, pos);
    if goes_on(first) && pos < first.end <= bytes.len() {
        lemma_scans_ordered(bytes, first.end);
        lemma_scans_spans(bytes, first.end);
        let rest = scans(bytes, first.end);
        let all = scans(bytes, pos);
        assert(all == seq![first] + rest);
        assert forall|i: int, j: int| 0 <= i < j < all.len() implies (#[trigger] all[i]).end <= (
        #[trigger] all[j]).start by {
            assert(all[j] == rest[j - 1]);
            if i > 0 {
                assert(all[i] == rest[i - 1]);
            }
        }
    }
}

/// A whole identifier is the reserved word `IF` exactly when it is two letters long, an
/// `I` and then an `F`, each in either case.
pub proof fn lemma_keyword_if(text: Seq<u8>)
    ensures
        keyword_of(text) == Some(Keyword::If) <==> {
            &&& text.len() == 2
            &&& (text[0] == 0x49 || text[0] == 0x69)
            &&& (text[1] == 0x46 || text[1] == 0x66)
        },
{
    let folded = text.map_values(|b: u8| upper(b));
    let word = spelling(Keyword::If);
    assert(word.len() == 2 && word[0] == 0x49 && word[1] == 0x46);
    if text.len() == 2 {
        assert(folded[0] == upper(text[0]));
        assert(folded[1] == upper(text[1]));
        if (text[0] == 0x49 || text[0] == 0x69) && (text[1] == 0x46 || text[1] == 0x66) {
            assert(folded =~= word);
        }
    } else {
        assert(folded.len() != word.len());
    }
}

/// A number and an identifier are read to the end of their run: a number covers digits
/// only and no digit follows it, an identifier or reserved word covers letters, digits and
/// underscores only and none of these follows it.
pub proof fn lemma_longest_match(bytes: Seq<u8>, pos: int)
    requires
        cursor_ok(bytes, pos),
    ensures
        ({
            let s = scan(bytes, pos);
            &&& (s.outcome matches Ok(Lexeme::Number(_))) ==> {
                &&& forall|i: int| s.start <= i < s.end ==> is_digit(#[trigger] bytes[i])
                &&& s.end < bytes.len() ==> !is_digit(bytes[s.end])
            }
            &&& (s.outcome matches Ok(Lexeme::Identifier(_)) || s.outcome == Ok::<Lexeme, Fault>(
                Lexeme::KeywordIf,
            )) ==> {
                &&& forall|i: int|
                    s.start <= i < s.end ==> spec_is_ident_continue(#[trigger] bytes[i])
                &&& s.end < bytes.len() ==> !spec_is_ident_continue(bytes[s.end])
            }
        }),
{
    let start = run_end(bytes, pos, spaces());
    lemma_run_end(bytes, pos, spaces());
    if start < bytes.len() {
        lemma_run_end(bytes, start, digits());
        lemma_run_end(bytes, start, ident_tail());
    }
}

} // verus!
